//! Taint: which address values a caller controls, and which of them reach an authority.

use std::collections::{HashMap, HashSet};

use vstd::prelude::*;

use crate::arguments::{self, invocation_arg_for_param};
use crate::hir::{
    Block, Expr, ExprKind, Function, Hir, ItemId, Modifier, Res, Span, Stmt, VarKind, VariableId,
};
use crate::resolve;
use crate::vars::{self, is_address_local};
use crate::walk::{self, walk_expr, walk_stmt, Node, Traversal};
use crate::writes::{self, lhs_local_var, state_write_lhs_vars};

verus! {

broadcast use vstd::std_specs::hash::group_hash_axioms;

/// What an analysis is about: the program, the authorities to watch, and the parameters that
/// the caller controls.
pub struct Scope {
    pub hir: Hir,
    pub authorities: Set<VariableId>,
    pub entry_params: Seq<VariableId>,
}

/// What an analysis has established so far.
pub struct Analysis {
    /// Taint of the locals and parameters that were assigned.
    pub taint: Map<VariableId, bool>,
    /// Taint of the parameters of the modifier that is being analyzed.
    pub modifier_param_taint: Map<VariableId, bool>,
    /// The writes to report, in the order in which they were met.
    pub findings: Seq<Span>,
    /// The authorities that have been reported.
    pub emitted_vars: Set<VariableId>,
}

impl Analysis {
    /// Nothing is established yet.
    pub open spec fn empty() -> Analysis {
        Analysis {
            taint: Map::empty(),
            modifier_param_taint: Map::empty(),
            findings: Seq::empty(),
            emitted_vars: Set::empty(),
        }
    }
}

/// The map holds `true` for the variable.
pub open spec fn marked(map: Map<VariableId, bool>, var: VariableId) -> bool {
    map.contains_key(var) && map[var]
}

/// The parameter is tainted: by its last assignment, if it was assigned; else if the caller
/// controls it or the invocation of the modifier passes a tainted argument.
pub open spec fn param_tainted(scope: Scope, st: Analysis, var: VariableId) -> bool {
    if st.taint.contains_key(var) {
        st.taint[var]
    } else {
        scope.entry_params.contains(var) || marked(st.modifier_param_taint, var)
    }
}

/// The name refers to something tainted: a builtin, a variable of a `try` clause, a tainted
/// parameter, or a variable that was assigned a tainted value.
pub open spec fn res_tainted(scope: Scope, st: Analysis, res: Res) -> bool {
    match res {
        Res::Item(ItemId::Variable(var)) => {
            ||| vars::kind_of(scope.hir, var) is TryCatch
            ||| vars::kind_of(scope.hir, var) is FunctionParam && param_tainted(scope, st, var)
            ||| marked(st.taint, var)
        },
        Res::Builtin(_) => true,
        _ => false,
    }
}

/// One of the things that the name may refer to is tainted.
pub open spec fn some_res_tainted(scope: Scope, st: Analysis, reses: Seq<Res>) -> bool {
    exists|i: int| 0 <= i < reses.len() && res_tainted(scope, st, #[trigger] reses[i])
}

/// The node is a source of taint: a tainted name, or an allocation.
pub open spec fn is_source(scope: Scope, st: Analysis, node: Node) -> bool {
    match node {
        Node::Expr(expr) => match expr.kind {
            ExprKind::Ident(reses) => some_res_tainted(scope, st, reses@),
            ExprKind::New(_) => true,
            _ => false,
        },
        Node::Stmt(_) => false,
    }
}

/// The value of the expression comes from a source of taint.
pub open spec fn tainted(scope: Scope, st: Analysis, expr: Expr) -> bool {
    let nodes = walk::expr_walk(Traversal::Flow, &expr);
    exists|i: int| 0 <= i < nodes.len() && is_source(scope, st, #[trigger] nodes[i])
}

/// The analysis after writes to the listed variables: each authority among them that was not
/// reported yet is, at its span.
pub open spec fn reported(
    authorities: Set<VariableId>,
    st: Analysis,
    writes: Seq<(VariableId, Span)>,
) -> Analysis
    decreases writes.len(),
{
    if writes.len() == 0 {
        st
    } else {
        let so_far = reported(authorities, st, writes.drop_last());
        let (var, span) = writes.last();
        if authorities.contains(var) && !so_far.emitted_vars.contains(var) {
            Analysis {
                findings: so_far.findings.push(span),
                emitted_vars: so_far.emitted_vars.insert(var),
                ..so_far
            }
        } else {
            so_far
        }
    }
}

/// The analysis after a write to the target, of the given value or, without one, of the
/// default value by `delete`. Untainted values are not reported.
pub open spec fn recorded(scope: Scope, st: Analysis, lhs: Expr, rhs: Option<Expr>) -> Analysis {
    if rhs matches Some(value) && !tainted(scope, st, value) {
        st
    } else {
        reported(scope.authorities, st, writes::written_state_vars(scope.hir, lhs))
    }
}

/// The analysis after the local takes the value.
pub open spec fn assigned(scope: Scope, st: Analysis, var: VariableId, value: Expr) -> Analysis {
    Analysis { taint: st.taint.insert(var, tainted(scope, st, value)), ..st }
}

/// The analysis after one node: a declaration or an assignment sets the taint of an address
/// local, assignments and deletions write.
pub open spec fn step(scope: Scope, st: Analysis, node: Node) -> Analysis {
    match node {
        Node::Stmt(stmt) => match stmt {
            Stmt::DeclSingle(decl) => match decl.initializer {
                Some(init) => if vars::address_local(scope.hir, decl.var) {
                    assigned(scope, st, decl.var, *init)
                } else {
                    st
                },
                None => st,
            },
            _ => st,
        },
        Node::Expr(expr) => match expr.kind {
            ExprKind::Assign(lhs, _, rhs) => {
                let written = recorded(scope, st, *lhs, Some(*rhs));
                match writes::local_target(scope.hir, *lhs) {
                    Some(local) => assigned(scope, written, local, *rhs),
                    None => written,
                }
            },
            ExprKind::Delete(inner) => recorded(scope, st, *inner, None),
            _ => st,
        },
    }
}

/// The analysis after the nodes, in order.
pub open spec fn run(scope: Scope, st: Analysis, nodes: Seq<Node>) -> Analysis
    decreases nodes.len(),
{
    if nodes.len() == 0 {
        st
    } else {
        step(scope, run(scope, st, nodes.drop_last()), nodes.last())
    }
}

/// The analysis after a block.
pub open spec fn run_block(scope: Scope, st: Analysis, block: Block) -> Analysis {
    run(scope, st, walk::stmts_walk(Traversal::Everything, block.stmts@))
}

/// Running in two portions is running them all.
pub proof fn lemma_run_add(scope: Scope, st: Analysis, a: Seq<Node>, b: Seq<Node>)
    ensures
        run(scope, st, a + b) == run(scope, run(scope, st, a), b),
    decreases b.len(),
{
    if b.len() == 0 {
        assert(a + b == a);
    } else {
        lemma_run_add(scope, st, a, b.drop_last());
        assert((a + b).drop_last() == a + b.drop_last());
    }
}

/// The invocation passes a tainted value for the parameter.
pub open spec fn passes_tainted(
    scope: Scope,
    st: Analysis,
    modifier: Function,
    invocation: Modifier,
    param: VariableId,
) -> bool {
    arguments::argument(scope.hir, modifier, invocation, param) matches Some(arg) && tainted(
        scope,
        st,
        arg,
    )
}

/// The analysis after the first `count` parameters of the modifier took the taint of what the
/// invocation passes for them.
pub open spec fn bound(
    scope: Scope,
    st: Analysis,
    modifier: Function,
    invocation: Modifier,
    count: nat,
) -> Analysis
    decreases count,
{
    if count == 0 {
        st
    } else {
        let so_far = bound(scope, st, modifier, invocation, (count - 1) as nat);
        let param = modifier.parameters@[count - 1];
        Analysis {
            modifier_param_taint: so_far.modifier_param_taint.insert(
                param,
                passes_tainted(scope, so_far, modifier, invocation, param),
            ),
            ..so_far
        }
    }
}

/// What the map holds for the variable.
pub open spec fn entry_of(map: Map<VariableId, bool>, var: VariableId) -> Option<bool> {
    if map.contains_key(var) {
        Some(map[var])
    } else {
        None
    }
}

/// The first `count` parameters of the modifier, each with what was held of it before it was
/// bound.
pub open spec fn saved(
    scope: Scope,
    st: Analysis,
    modifier: Function,
    invocation: Modifier,
    count: nat,
) -> Seq<(VariableId, Option<bool>)> {
    Seq::new(
        count,
        |i: int|
            (
                modifier.parameters@[i],
                entry_of(
                    bound(scope, st, modifier, invocation, i as nat).modifier_param_taint,
                    modifier.parameters@[i],
                ),
            ),
    )
}

/// The map with what the list holds put back, in order.
pub open spec fn restored(
    map: Map<VariableId, bool>,
    list: Seq<(VariableId, Option<bool>)>,
) -> Map<VariableId, bool>
    decreases list.len(),
{
    if list.len() == 0 {
        map
    } else {
        let so_far = restored(map, list.drop_last());
        match list.last().1 {
            Some(mark) => so_far.insert(list.last().0, mark),
            None => so_far.remove(list.last().0),
        }
    }
}

/// The analysis after the body of the modifier, with its parameters bound meanwhile.
pub open spec fn run_modifier(
    scope: Scope,
    st: Analysis,
    modifier: Function,
    invocation: Modifier,
    body: Block,
) -> Analysis {
    let count = modifier.parameters@.len();
    let inside = run_block(scope, bound(scope, st, modifier, invocation, count), body);
    Analysis {
        modifier_param_taint: restored(
            inside.modifier_param_taint,
            saved(scope, st, modifier, invocation, count),
        ),
        ..inside
    }
}

/// The analysis after a modifier invocation. Base-class calls and modifiers without a body
/// change nothing.
pub open spec fn run_invocation(scope: Scope, st: Analysis, invocation: Modifier) -> Analysis {
    match invocation.id {
        ItemId::Function(function) => {
            let modifier = scope.hir.functions@[function as int];
            match modifier.body {
                Some(body) => run_modifier(scope, st, modifier, invocation, body),
                None => st,
            }
        },
        _ => st,
    }
}

/// The analysis after the invocations, in order.
pub open spec fn run_invocations(
    scope: Scope,
    st: Analysis,
    invocations: Seq<Modifier>,
) -> Analysis
    decreases invocations.len(),
{
    if invocations.len() == 0 {
        st
    } else {
        run_invocation(
            scope,
            run_invocations(scope, st, invocations.drop_last()),
            invocations.last(),
        )
    }
}

/// Tracks tainted address values and reports tainted writes to authorities.
pub struct Analyzer<'hir> {
    pub hir: &'hir Hir,
    pub access_control_vars: &'hir HashSet<VariableId>,
    pub entry_params: &'hir Vec<VariableId>,
    pub taint: HashMap<VariableId, bool>,
    pub modifier_param_taint: HashMap<VariableId, bool>,
    pub findings: Vec<Span>,
    pub emitted_vars: HashSet<VariableId>,
}

impl<'hir> View for Analyzer<'hir> {
    type V = Analysis;

    open spec fn view(&self) -> Analysis {
        Analysis {
            taint: self.taint@,
            modifier_param_taint: self.modifier_param_taint@,
            findings: self.findings@,
            emitted_vars: self.emitted_vars@,
        }
    }
}

/// The mark that the map holds, if any.
fn lookup(map: &HashMap<VariableId, bool>, var: VariableId) -> (mark: Option<bool>)
    ensures
        mark == (if map@.contains_key(var) {
            Some(map@[var])
        } else {
            None
        }),
{
    match map.get(&var) {
        Some(mark) => Some(*mark),
        None => None,
    }
}

impl<'hir> Analyzer<'hir> {
    /// What the analysis is about.
    pub open spec fn scope(self) -> Scope {
        Scope {
            hir: *self.hir,
            authorities: self.access_control_vars@,
            entry_params: self.entry_params@,
        }
    }

    /// An analysis that has established nothing yet.
    pub fn new(
        hir: &'hir Hir,
        access_control_vars: &'hir HashSet<VariableId>,
        entry_params: &'hir Vec<VariableId>,
    ) -> (analyzer: Self)
        ensures
            analyzer.hir == hir,
            analyzer.access_control_vars == access_control_vars,
            analyzer.entry_params == entry_params,
            analyzer@ == Analysis::empty(),
    {
        Analyzer {
            hir,
            access_control_vars,
            entry_params,
            taint: HashMap::new(),
            modifier_param_taint: HashMap::new(),
            findings: Vec::new(),
            emitted_vars: HashSet::new(),
        }
    }

    /// Assignments override what holds of a parameter by default.
    pub fn param_taint(&self, var: VariableId) -> (result: bool)
        ensures
            result == param_tainted(self.scope(), self@, var),
    {
        match lookup(&self.taint, var) {
            Some(mark) => mark,
            None => {
                for i in 0..self.entry_params.len()
                    invariant
                        forall|j: int| 0 <= j < i ==> #[trigger] self.entry_params@[j] != var,
                        !self.taint@.contains_key(var),
                {
                    if self.entry_params[i] == var {
                        return true;
                    }
                }
                match lookup(&self.modifier_param_taint, var) {
                    Some(mark) => mark,
                    None => false,
                }
            },
        }
    }

    /// One of the things that the name may refer to is tainted.
    fn is_name_tainted(&self, reses: &Vec<Res>) -> (result: bool)
        requires
            resolve::reses_resolve(*self.hir, reses@),
        ensures
            result == some_res_tainted(self.scope(), self@, reses@),
    {
        for i in 0..reses.len()
            invariant
                resolve::reses_resolve(*self.hir, reses@),
                forall|j: int|
                    0 <= j < i ==> !res_tainted(self.scope(), self@, #[trigger] reses@[j]),
        {
            let result = match &reses[i] {
                Res::Item(ItemId::Variable(var)) => {
                    let kind = self.hir.variable(*var).kind;
                    kind == VarKind::TryCatch || (kind == VarKind::FunctionParam
                        && self.param_taint(*var)) || match lookup(&self.taint, *var) {
                        Some(mark) => mark,
                        None => false,
                    }
                },
                Res::Builtin(_) => true,
                _ => false,
            };
            if result {
                assert(res_tainted(self.scope(), self@, reses@[i as int]));
                return true;
            }
        }
        false
    }

    /// The value can come from a parameter of the entry point, an argument of the modifier
    /// invocation, a builtin, a `try` clause, an allocation, or another tainted value.
    pub fn is_tainted(&self, expr: &Expr) -> (result: bool)
        requires
            resolve::expr_resolves(*self.hir, *expr),
        ensures
            result == tainted(self.scope(), self@, *expr),
    {
        let mut nodes: Vec<Node> = Vec::new();
        walk_expr(Traversal::Flow, expr, &mut nodes);
        proof {
            assert(nodes@ == walk::expr_walk(Traversal::Flow, expr));
            resolve::lemma_expr_nodes_resolve(*self.hir, Traversal::Flow, *expr);
        }
        for i in 0..nodes.len()
            invariant
                nodes@ == walk::expr_walk(Traversal::Flow, expr),
                resolve::nodes_deeply_resolve(*self.hir, nodes@),
                forall|j: int|
                    0 <= j < i ==> !is_source(self.scope(), self@, #[trigger] nodes@[j]),
        {
            assert(resolve::node_deeply_resolves(*self.hir, nodes@[i as int]));
            if let Node::Expr(part) = nodes[i] {
                let source = match &part.kind {
                    ExprKind::Ident(reses) => {
                        proof {
                            resolve::lemma_parts_resolve(*self.hir, *part);
                        }
                        self.is_name_tainted(reses)
                    },
                    ExprKind::New(_) => true,
                    _ => false,
                };
                if source {
                    assert(is_source(self.scope(), self@, nodes@[i as int]));
                    return true;
                }
            }
        }
        false
    }

    /// The analysis is about the same as before.
    pub open spec fn same_scope(self, before: Self) -> bool {
        &&& self.hir == before.hir
        &&& self.access_control_vars == before.access_control_vars
        &&& self.entry_params == before.entry_params
    }

    /// Reports tainted writes to authorities, once per variable. A write without a value is a
    /// `delete`, and is reported as a tainted one.
    pub fn record_write(&mut self, lhs: &Expr, rhs: Option<&Expr>)
        requires
            resolve::expr_resolves(*old(self).hir, *lhs),
            rhs matches Some(value) ==> resolve::expr_resolves(*old(self).hir, *value),
        ensures
            final(self).same_scope(*old(self)),
            final(self)@ == recorded(
                old(self).scope(),
                old(self)@,
                *lhs,
                match rhs {
                    Some(value) => Some(*value),
                    None => None,
                },
            ),
    {
        if let Some(value) = rhs {
            if !self.is_tainted(value) {
                return ;
            }
        }
        let ghost before = *self;
        let written = state_write_lhs_vars(self.hir, lhs);
        for i in 0..written.len()
            invariant
                self.same_scope(before),
                self@ == reported(before.scope().authorities, before@, written@.take(i as int)),
        {
            assert(written@.take(i + 1).drop_last() == written@.take(i as int));
            let (var, span) = written[i];
            let ghost emitted = self.emitted_vars@;
            if self.access_control_vars.contains(&var) {
                if self.emitted_vars.insert(var) {
                    self.findings.push(span);
                } else {
                    assert(emitted.insert(var) == emitted);
                }
            }
        }
        assert(written@.take(written@.len() as int) == written@);
    }

    /// Looks at one node.
    fn visit_node(&mut self, node: Node)
        requires
            resolve::node_deeply_resolves(*old(self).hir, node),
        ensures
            final(self).same_scope(*old(self)),
            final(self)@ == step(old(self).scope(), old(self)@, node),
    {
        match node {
            Node::Stmt(stmt) => {
                if let Stmt::DeclSingle(decl) = stmt {
                    proof {
                        resolve::lemma_decl_resolves(*self.hir, *stmt);
                    }
                    if let Some(init) = &decl.initializer {
                        if is_address_local(self.hir, decl.var) {
                            let mark = self.is_tainted(init);
                            self.taint.insert(decl.var, mark);
                        }
                    }
                }
            },
            Node::Expr(expr) => {
                proof {
                    resolve::lemma_parts_resolve(*self.hir, *expr);
                }
                match &expr.kind {
                    ExprKind::Assign(lhs, _, rhs) => {
                        self.record_write(lhs, Some(rhs));
                        if let Some(local) = lhs_local_var(self.hir, lhs) {
                            let mark = self.is_tainted(rhs);
                            self.taint.insert(local, mark);
                        }
                    },
                    ExprKind::Delete(inner) => {
                        self.record_write(inner, None);
                    },
                    _ => {},
                }
            },
        }
    }

    /// Looks at a statement and all below it.
    pub fn visit_stmt(&mut self, stmt: &Stmt)
        requires
            resolve::node_deeply_resolves(*old(self).hir, Node::Stmt(stmt)),
        ensures
            final(self).same_scope(*old(self)),
            final(self)@ == run(
                old(self).scope(),
                old(self)@,
                walk::stmt_walk(Traversal::Everything, stmt),
            ),
    {
        let mut nodes: Vec<Node> = Vec::new();
        walk_stmt(Traversal::Everything, stmt, &mut nodes);
        let ghost before = *self;
        proof {
            assert(nodes@ == walk::stmt_walk(Traversal::Everything, stmt));
            resolve::lemma_stmt_nodes_resolve(*self.hir, Traversal::Everything, *stmt);
        }
        for i in 0..nodes.len()
            invariant
                resolve::nodes_deeply_resolve(*before.hir, nodes@),
                self.same_scope(before),
                self@ == run(before.scope(), before@, nodes@.take(i as int)),
        {
            assert(nodes@.take(i + 1).drop_last() == nodes@.take(i as int));
            assert(resolve::node_deeply_resolves(*before.hir, nodes@[i as int]));
            self.visit_node(nodes[i]);
        }
        assert(nodes@.take(nodes@.len() as int) == nodes@);
    }

    /// Looks at every statement of a block.
    pub fn visit_block(&mut self, block: &Block)
        requires
            resolve::stmts_resolve(*old(self).hir, block.stmts@),
        ensures
            final(self).same_scope(*old(self)),
            final(self)@ == run_block(old(self).scope(), old(self)@, *block),
    {
        let ghost before = *self;
        for i in 0..block.stmts.len()
            invariant
                resolve::stmts_resolve(*before.hir, block.stmts@),
                self.same_scope(before),
                self@ == run(
                    before.scope(),
                    before@,
                    walk::stmts_walk(Traversal::Everything, block.stmts@.take(i as int)),
                ),
        {
            proof {
                resolve::lemma_each_stmt_resolves(*before.hir, block.stmts@);
                walk::lemma_stmts_walk_step(Traversal::Everything, block.stmts@, i as int);
                lemma_run_add(
                    before.scope(),
                    before@,
                    walk::stmts_walk(Traversal::Everything, block.stmts@.take(i as int)),
                    walk::stmt_walk(Traversal::Everything, &block.stmts@[i as int]),
                );
            }
            self.visit_stmt(&block.stmts[i]);
        }
        assert(block.stmts@.take(block.stmts@.len() as int) == block.stmts@);
    }

    /// Binds the parameters of a modifier to the taint of what the invocation passes, and
    /// returns what was held of them before.
    fn bind_modifier_params(
        &mut self,
        modifier: &Function,
        invocation: &Modifier,
    ) -> (restore: Vec<(VariableId, Option<bool>)>)
        requires
            resolve::function_resolves(*old(self).hir, *modifier),
            resolve::modifier_resolves(*old(self).hir, *invocation),
        ensures
            final(self).same_scope(*old(self)),
            final(self)@ == bound(
                old(self).scope(),
                old(self)@,
                *modifier,
                *invocation,
                modifier.parameters@.len(),
            ),
            restore@ == saved(
                old(self).scope(),
                old(self)@,
                *modifier,
                *invocation,
                modifier.parameters@.len(),
            ),
    {
        let ghost before = *self;
        let mut restore: Vec<(VariableId, Option<bool>)> = Vec::new();
        for i in 0..modifier.parameters.len()
            invariant
                resolve::function_resolves(*before.hir, *modifier),
                resolve::modifier_resolves(*before.hir, *invocation),
                self.same_scope(before),
                self@ == bound(before.scope(), before@, *modifier, *invocation, i as nat),
                restore@ == saved(before.scope(), before@, *modifier, *invocation, i as nat),
        {
            let param = modifier.parameters[i];
            proof {
                arguments::lemma_argument_resolves(*before.hir, *modifier, *invocation, param);
            }
            let mark = match invocation_arg_for_param(self.hir, modifier, invocation, param) {
                Some(arg) => self.is_tainted(arg),
                None => false,
            };
            restore.push((param, self.modifier_param_taint.insert(param, mark)));
        }
        restore
    }

    /// Puts back what was held of the parameters before a modifier was entered.
    fn restore_modifier_params(&mut self, restore: Vec<(VariableId, Option<bool>)>)
        ensures
            final(self).same_scope(*old(self)),
            final(self)@ == (Analysis {
                modifier_param_taint: restored(old(self)@.modifier_param_taint, restore@),
                ..old(self)@
            }),
    {
        let ghost before = *self;
        for i in 0..restore.len()
            invariant
                self.same_scope(before),
                self@ == (Analysis {
                    modifier_param_taint: restored(
                        before@.modifier_param_taint,
                        restore@.take(i as int),
                    ),
                    ..before@
                }),
        {
            assert(restore@.take(i + 1).drop_last() == restore@.take(i as int));
            let (param, previous) = restore[i];
            match previous {
                Some(mark) => {
                    self.modifier_param_taint.insert(param, mark);
                },
                None => {
                    self.modifier_param_taint.remove(&param);
                },
            }
        }
        assert(restore@.take(restore@.len() as int) == restore@);
    }

    /// Analyzes the body of a modifier where it is invoked, so that what it writes is checked
    /// too.
    pub fn visit_modifier_invocation(&mut self, invocation: &Modifier)
        requires
            old(self).hir.well_formed(),
            resolve::modifier_resolves(*old(self).hir, *invocation),
        ensures
            final(self).same_scope(*old(self)),
            final(self)@ == run_invocation(old(self).scope(), old(self)@, *invocation),
    {
        if let ItemId::Function(function) = invocation.id {
            let modifier = self.hir.function(function);
            assert(resolve::function_resolves(*self.hir, *modifier));
            if let Some(body) = &modifier.body {
                let restore = self.bind_modifier_params(modifier, invocation);
                self.visit_block(body);
                self.restore_modifier_params(restore);
            }
        }
    }
}

} // verus!
