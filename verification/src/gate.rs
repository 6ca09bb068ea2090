//! Guards: the checks of `msg.sender` that stop unauthorized callers.

use vstd::prelude::*;

use crate::hir::{Block, CallArgs, Expr, ExprKind, Function, Hir, ItemId, Stmt, VariableId};
use crate::names::{self, is_require_or_assert};
use crate::reads::{self, any_address_local, any_address_state_var, AccessControlReadCollector};
use crate::resolve;
use crate::sender::{self, sender_condition_allows, stmt_exits};
use crate::vars;
use crate::walk::{self, walk_stmt, Node, Traversal};

verus! {

/// The variable can name an authority: it is address state or, where parameters are allowed,
/// an address parameter that the place of invocation can map to one.
pub open spec fn can_be_authority(hir: Hir, var: VariableId, allow_params: bool) -> bool {
    vars::address_state_var(hir, var) || (allow_params && vars::kind_of(
        hir,
        var,
    ) is FunctionParam && vars::is_address(hir, var))
}

/// The condition compares `msg.sender` with something that can name an authority.
pub open spec fn tests_authority(hir: Hir, cond: Expr, allow_params: bool) -> bool {
    exists|var: VariableId| #[trigger]
        reads::compares(cond, var) && can_be_authority(hir, var, allow_params)
}

/// The `if` statement is a guard: its condition tests an authority, and the branch that the
/// unauthorized take exits.
pub open spec fn if_gates(
    hir: Hir,
    cond: Expr,
    then: Stmt,
    other: Option<Box<Stmt>>,
    allow_params: bool,
) -> bool {
    tests_authority(hir, cond, allow_params) && match sender::allows(cond) {
        Some(true) => other matches Some(other) && sender::exits(*other),
        Some(false) => sender::exits(then),
        None => false,
    }
}

/// The condition of the guard that the node is, if it has the shape of one: the condition of
/// an `if`, or the first argument of a `require` or `assert` call.
pub open spec fn guard_condition(node: Node) -> Option<Expr> {
    match node {
        Node::Stmt(stmt) => match stmt {
            Stmt::If(cond, _, _) => Some(**cond),
            _ => None,
        },
        Node::Expr(expr) => match expr.kind {
            ExprKind::Call(callee, args, _) => if names::names_guard_builtin(*callee)
                && resolve::call_args(args).len() > 0 {
                Some(resolve::call_args(args)[0])
            } else {
                None
            },
            _ => None,
        },
    }
}

/// The node is a guard.
pub open spec fn node_gates(hir: Hir, node: Node, allow_params: bool) -> bool {
    match node {
        Node::Stmt(stmt) => match stmt {
            Stmt::If(cond, then, other) => if_gates(hir, **cond, **then, *other, allow_params),
            _ => false,
        },
        Node::Expr(_) => guard_condition(node) matches Some(cond) && tests_authority(
            hir,
            cond,
            allow_params,
        ),
    }
}

/// One of the nodes is a guard.
pub open spec fn some_node_gates(hir: Hir, nodes: Seq<Node>, allow_params: bool) -> bool {
    exists|i: int| 0 <= i < nodes.len() && node_gates(hir, #[trigger] nodes[i], allow_params)
}

/// There is a guard in the block.
pub open spec fn block_gates(hir: Hir, block: Block, allow_params: bool) -> bool {
    some_node_gates(
        hir,
        walk::stmts_walk(Traversal::Everything, block.stmts@),
        allow_params,
    )
}

/// The modifier that the invocation names has a body with a guard in it.
pub open spec fn invocation_gates(hir: Hir, id: ItemId) -> bool {
    match id {
        ItemId::Function(function) => match hir.functions@[function as int].body {
            Some(body) => block_gates(hir, body, true),
            None => false,
        },
        _ => false,
    }
}

/// The function is gated by its own body, or by a modifier that it invokes.
pub open spec fn protected(hir: Hir, func: Function) -> bool {
    ||| func.body matches Some(body) && block_gates(hir, body, false)
    ||| exists|i: int|
        0 <= i < func.modifiers@.len() && invocation_gates(hir, (#[trigger] func.modifiers@[i]).id)
}

/// The value of a call's first argument.
pub fn first_arg(args: &CallArgs) -> (first: Option<&Expr>)
    ensures
        match first {
            Some(expr) => resolve::call_args(*args).len() > 0 && *expr == resolve::call_args(
                *args,
            )[0],
            None => resolve::call_args(*args).len() == 0,
        },
{
    match args {
        CallArgs::Unnamed(exprs) => if exprs.len() > 0 {
            Some(&exprs[0])
        } else {
            None
        },
        CallArgs::Named(named) => if named.len() > 0 {
            Some(&named[0].value)
        } else {
            None
        },
    }
}

/// A condition on the sender is access control only if it refers to an address state variable
/// or, where parameters are allowed, to an address parameter.
pub fn condition_has_access_control_value(hir: &Hir, cond: &Expr, allow_params: bool) -> (found:
    bool)
    requires
        resolve::expr_resolves(*hir, *cond),
    ensures
        found == tests_authority(*hir, *cond, allow_params),
{
    let mut collector = AccessControlReadCollector::new(hir);
    collector.collect_access_vars(cond);
    proof {
        let found_state = exists|var: VariableId| #[trigger]
            collector.state_vars@.contains(var) && vars::address_state_var(*hir, var);
        let found_param = exists|var: VariableId| #[trigger]
            collector.params@.contains(var) && vars::address_local(*hir, var);
        if found_state {
            let var = choose|var: VariableId| #[trigger]
                collector.state_vars@.contains(var) && vars::address_state_var(*hir, var);
            assert(reads::compares(*cond, var));
        }
        if found_param && allow_params {
            let var = choose|var: VariableId| #[trigger]
                collector.params@.contains(var) && vars::address_local(*hir, var);
            assert(reads::compares(*cond, var));
        }
        if tests_authority(*hir, *cond, allow_params) {
            let var = choose|var: VariableId| #[trigger]
                reads::compares(*cond, var) && can_be_authority(*hir, var, allow_params);
            if vars::address_state_var(*hir, var) {
                assert(collector.state_vars@.contains(var));
            } else {
                assert(collector.params@.contains(var));
            }
        }
    }
    (allow_params && any_address_local(hir, &collector.params)) || any_address_state_var(
        hir,
        &collector.state_vars,
    )
}

/// An `if` is a guard only when its condition tests an authority and the branch of the
/// unauthorized exits before later writes can run.
pub fn msg_sender_if_gates_execution(
    hir: &Hir,
    cond: &Expr,
    then: &Stmt,
    other: &Option<Box<Stmt>>,
    allow_params: bool,
) -> (gates: bool)
    requires
        resolve::expr_resolves(*hir, *cond),
    ensures
        gates == if_gates(*hir, *cond, *then, *other, allow_params),
{
    if !condition_has_access_control_value(hir, cond, allow_params) {
        return false;
    }
    match sender_condition_allows(cond) {
        Some(true) => match other {
            Some(other) => stmt_exits(other),
            None => false,
        },
        Some(false) => stmt_exits(then),
        None => false,
    }
}

/// Finds the `require` and `assert` checks and the `if` guards that test `msg.sender`.
pub struct MsgSenderGateVisitor<'hir> {
    pub hir: &'hir Hir,
    pub allow_params: bool,
    pub found: bool,
}

impl<'hir> MsgSenderGateVisitor<'hir> {
    /// Looks at one node.
    fn visit_node(&mut self, node: Node)
        requires
            resolve::node_deeply_resolves(*old(self).hir, node),
        ensures
            final(self).hir == old(self).hir,
            final(self).allow_params == old(self).allow_params,
            final(self).found == (old(self).found || node_gates(
                *old(self).hir,
                node,
                old(self).allow_params,
            )),
    {
        match node {
            Node::Stmt(stmt) => {
                if let Stmt::If(cond, then, other) = stmt {
                    proof {
                        resolve::lemma_if_condition_resolves(*self.hir, *stmt);
                    }
                    if msg_sender_if_gates_execution(
                        self.hir,
                        cond,
                        then,
                        other,
                        self.allow_params,
                    ) {
                        self.found = true;
                    }
                }
            },
            Node::Expr(expr) => {
                if let ExprKind::Call(callee, args, _) = &expr.kind {
                    if is_require_or_assert(callee) {
                        if let Some(cond) = first_arg(args) {
                            proof {
                                resolve::lemma_parts_resolve(*self.hir, *expr);
                            }
                            if condition_has_access_control_value(
                                self.hir,
                                cond,
                                self.allow_params,
                            ) {
                                self.found = true;
                            }
                        }
                    }
                }
            },
        }
    }

    /// Looks at a statement and all below it.
    pub fn visit_stmt(&mut self, stmt: &Stmt)
        requires
            resolve::node_deeply_resolves(*old(self).hir, Node::Stmt(stmt)),
        ensures
            final(self).hir == old(self).hir,
            final(self).allow_params == old(self).allow_params,
            final(self).found == (old(self).found || some_node_gates(
                *old(self).hir,
                walk::stmt_walk(Traversal::Everything, stmt),
                old(self).allow_params,
            )),
    {
        let mut nodes: Vec<Node> = Vec::new();
        walk_stmt(Traversal::Everything, stmt, &mut nodes);
        let ghost before = *self;
        proof {
            assert(nodes@ == walk::stmt_walk(Traversal::Everything, stmt));
            resolve::lemma_stmt_nodes_resolve(*self.hir, Traversal::Everything, *stmt);
        }
        for i in 0..nodes.len()
            invariant
                resolve::nodes_deeply_resolve(*self.hir, nodes@),
                self.hir == before.hir,
                self.allow_params == before.allow_params,
                self.found == (before.found || exists|j: int|
                    0 <= j < i && node_gates(
                        *before.hir,
                        #[trigger] nodes@[j],
                        before.allow_params,
                    )),
        {
            self.visit_node(nodes[i]);
        }
    }
}

/// Walks a body looking for a check of `msg.sender` that gates what follows.
pub fn body_has_msg_sender_gate(hir: &Hir, body: &Block, allow_params: bool) -> (found: bool)
    requires
        resolve::stmts_resolve(*hir, body.stmts@),
    ensures
        found == block_gates(*hir, *body, allow_params),
{
    let mut visitor = MsgSenderGateVisitor { hir, allow_params, found: false };
    for i in 0..body.stmts.len()
        invariant
            resolve::stmts_resolve(*hir, body.stmts@),
            visitor.hir == hir,
            visitor.allow_params == allow_params,
            !visitor.found,
            !some_node_gates(
                *hir,
                walk::stmts_walk(Traversal::Everything, body.stmts@.take(i as int)),
                allow_params,
            ),
    {
        let ghost seen = walk::stmts_walk(Traversal::Everything, body.stmts@.take(i as int));
        let ghost next = walk::stmt_walk(Traversal::Everything, &body.stmts@[i as int]);
        proof {
            resolve::lemma_each_stmt_resolves(*hir, body.stmts@);
            walk::lemma_stmts_walk_step(Traversal::Everything, body.stmts@, i as int);
        }
        visitor.visit_stmt(&body.stmts[i]);
        if visitor.found {
            proof {
                walk::lemma_stmts_walk_prefix(Traversal::Everything, body.stmts@, i + 1);
                let j = choose|j: int|
                    0 <= j < next.len() && node_gates(*hir, #[trigger] next[j], allow_params);
                assert((seen + next)[seen.len() + j] == next[j]);
                let all = walk::stmts_walk(Traversal::Everything, body.stmts@);
                assert(all[seen.len() + j] == next[j]);
            }
            return true;
        }
    }
    assert(body.stmts@.take(body.stmts@.len() as int) == body.stmts@);
    false
}

/// A function is protected when its body, or a modifier that it invokes, gates execution on
/// `msg.sender`.
pub fn is_protected(hir: &Hir, func: &Function) -> (result: bool)
    requires
        hir.well_formed(),
        resolve::function_resolves(*hir, *func),
    ensures
        result == protected(*hir, *func),
{
    if let Some(body) = &func.body {
        if body_has_msg_sender_gate(hir, body, false) {
            return true;
        }
    }
    for i in 0..func.modifiers.len()
        invariant
            hir.well_formed(),
            resolve::function_resolves(*hir, *func),
            forall|j: int|
                0 <= j < i ==> !invocation_gates(*hir, (#[trigger] func.modifiers@[j]).id),
    {
        let ghost invocation = func.modifiers@[i as int];
        assert(resolve::modifier_resolves(*hir, invocation));
        if let ItemId::Function(function) = func.modifiers[i].id {
            let modifier = hir.function(function);
            assert(resolve::function_resolves(*hir, *modifier));
            if let Some(body) = &modifier.body {
                if body_has_msg_sender_gate(hir, body, true) {
                    return true;
                }
            }
        }
    }
    false
}

} // verus!
