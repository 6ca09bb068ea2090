//! The variables that an expression mentions, and those that a guard compares the sender with.

use std::collections::HashSet;

use vstd::prelude::*;

use crate::hir::{
    BinOpKind, CallArgs, Expr, ExprKind, Hir, ItemId, NamedArg, Res, VarKind, VariableId,
};
use crate::resolve;
use crate::sender::{self, contains_msg_sender};
use crate::vars::{self, is_address_local, is_address_state_var};
use crate::walk::{self, walk_expr, Node, Traversal};

verus! {

broadcast use vstd::std_specs::hash::group_hash_axioms;

/// `var` is among what the name may refer to.
pub open spec fn reses_name(reses: Seq<Res>, var: VariableId) -> bool {
    exists|i: int| 0 <= i < reses.len() && #[trigger] reses[i] == Res::Item(ItemId::Variable(var))
}

/// The node is a name that may refer to `var`.
pub open spec fn node_names(node: Node, var: VariableId) -> bool {
    node matches Node::Expr(expr) && expr.kind matches ExprKind::Ident(reses) && reses_name(
        reses@,
        var,
    )
}

/// One of the nodes is a name that may refer to `var`.
pub open spec fn nodes_name(nodes: Seq<Node>, var: VariableId) -> bool {
    exists|i: int| 0 <= i < nodes.len() && node_names(#[trigger] nodes[i], var)
}

/// One of the values that the expression is made of is `var`.
pub open spec fn mentions(expr: Expr, var: VariableId) -> bool {
    nodes_name(walk::expr_walk(Traversal::Values, &expr), var)
}

/// The variables that the expression is made of.
pub open spec fn mentioned_vars(expr: Expr) -> Set<VariableId> {
    Set::new(|var: VariableId| mentions(expr, var))
}

/// Adds the variables that a name may refer to to `out`.
fn collect_named(reses: &Vec<Res>, out: &mut HashSet<VariableId>)
    ensures
        forall|var: VariableId| #[trigger]
            final(out)@.contains(var) <==> old(out)@.contains(var) || reses_name(reses@, var),
{
    let ghost start = out@;
    for i in 0..reses.len()
        invariant
            forall|var: VariableId| #[trigger]
                out@.contains(var) <==> start.contains(var) || exists|j: int|
                    0 <= j < i && #[trigger] reses@[j] == Res::Item(ItemId::Variable(var)),
    {
        if let Res::Item(ItemId::Variable(var)) = &reses[i] {
            out.insert(*var);
        }
    }
}

/// Adds the variables that an expression mentions to `out`.
pub fn collect_state_vars(expr: &Expr, out: &mut HashSet<VariableId>)
    ensures
        final(out)@ == old(out)@.union(mentioned_vars(*expr)),
{
    let mut nodes: Vec<Node> = Vec::new();
    walk_expr(Traversal::Values, expr, &mut nodes);
    let ghost start = out@;
    assert(nodes@ == walk::expr_walk(Traversal::Values, expr));
    for i in 0..nodes.len()
        invariant
            forall|var: VariableId| #[trigger]
                out@.contains(var) <==> start.contains(var) || exists|j: int|
                    0 <= j < i && node_names(#[trigger] nodes@[j], var),
    {
        if let Node::Expr(part) = nodes[i] {
            if let ExprKind::Ident(reses) = &part.kind {
                collect_named(reses, out);
            }
        }
    }
}

/// The condition compares `msg.sender` with `var`: one side of an equality mentions the sender
/// and the other mentions `var`, or a call goes through a lookup by the sender in `var`.
/// Comparisons count below `&&`, `||`, unary operators, `payable(..)`, member accesses and
/// tuples, and in the arguments of calls.
pub open spec fn compares(cond: Expr, var: VariableId) -> bool
    decreases cond,
{
    match cond.kind {
        ExprKind::Binary(lhs, op, rhs) => match op {
            BinOpKind::Eq | BinOpKind::Ne => if sender::mentions_sender(*lhs) {
                mentions(*rhs, var)
            } else if sender::mentions_sender(*rhs) {
                mentions(*lhs, var)
            } else {
                compares(*lhs, var) || compares(*rhs, var)
            },
            BinOpKind::And | BinOpKind::Or => compares(*lhs, var) || compares(*rhs, var),
            _ => false,
        },
        ExprKind::Call(callee, args, _) => looks_up_sender(*callee, var) || match args {
            CallArgs::Unnamed(exprs) => exists|i: int|
                0 <= i < exprs@.len() && compares(#[trigger] exprs@[i], var),
            CallArgs::Named(named) => exists|i: int|
                0 <= i < named@.len() && compares((#[trigger] named@[i]).value, var),
        },
        ExprKind::Unary(_, inner) => compares(*inner, var),
        ExprKind::Payable(inner) => compares(*inner, var),
        ExprKind::Member(inner, _) => compares(*inner, var),
        ExprKind::Tuple(exprs) => exists|i: int|
            0 <= i < exprs@.len() && match #[trigger] exprs@[i] {
                Some(inner) => compares(inner, var),
                None => false,
            },
        _ => false,
    }
}

/// The callee is a lookup by a key that mentions the sender, in something that mentions `var`.
pub open spec fn looks_up_sender(callee: Expr, var: VariableId) -> bool {
    callee.kind matches ExprKind::Index(base, Some(index)) && sender::mentions_sender(*index)
        && mentions(*base, var)
}

/// The state variables among `vars`.
pub open spec fn state_part(hir: Hir, vars: Set<VariableId>) -> Set<VariableId> {
    vars.filter(|var: VariableId| vars::kind_of(hir, var) is State)
}

/// The function and modifier parameters among `vars`.
pub open spec fn param_part(hir: Hir, vars: Set<VariableId>) -> Set<VariableId> {
    vars.filter(|var: VariableId| vars::kind_of(hir, var) is FunctionParam)
}

/// The variables that the condition compares the sender with.
pub open spec fn compared_vars(cond: Expr) -> Set<VariableId> {
    Set::new(|var: VariableId| compares(cond, var))
}

/// Collects the state variables and the parameters that guards compare `msg.sender` with.
pub struct AccessControlReadCollector<'hir> {
    pub hir: &'hir Hir,
    pub state_vars: HashSet<VariableId>,
    pub params: HashSet<VariableId>,
}

impl<'hir> AccessControlReadCollector<'hir> {
    /// Everything collected is in the table of variables.
    pub open spec fn well_formed(self) -> bool {
        &&& forall|var: VariableId| #[trigger]
            self.state_vars@.contains(var) ==> var < self.hir.variables@.len()
        &&& forall|var: VariableId| #[trigger]
            self.params@.contains(var) ==> var < self.hir.variables@.len()
    }

    /// `self` holds what `before` held, and the state variables and parameters of `found`.
    pub open spec fn extends(self, before: Self, found: Set<VariableId>) -> bool {
        &&& self.hir == before.hir
        &&& self.state_vars@ =~= before.state_vars@.union(state_part(*before.hir, found))
        &&& self.params@ =~= before.params@.union(param_part(*before.hir, found))
    }

    /// A collector that has found nothing yet.
    pub fn new(hir: &'hir Hir) -> (collector: Self)
        ensures
            collector.well_formed(),
            collector.hir == hir,
            collector.state_vars@ == Set::<VariableId>::empty(),
            collector.params@ == Set::<VariableId>::empty(),
    {
        AccessControlReadCollector { hir, state_vars: HashSet::new(), params: HashSet::new() }
    }

    /// Records the state variables and the parameters that a name may refer to.
    fn record_named(&mut self, reses: &Vec<Res>)
        requires
            old(self).well_formed(),
            resolve::reses_resolve(*old(self).hir, reses@),
        ensures
            final(self).well_formed(),
            final(self).extends(
                *old(self),
                Set::new(|var: VariableId| reses_name(reses@, var)),
            ),
    {
        let ghost before = *self;
        for i in 0..reses.len()
            invariant
                self.well_formed(),
                resolve::reses_resolve(*self.hir, reses@),
                self.hir == before.hir,
                forall|var: VariableId| #[trigger]
                    self.state_vars@.contains(var) <==> before.state_vars@.contains(var) || (
                    vars::kind_of(*self.hir, var) is State && exists|j: int|
                        0 <= j < i && #[trigger] reses@[j] == Res::Item(ItemId::Variable(var))),
                forall|var: VariableId| #[trigger]
                    self.params@.contains(var) <==> before.params@.contains(var) || (vars::kind_of(
                        *self.hir,
                        var,
                    ) is FunctionParam && exists|j: int|
                        0 <= j < i && #[trigger] reses@[j] == Res::Item(ItemId::Variable(var))),
        {
            if let Res::Item(ItemId::Variable(var)) = &reses[i] {
                let kind = self.hir.variable(*var).kind;
                if kind == VarKind::State {
                    self.state_vars.insert(*var);
                } else if kind == VarKind::FunctionParam {
                    self.params.insert(*var);
                }
            }
        }
    }

    /// Records what the side opposite `msg.sender` mentions: state variables directly,
    /// parameters for the places where the modifier is invoked.
    pub fn collect_non_sender_vars(&mut self, expr: &Expr)
        requires
            old(self).well_formed(),
            resolve::expr_resolves(*old(self).hir, *expr),
        ensures
            final(self).well_formed(),
            final(self).extends(*old(self), mentioned_vars(*expr)),
    {
        let mut nodes: Vec<Node> = Vec::new();
        walk_expr(Traversal::Values, expr, &mut nodes);
        let ghost before = *self;
        proof {
            assert(nodes@ == walk::expr_walk(Traversal::Values, expr));
            resolve::lemma_expr_nodes_resolve(*self.hir, Traversal::Values, *expr);
        }
        for i in 0..nodes.len()
            invariant
                self.well_formed(),
                resolve::nodes_deeply_resolve(*self.hir, nodes@),
                self.hir == before.hir,
                forall|var: VariableId| #[trigger]
                    self.state_vars@.contains(var) <==> before.state_vars@.contains(var) || (
                    vars::kind_of(*self.hir, var) is State && exists|j: int|
                        0 <= j < i && node_names(#[trigger] nodes@[j], var)),
                forall|var: VariableId| #[trigger]
                    self.params@.contains(var) <==> before.params@.contains(var) || (vars::kind_of(
                        *self.hir,
                        var,
                    ) is FunctionParam && exists|j: int|
                        0 <= j < i && node_names(#[trigger] nodes@[j], var)),
        {
            if let Node::Expr(part) = nodes[i] {
                if let ExprKind::Ident(reses) = &part.kind {
                    proof {
                        assert(resolve::node_deeply_resolves(*self.hir, nodes@[i as int]));
                        resolve::lemma_parts_resolve(*self.hir, *part);
                    }
                    self.record_named(reses);
                }
            }
        }
    }

    /// Records what the condition compares `msg.sender` with.
    pub fn collect_access_vars(&mut self, cond: &Expr)
        requires
            old(self).well_formed(),
            resolve::expr_resolves(*old(self).hir, *cond),
        ensures
            final(self).well_formed(),
            final(self).extends(*old(self), compared_vars(*cond)),
        decreases cond,
    {
        let ghost before = *self;
        proof {
            resolve::lemma_parts_resolve(*self.hir, *cond);
        }
        match &cond.kind {
            ExprKind::Binary(lhs, op, rhs) => {
                match op {
                    BinOpKind::Eq | BinOpKind::Ne => {
                        if contains_msg_sender(lhs) {
                            self.collect_non_sender_vars(rhs);
                        } else if contains_msg_sender(rhs) {
                            self.collect_non_sender_vars(lhs);
                        } else {
                            self.collect_access_vars(lhs);
                            self.collect_access_vars(rhs);
                        }
                    },
                    BinOpKind::And | BinOpKind::Or => {
                        self.collect_access_vars(lhs);
                        self.collect_access_vars(rhs);
                    },
                    _ => {},
                }
            },
            ExprKind::Call(callee, args, _) => {
                if let ExprKind::Index(base, Some(index)) = &callee.kind {
                    if contains_msg_sender(index) {
                        proof {
                            resolve::lemma_parts_resolve(*self.hir, **callee);
                        }
                        self.collect_non_sender_vars(base);
                    }
                }
                match args {
                    CallArgs::Unnamed(exprs) => {
                        assert(resolve::call_args(*args) == exprs@);
                        self.collect_from_exprs(exprs);
                    },
                    CallArgs::Named(named) => {
                        assert forall|i: int| 0 <= i < named@.len() implies resolve::expr_resolves(
                            *self.hir,
                            (#[trigger] named@[i]).value,
                        ) by {
                            assert(resolve::call_args(*args)[i] == named@[i].value);
                        }
                        self.collect_from_named(named);
                    },
                }
            },
            ExprKind::Unary(_, inner) | ExprKind::Payable(inner) | ExprKind::Member(inner, _) => {
                self.collect_access_vars(inner);
            },
            ExprKind::Tuple(exprs) => {
                self.collect_from_elements(exprs);
            },
            _ => {},
        }
    }

    /// Records what the expressions compare `msg.sender` with.
    fn collect_from_exprs(&mut self, exprs: &Vec<Expr>)
        requires
            old(self).well_formed(),
            forall|i: int|
                0 <= i < exprs@.len() ==> resolve::expr_resolves(
                    *old(self).hir,
                    #[trigger] exprs@[i],
                ),
        ensures
            final(self).well_formed(),
            final(self).extends(
                *old(self),
                Set::new(
                    |var: VariableId|
                        exists|i: int|
                            0 <= i < exprs@.len() && compares(#[trigger] exprs@[i], var),
                ),
            ),
        decreases exprs,
    {
        let ghost before = *self;
        for i in 0..exprs.len()
            invariant
                self.well_formed(),
                self.hir == before.hir,
                forall|i: int|
                    0 <= i < exprs@.len() ==> resolve::expr_resolves(
                        *before.hir,
                        #[trigger] exprs@[i],
                    ),
                forall|var: VariableId| #[trigger]
                    self.state_vars@.contains(var) <==> before.state_vars@.contains(var) || (
                    vars::kind_of(*self.hir, var) is State && exists|j: int|
                        0 <= j < i && compares(#[trigger] exprs@[j], var)),
                forall|var: VariableId| #[trigger]
                    self.params@.contains(var) <==> before.params@.contains(var) || (vars::kind_of(
                        *self.hir,
                        var,
                    ) is FunctionParam && exists|j: int|
                        0 <= j < i && compares(#[trigger] exprs@[j], var)),
        {
            self.collect_access_vars(&exprs[i]);
        }
    }

    /// Records what the argument values compare `msg.sender` with.
    fn collect_from_named(&mut self, named: &Vec<NamedArg>)
        requires
            old(self).well_formed(),
            forall|i: int|
                0 <= i < named@.len() ==> resolve::expr_resolves(
                    *old(self).hir,
                    (#[trigger] named@[i]).value,
                ),
        ensures
            final(self).well_formed(),
            final(self).extends(
                *old(self),
                Set::new(
                    |var: VariableId|
                        exists|i: int|
                            0 <= i < named@.len() && compares((#[trigger] named@[i]).value, var),
                ),
            ),
        decreases named,
    {
        let ghost before = *self;
        for i in 0..named.len()
            invariant
                self.well_formed(),
                self.hir == before.hir,
                forall|i: int|
                    0 <= i < named@.len() ==> resolve::expr_resolves(
                        *before.hir,
                        (#[trigger] named@[i]).value,
                    ),
                forall|var: VariableId| #[trigger]
                    self.state_vars@.contains(var) <==> before.state_vars@.contains(var) || (
                    vars::kind_of(*self.hir, var) is State && exists|j: int|
                        0 <= j < i && compares((#[trigger] named@[j]).value, var)),
                forall|var: VariableId| #[trigger]
                    self.params@.contains(var) <==> before.params@.contains(var) || (vars::kind_of(
                        *self.hir,
                        var,
                    ) is FunctionParam && exists|j: int|
                        0 <= j < i && compares((#[trigger] named@[j]).value, var)),
        {
            self.collect_access_vars(&named[i].value);
        }
    }

    /// Records what the elements that are present compare `msg.sender` with.
    fn collect_from_elements(&mut self, exprs: &Vec<Option<Expr>>)
        requires
            old(self).well_formed(),
            forall|i: int|
                0 <= i < exprs@.len() ==> (#[trigger] exprs@[i] matches Some(expr)
                    ==> resolve::expr_resolves(*old(self).hir, expr)),
        ensures
            final(self).well_formed(),
            final(self).extends(
                *old(self),
                Set::new(
                    |var: VariableId|
                        exists|i: int|
                            0 <= i < exprs@.len() && match #[trigger] exprs@[i] {
                                Some(inner) => compares(inner, var),
                                None => false,
                            },
                ),
            ),
        decreases exprs,
    {
        let ghost before = *self;
        for i in 0..exprs.len()
            invariant
                self.well_formed(),
                self.hir == before.hir,
                forall|i: int|
                    0 <= i < exprs@.len() ==> (#[trigger] exprs@[i] matches Some(expr)
                        ==> resolve::expr_resolves(*before.hir, expr)),
                forall|var: VariableId| #[trigger]
                    self.state_vars@.contains(var) <==> before.state_vars@.contains(var) || (
                    vars::kind_of(*self.hir, var) is State && exists|j: int|
                        0 <= j < i && match #[trigger] exprs@[j] {
                                Some(inner) => compares(inner, var),
                                None => false,
                            }),
                forall|var: VariableId| #[trigger]
                    self.params@.contains(var) <==> before.params@.contains(var) || (vars::kind_of(
                        *self.hir,
                        var,
                    ) is FunctionParam && exists|j: int|
                        0 <= j < i && match #[trigger] exprs@[j] {
                                Some(inner) => compares(inner, var),
                                None => false,
                            }),
        {
            if let Some(inner) = &exprs[i] {
                self.collect_access_vars(inner);
            }
        }
    }
}

/// What an expression that resolves mentions is in the table of variables.
pub proof fn lemma_mentioned_in_table(hir: Hir, expr: Expr)
    requires
        resolve::expr_resolves(hir, expr),
    ensures
        forall|var: VariableId| #[trigger]
            mentioned_vars(expr).contains(var) ==> var < hir.variables@.len(),
{
    resolve::lemma_expr_nodes_resolve(hir, Traversal::Values, expr);
    let nodes = walk::expr_walk(Traversal::Values, &expr);
    assert forall|var: VariableId| #[trigger] mentioned_vars(expr).contains(var) implies var
        < hir.variables@.len() by {
        let i = choose|i: int| 0 <= i < nodes.len() && node_names(#[trigger] nodes[i], var);
        assert(resolve::node_deeply_resolves(hir, nodes[i]));
        if let Node::Expr(part) = nodes[i] {
            resolve::lemma_parts_resolve(hir, *part);
        }
    }
}

/// The elements of a set, in no particular order.
pub fn elements(set: &HashSet<VariableId>) -> (list: Vec<VariableId>)
    ensures
        forall|var: VariableId| #[trigger] set@.contains(var) <==> list@.contains(var),
{
    let mut list: Vec<VariableId> = Vec::new();
    for var in it: set.iter()
        invariant
            it.seq().unref().to_set() == set@,
            list@ == it.seq().unref().take(it.index()),
            it.index() == it.seq().len() ==> list@ == it.seq().unref(),
    {
        list.push(*var);
    }
    assert(list@.to_set() == set@);
    list
}

/// One of `found` is a state variable of an address type.
pub fn any_address_state_var(hir: &Hir, found: &HashSet<VariableId>) -> (result: bool)
    requires
        forall|var: VariableId| #[trigger] found@.contains(var) ==> var < hir.variables@.len(),
    ensures
        result == exists|var: VariableId| #[trigger]
            found@.contains(var) && vars::address_state_var(*hir, var),
{
    let list = elements(found);
    for i in 0..list.len()
        invariant
            forall|var: VariableId| #[trigger] found@.contains(var) <==> list@.contains(var),
            forall|var: VariableId| #[trigger] found@.contains(var) ==> var < hir.variables@.len(),
            forall|j: int| 0 <= j < i ==> !vars::address_state_var(*hir, #[trigger] list@[j]),
    {
        assert(list@.contains(list@[i as int]));
        assert(found@.contains(list@[i as int]));
        if is_address_state_var(hir, list[i]) {
            return true;
        }
    }
    false
}

/// One of `found` is of an address type, and not state.
pub fn any_address_local(hir: &Hir, found: &HashSet<VariableId>) -> (result: bool)
    requires
        forall|var: VariableId| #[trigger] found@.contains(var) ==> var < hir.variables@.len(),
    ensures
        result == exists|var: VariableId| #[trigger]
            found@.contains(var) && vars::address_local(*hir, var),
{
    let list = elements(found);
    for i in 0..list.len()
        invariant
            forall|var: VariableId| #[trigger] found@.contains(var) <==> list@.contains(var),
            forall|var: VariableId| #[trigger] found@.contains(var) ==> var < hir.variables@.len(),
            forall|j: int| 0 <= j < i ==> !vars::address_local(*hir, #[trigger] list@[j]),
    {
        assert(list@.contains(list@[i as int]));
        assert(found@.contains(list@[i as int]));
        if is_address_local(hir, list[i]) {
            return true;
        }
    }
    false
}

} // verus!
