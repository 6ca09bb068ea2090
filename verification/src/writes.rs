//! The variables that an assignment target writes.

use vstd::prelude::*;

use crate::hir::{Expr, ExprKind, Hir, ItemId, Res, Span, VarKind, VariableId};
use crate::resolve;
use crate::vars::{self, is_address_local};
use crate::walk::{self, walk_expr, Node, Traversal};

verus! {

/// The first address local among what the name may refer to.
pub open spec fn first_local(hir: Hir, reses: Seq<Res>) -> Option<VariableId>
    decreases reses.len(),
{
    if reses.len() == 0 {
        None
    } else {
        match first_local(hir, reses.drop_last()) {
            Some(var) => Some(var),
            None => match reses.last() {
                Res::Item(ItemId::Variable(var)) => if vars::address_local(hir, var) {
                    Some(var)
                } else {
                    None
                },
                _ => None,
            },
        }
    }
}

/// The address local that an assignment to the target sets, if the target is its bare name.
pub open spec fn local_target(hir: Hir, lhs: Expr) -> Option<VariableId> {
    match lhs.kind {
        ExprKind::Ident(reses) => first_local(hir, reses@),
        _ => None,
    }
}

/// The state variables that the name may refer to, in order, each with the span of the name.
pub open spec fn named_state_vars(hir: Hir, reses: Seq<Res>, span: Span) -> Seq<(VariableId, Span)>
    decreases reses.len(),
{
    if reses.len() == 0 {
        seq![]
    } else {
        named_state_vars(hir, reses.drop_last(), span) + match reses.last() {
            Res::Item(ItemId::Variable(var)) => if vars::kind_of(hir, var) is State {
                seq![(var, span)]
            } else {
                seq![]
            },
            _ => seq![],
        }
    }
}

/// The state variables that the nodes name, in order, each with the span of its name.
pub open spec fn state_occurrences(hir: Hir, nodes: Seq<Node>) -> Seq<(VariableId, Span)>
    decreases nodes.len(),
{
    if nodes.len() == 0 {
        seq![]
    } else {
        state_occurrences(hir, nodes.drop_last()) + match nodes.last() {
            Node::Expr(expr) => match expr.kind {
                ExprKind::Ident(reses) => named_state_vars(hir, reses@, expr.span),
                _ => seq![],
            },
            Node::Stmt(_) => seq![],
        }
    }
}

/// `var` is on the list.
pub open spec fn lists(list: Seq<(VariableId, Span)>, var: VariableId) -> bool {
    exists|i: int| 0 <= i < list.len() && (#[trigger] list[i]).0 == var
}

/// The list with the first occurrence of each variable that is not on it yet.
pub open spec fn with_new(
    list: Seq<(VariableId, Span)>,
    occurrences: Seq<(VariableId, Span)>,
) -> Seq<(VariableId, Span)>
    decreases occurrences.len(),
{
    if occurrences.len() == 0 {
        list
    } else {
        let so_far = with_new(list, occurrences.drop_last());
        if lists(so_far, occurrences.last().0) {
            so_far
        } else {
            so_far.push(occurrences.last())
        }
    }
}

/// The state variables that stand in the places that the target names, in order.
pub open spec fn target_occurrences(hir: Hir, lhs: Expr) -> Seq<(VariableId, Span)> {
    state_occurrences(hir, walk::expr_walk(Traversal::Targets, &lhs))
}

/// The distinct state variables that an assignment to the target writes, each with the span
/// of the first place that names it.
pub open spec fn written_state_vars(hir: Hir, lhs: Expr) -> Seq<(VariableId, Span)> {
    with_new(seq![], target_occurrences(hir, lhs))
}

/// Assignments to address locals set the taint of the local; writes to state are another
/// matter.
pub fn lhs_local_var(hir: &Hir, lhs: &Expr) -> (local: Option<VariableId>)
    requires
        resolve::expr_resolves(*hir, *lhs),
    ensures
        local == local_target(*hir, *lhs),
{
    if let ExprKind::Ident(reses) = &lhs.kind {
        proof {
            resolve::lemma_parts_resolve(*hir, *lhs);
        }
        for i in 0..reses.len()
            invariant
                lhs.kind == ExprKind::Ident(*reses),
                resolve::reses_resolve(*hir, reses@),
                first_local(*hir, reses@.take(i as int)) is None,
        {
            assert(reses@.take(i + 1).drop_last() == reses@.take(i as int));
            if let Res::Item(ItemId::Variable(var)) = &reses[i] {
                if is_address_local(hir, *var) {
                    proof {
                        lemma_first_local(*hir, reses@, i + 1, *var);
                    }
                    return Some(*var);
                }
            }
        }
        assert(reses@.take(reses@.len() as int) == reses@);
    }
    None
}

proof fn lemma_first_local(hir: Hir, reses: Seq<Res>, count: int, var: VariableId)
    requires
        0 <= count <= reses.len(),
        first_local(hir, reses.take(count)) == Some(var),
    ensures
        first_local(hir, reses) == Some(var),
    decreases reses.len() - count,
{
    if count < reses.len() {
        assert(reses.take(count + 1).drop_last() == reses.take(count));
        lemma_first_local(hir, reses, count + 1, var);
    } else {
        assert(reses.take(count) == reses);
    }
}

/// `var` is on the list.
fn is_listed(list: &Vec<(VariableId, Span)>, var: VariableId) -> (found: bool)
    ensures
        found == lists(list@, var),
{
    for i in 0..list.len()
        invariant
            forall|j: int| 0 <= j < i ==> (#[trigger] list@[j]).0 != var,
    {
        if list[i].0 == var {
            return true;
        }
    }
    false
}

/// Adding occurrences in two portions is adding them all.
proof fn lemma_with_new_add(
    list: Seq<(VariableId, Span)>,
    a: Seq<(VariableId, Span)>,
    b: Seq<(VariableId, Span)>,
)
    ensures
        with_new(list, a + b) == with_new(with_new(list, a), b),
    decreases b.len(),
{
    if b.len() == 0 {
        assert(a + b == a);
    } else {
        lemma_with_new_add(list, a, b.drop_last());
        assert((a + b).drop_last() == a + b.drop_last());
    }
}

/// Adds the state variables that a name may refer to.
fn add_named(hir: &Hir, reses: &Vec<Res>, span: Span, list: &mut Vec<(VariableId, Span)>)
    requires
        resolve::reses_resolve(*hir, reses@),
    ensures
        final(list)@ == with_new(old(list)@, named_state_vars(*hir, reses@, span)),
{
    let ghost start = list@;
    for i in 0..reses.len()
        invariant
            resolve::reses_resolve(*hir, reses@),
            list@ == with_new(start, named_state_vars(*hir, reses@.take(i as int), span)),
    {
        let ghost before = named_state_vars(*hir, reses@.take(i as int), span);
        let ghost after = named_state_vars(*hir, reses@.take(i + 1), span);
        assert(reses@.take(i + 1).drop_last() == reses@.take(i as int));
        if let Res::Item(ItemId::Variable(var)) = &reses[i] {
            if hir.variable(*var).kind == VarKind::State {
                assert(after == before.push((*var, span)));
                assert(after.drop_last() == before);
                if !is_listed(list, *var) {
                    list.push((*var, span));
                }
            } else {
                assert(after == before);
            }
        } else {
            assert(after == before);
        }
    }
    assert(reses@.take(reses@.len() as int) == reses@);
}

/// Adds the state variables that the target writes to `list`, so that tuple, member and index
/// targets give the state variable underneath.
pub fn collect_state_write_lhs_vars(
    hir: &Hir,
    lhs: &Expr,
    list: &mut Vec<(VariableId, Span)>,
)
    requires
        resolve::expr_resolves(*hir, *lhs),
    ensures
        final(list)@ == with_new(old(list)@, target_occurrences(*hir, *lhs)),
{
    let mut nodes: Vec<Node> = Vec::new();
    walk_expr(Traversal::Targets, lhs, &mut nodes);
    let ghost start = list@;
    proof {
        assert(nodes@ == walk::expr_walk(Traversal::Targets, lhs));
        resolve::lemma_expr_nodes_resolve(*hir, Traversal::Targets, *lhs);
    }
    for i in 0..nodes.len()
        invariant
            resolve::nodes_deeply_resolve(*hir, nodes@),
            list@ == with_new(start, state_occurrences(*hir, nodes@.take(i as int))),
    {
        let ghost seen = state_occurrences(*hir, nodes@.take(i as int));
        assert(nodes@.take(i + 1).drop_last() == nodes@.take(i as int));
        assert(resolve::node_deeply_resolves(*hir, nodes@[i as int]));
        if let Node::Expr(part) = nodes[i] {
            if let ExprKind::Ident(reses) = &part.kind {
                proof {
                    resolve::lemma_parts_resolve(*hir, *part);
                    lemma_with_new_add(start, seen, named_state_vars(*hir, reses@, part.span));
                }
                add_named(hir, reses, part.span, list);
            } else {
                assert(seen == state_occurrences(*hir, nodes@.take(i + 1)));
            }
        } else {
            assert(seen == state_occurrences(*hir, nodes@.take(i + 1)));
        }
    }
    assert(nodes@.take(nodes@.len() as int) == nodes@);
}

/// Every distinct state variable that the target writes.
pub fn state_write_lhs_vars(hir: &Hir, lhs: &Expr) -> (list: Vec<(VariableId, Span)>)
    requires
        resolve::expr_resolves(*hir, *lhs),
    ensures
        list@ == written_state_vars(*hir, *lhs),
{
    let mut list: Vec<(VariableId, Span)> = Vec::new();
    collect_state_write_lhs_vars(hir, lhs, &mut list);
    list
}

} // verus!
