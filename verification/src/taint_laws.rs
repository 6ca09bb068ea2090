//! What holds of written variables and of taint.

use vstd::prelude::*;

use crate::analyzer::{self, Analysis, Scope};
use crate::hir::{
    CallArgs, Expr, ExprKind, Hir, ItemId, Res, Span, Stmt, TypeForm, VarKind, VariableId,
};
use crate::laws;
use crate::parts;
use crate::report;
use crate::walk::{self, Node, Traversal};
use crate::writes;

verus! {

/// A meaning of a name is tainted: a builtin and a variable of a `try` clause always; a variable
/// that was assigned, by its last assignment; a parameter that was not, if it is one of the entry
/// point's, whichever, or one of a modifier that was passed a tainted value.
pub open spec fn name_tainted(scope: Scope, st: Analysis, res: Res) -> bool {
    match res {
        Res::Builtin(_) => true,
        Res::Item(ItemId::Variable(var)) => {
            ||| scope.hir.variables@[var as int].kind == VarKind::TryCatch
            ||| st.taint.contains_key(var) && st.taint[var]
            ||| !st.taint.contains_key(var) && scope.hir.variables@[var as int].kind
                == VarKind::FunctionParam && {
                ||| exists|k: int|
                    0 <= k < scope.entry_params.len() && #[trigger] scope.entry_params[k] == var
                ||| st.modifier_param_taint.contains_key(var) && st.modifier_param_taint[var]
            }
        },
        _ => false,
    }
}

proof fn lemma_name_tainted(scope: Scope, st: Analysis, res: Res)
    ensures
        analyzer::res_tainted(scope, st, res) == name_tainted(scope, st, res),
{
}

/// A value is tainted exactly when it is a name with a tainted meaning, an allocation, or made of
/// an operand that is tainted: any operand, argument, option or element. Of an assignment only
/// the assigned value counts; literals and types are clean.
pub proof fn law_tainted_values(scope: Scope, st: Analysis, expr: Expr)
    ensures
        analyzer::tainted(scope, st, expr) <==> match expr.kind {
            ExprKind::Array(exprs) => exists|i: int|
                0 <= i < exprs@.len() && analyzer::tainted(scope, st, #[trigger] exprs@[i]),
            ExprKind::Assign(_, _, rhs) => analyzer::tainted(scope, st, *rhs),
            ExprKind::Binary(lhs, _, rhs) => analyzer::tainted(scope, st, *lhs)
                || analyzer::tainted(scope, st, *rhs),
            ExprKind::Call(callee, args, opts) => {
                ||| analyzer::tainted(scope, st, *callee)
                ||| args matches CallArgs::Unnamed(exprs) && exists|i: int|
                    0 <= i < exprs@.len() && analyzer::tainted(scope, st, #[trigger] exprs@[i])
                ||| args matches CallArgs::Named(named) && exists|i: int|
                    0 <= i < named@.len()
                        && analyzer::tainted(scope, st, (#[trigger] named@[i]).value)
                ||| opts matches Some(opts) && exists|i: int|
                    0 <= i < opts@.len()
                        && analyzer::tainted(scope, st, (#[trigger] opts@[i]).value)
            },
            ExprKind::Delete(inner) => analyzer::tainted(scope, st, *inner),
            ExprKind::Index(base, index) => analyzer::tainted(scope, st, *base)
                || (index is Some && analyzer::tainted(scope, st, *index->0)),
            ExprKind::Slice(base, start, end) => analyzer::tainted(scope, st, *base)
                || (start is Some && analyzer::tainted(scope, st, *start->0))
                || (end is Some && analyzer::tainted(scope, st, *end->0)),
            ExprKind::Member(inner, _) => analyzer::tainted(scope, st, *inner),
            ExprKind::Payable(inner) => analyzer::tainted(scope, st, *inner),
            ExprKind::Ternary(cond, then, other) => analyzer::tainted(scope, st, *cond)
                || analyzer::tainted(scope, st, *then)
                || analyzer::tainted(scope, st, *other),
            ExprKind::Tuple(exprs) => exists|i: int|
                0 <= i < exprs@.len()
                    && #[trigger] exprs@[i] is Some
                    && analyzer::tainted(scope, st, exprs@[i]->0),
            ExprKind::Unary(_, inner) => analyzer::tainted(scope, st, *inner),
            ExprKind::Ident(reses) => exists|i: int|
                0 <= i < reses@.len() && name_tainted(scope, st, #[trigger] reses@[i]),
            ExprKind::Lit => false,
            ExprKind::New(_) => true,
            ExprKind::TypeCall(_) => false,
            ExprKind::Type(_) => false,
            ExprKind::Invalid => false,
        },
{
    let f = |node: Node| analyzer::is_source(scope, st, node);
    assert forall|e: Expr| #[trigger] analyzer::tainted(scope, st, e) == parts::asks(
        Traversal::Flow,
        e,
        f,
    ) by {
        lemma_taint_asks(scope, st, e);
    }
    parts::law_flow(expr, f);
    if let ExprKind::Ident(reses) = expr.kind {
        assert forall|i: int| 0 <= i < reses@.len() implies name_tainted(
            scope,
            st,
            #[trigger] reses@[i],
        ) == analyzer::res_tainted(scope, st, reses@[i]) by {
            lemma_name_tainted(scope, st, reses@[i]);
        }
    }
}

proof fn lemma_taint_asks(scope: Scope, st: Analysis, e: Expr)
    ensures
        analyzer::tainted(scope, st, e) == parts::asks(
            Traversal::Flow,
            e,
            |node: Node| analyzer::is_source(scope, st, node),
        ),
{
    let nodes = walk::expr_walk(Traversal::Flow, &e);
    let f = |node: Node| analyzer::is_source(scope, st, node);
    if analyzer::tainted(scope, st, e) {
        let i = choose|i: int|
            0 <= i < nodes.len() && analyzer::is_source(scope, st, #[trigger] nodes[i]);
        assert(f(nodes[i]));
    }
}

/// Every parameter of the entry point, at whatever position, is tainted until it is assigned.
pub proof fn law_entry_parameters(scope: Scope, st: Analysis, i: int, name: Expr)
    requires
        0 <= i < scope.entry_params.len(),
        scope.hir.variables@[scope.entry_params[i] as int].kind == VarKind::FunctionParam,
        !st.taint.contains_key(scope.entry_params[i]),
        name.kind matches ExprKind::Ident(reses) && reses@.contains(
            Res::Item(ItemId::Variable(scope.entry_params[i])),
        ),
    ensures
        analyzer::tainted(scope, st, name),
{
    law_tainted_values(scope, st, name);
    if let ExprKind::Ident(reses) = name.kind {
        let res = Res::Item(ItemId::Variable(scope.entry_params[i]));
        let j = choose|j: int| 0 <= j < reses@.len() && reses@[j] == res;
        assert(name_tainted(scope, st, reses@[j]));
    }
}

/// A target names a state variable exactly when it is a name that may refer to it, in any of its
/// meanings, or it indexes, slices, selects from or applies an operator to one that does, or is a
/// tuple with an element that does. A call, an operand or an index writes nothing.
pub proof fn law_written_targets(hir: Hir, lhs: Expr, var: VariableId)
    ensures
        writes::lists(writes::written_state_vars(hir, lhs), var) <==> match lhs.kind {
            ExprKind::Ident(reses) => hir.variables@[var as int].kind == VarKind::State && exists|
                i: int,
            |
                0 <= i < reses@.len() && #[trigger] reses@[i] == Res::Item(ItemId::Variable(var)),
            ExprKind::Index(base, _) => writes::lists(writes::written_state_vars(hir, *base), var),
            ExprKind::Slice(base, _, _) => writes::lists(
                writes::written_state_vars(hir, *base),
                var,
            ),
            ExprKind::Member(base, _) => writes::lists(writes::written_state_vars(hir, *base), var),
            ExprKind::Payable(base) => writes::lists(writes::written_state_vars(hir, *base), var),
            ExprKind::Unary(_, base) => writes::lists(writes::written_state_vars(hir, *base), var),
            ExprKind::Delete(base) => writes::lists(writes::written_state_vars(hir, *base), var),
            ExprKind::Tuple(exprs) => exists|i: int|
                0 <= i < exprs@.len() && #[trigger] exprs@[i] is Some && writes::lists(
                    writes::written_state_vars(hir, exprs@[i]->0),
                    var,
                ),
            _ => false,
        },
{
    let f = |node: Node| names_state(hir, node, var);
    assert forall|e: Expr| #[trigger] writes::lists(writes::written_state_vars(hir, e), var)
        == parts::asks(Traversal::Targets, e, f) by {
        lemma_written_asks(hir, e, var);
    }
    parts::law_targets(lhs, f);
    if let ExprKind::Tuple(exprs) = lhs.kind {
        assert forall|i: int| 0 <= i < exprs@.len() && #[trigger] exprs@[i] is Some implies (
        parts::asks(Traversal::Targets, exprs@[i]->0, f) == writes::lists(
            writes::written_state_vars(hir, exprs@[i]->0),
            var,
        )) by {}
    }
}

/// The node is a name that may refer to the state variable.
spec fn names_state(hir: Hir, node: Node, var: VariableId) -> bool {
    &&& node matches Node::Expr(expr)
    &&& expr.kind matches ExprKind::Ident(reses)
    &&& hir.variables@[var as int].kind == VarKind::State
    &&& exists|i: int|
        0 <= i < reses@.len() && #[trigger] reses@[i] == Res::Item(ItemId::Variable(var))
}

proof fn lemma_named_lists(hir: Hir, reses: Seq<Res>, span: Span, var: VariableId)
    ensures
        writes::lists(writes::named_state_vars(hir, reses, span), var) <==> (
        hir.variables@[var as int].kind == VarKind::State && exists|i: int|
            0 <= i < reses.len() && #[trigger] reses[i] == Res::Item(ItemId::Variable(var))),
    decreases reses.len(),
{
    if reses.len() > 0 {
        let rest = reses.drop_last();
        let before = writes::named_state_vars(hir, rest, span);
        let all = writes::named_state_vars(hir, reses, span);
        lemma_named_lists(hir, rest, span, var);
        assert forall|i: int| 0 <= i < rest.len() implies rest[i] == #[trigger] reses[i] by {}
        assert(reses[reses.len() - 1] == reses.last());
        lemma_lists_add(before, all.skip(before.len() as int), var);
        assert(all == before + all.skip(before.len() as int));
        if let Res::Item(ItemId::Variable(last)) = reses.last() {
            if hir.variables@[last as int].kind is State {
                assert(all.skip(before.len() as int) == seq![(last, span)]);
                assert(seq![(last, span)][0].0 == last);
            }
        }
        if exists|i: int|
            0 <= i < rest.len() && #[trigger] rest[i] == Res::Item(ItemId::Variable(var)) {
            let i = choose|i: int|
                0 <= i < rest.len() && #[trigger] rest[i] == Res::Item(ItemId::Variable(var));
            assert(reses[i] == Res::Item(ItemId::Variable(var)));
        }
    }
}

proof fn lemma_lists_add(a: Seq<(VariableId, Span)>, b: Seq<(VariableId, Span)>, var: VariableId)
    ensures
        writes::lists(a + b, var) <==> writes::lists(a, var) || writes::lists(b, var),
{
    if writes::lists(a, var) {
        let i = choose|i: int| 0 <= i < a.len() && (#[trigger] a[i]).0 == var;
        assert((a + b)[i].0 == var);
    }
    if writes::lists(b, var) {
        let i = choose|i: int| 0 <= i < b.len() && (#[trigger] b[i]).0 == var;
        assert((a + b)[a.len() + i].0 == var);
    }
    if writes::lists(a + b, var) {
        let i = choose|i: int| 0 <= i < (a + b).len() && (#[trigger] (a + b)[i]).0 == var;
        if i < a.len() {
            assert(a[i].0 == var);
        } else {
            assert(b[i - a.len()].0 == var);
        }
    }
}

proof fn lemma_occurrences_list(hir: Hir, nodes: Seq<Node>, var: VariableId)
    ensures
        writes::lists(writes::state_occurrences(hir, nodes), var) <==> exists|i: int|
            0 <= i < nodes.len() && names_state(hir, #[trigger] nodes[i], var),
    decreases nodes.len(),
{
    if nodes.len() > 0 {
        let rest = nodes.drop_last();
        let before = writes::state_occurrences(hir, rest);
        let all = writes::state_occurrences(hir, nodes);
        lemma_occurrences_list(hir, rest, var);
        assert forall|i: int| 0 <= i < rest.len() implies rest[i] == #[trigger] nodes[i] by {}
        assert(nodes[nodes.len() - 1] == nodes.last());
        let last = all.skip(before.len() as int);
        assert(all == before + last);
        lemma_lists_add(before, last, var);
        if let Node::Expr(expr) = nodes.last() {
            if let ExprKind::Ident(reses) = expr.kind {
                lemma_named_lists(hir, reses@, expr.span, var);
                assert(last == writes::named_state_vars(hir, reses@, expr.span));
            }
        }
        if exists|i: int| 0 <= i < rest.len() && names_state(hir, #[trigger] rest[i], var) {
            let i = choose|i: int| 0 <= i < rest.len() && names_state(hir, #[trigger] rest[i], var);
            assert(names_state(hir, nodes[i], var));
        }
    }
}

proof fn lemma_written_asks(hir: Hir, e: Expr, var: VariableId)
    ensures
        writes::lists(writes::written_state_vars(hir, e), var) == parts::asks(
            Traversal::Targets,
            e,
            |node: Node| names_state(hir, node, var),
        ),
{
    let nodes = walk::expr_walk(Traversal::Targets, &e);
    let f = |node: Node| names_state(hir, node, var);
    laws::law_written_variables(hir, e);
    lemma_occurrences_list(hir, nodes, var);
    if exists|i: int| 0 <= i < nodes.len() && names_state(hir, #[trigger] nodes[i], var) {
        let i = choose|i: int| 0 <= i < nodes.len() && names_state(hir, #[trigger] nodes[i], var);
        assert(f(nodes[i]));
    }
}

/// A name that may refer to a state variable writes it at the place of the name.
pub proof fn law_written_names(hir: Hir, lhs: Expr, var: VariableId)
    requires
        lhs.kind matches ExprKind::Ident(reses) && reses@.contains(
            Res::Item(ItemId::Variable(var)),
        ),
        hir.variables@[var as int].kind == VarKind::State,
    ensures
        writes::written_state_vars(hir, lhs).contains((var, lhs.span)),
{
    law_written_targets(hir, lhs, var);
    let written = writes::written_state_vars(hir, lhs);
    let named = writes::target_occurrences(hir, lhs);
    if let ExprKind::Ident(reses) = lhs.kind {
        let k = choose|k: int|
            0 <= k < reses@.len() && reses@[k] == Res::Item(ItemId::Variable(var));
        assert(reses@[k] == Res::Item(ItemId::Variable(var)));
        let i = choose|i: int| 0 <= i < written.len() && (#[trigger] written[i]).0 == var;
        laws::law_written_variables(hir, lhs);
        assert(laws::first_on(named, written[i]));
        let nodes = walk::expr_walk(Traversal::Targets, &lhs);
        assert(nodes == seq![Node::Expr(&lhs)]);
        assert(nodes.drop_last() == Seq::<Node>::empty());
        assert(writes::state_occurrences(hir, Seq::<Node>::empty()) == Seq::<
            (VariableId, Span),
        >::empty());
        assert(named == writes::named_state_vars(hir, reses@, lhs.span));
        lemma_named_spans(hir, reses@, lhs.span);
        assert(written[i] == (var, lhs.span));
    }
}

proof fn lemma_named_spans(hir: Hir, reses: Seq<Res>, span: Span)
    ensures
        forall|i: int|
            0 <= i < writes::named_state_vars(hir, reses, span).len() ==> (
            #[trigger] writes::named_state_vars(hir, reses, span)[i]).1 == span,
    decreases reses.len(),
{
    if reses.len() > 0 {
        let before = writes::named_state_vars(hir, reses.drop_last(), span);
        let all = writes::named_state_vars(hir, reses, span);
        lemma_named_spans(hir, reses.drop_last(), span);
        assert forall|i: int| 0 <= i < all.len() implies (#[trigger] all[i]).1 == span by {
            if i < before.len() {
                assert(all[i] == before[i]);
            }
        }
    }
}

/// A target that indexes, slices, selects from or applies an operator to a place names what that
/// place does, at the same places in the same order.
pub proof fn law_target_places(hir: Hir, lhs: Expr, base: Expr)
    requires
        match lhs.kind {
            ExprKind::Index(inner, _) => *inner == base,
            ExprKind::Slice(inner, _, _) => *inner == base,
            ExprKind::Member(inner, _) => *inner == base,
            ExprKind::Payable(inner) => *inner == base,
            ExprKind::Unary(_, inner) => *inner == base,
            ExprKind::Delete(inner) => *inner == base,
            _ => false,
        },
    ensures
        writes::target_occurrences(hir, lhs) == writes::target_occurrences(hir, base),
        writes::written_state_vars(hir, lhs) == writes::written_state_vars(hir, base),
{
    let t = Traversal::Targets;
    let none = Seq::<Node>::empty();
    let below = walk::expr_walk(t, &base);
    assert(below + none == below);
    assert(walk::expr_walk(t, &lhs) == seq![Node::Expr(&lhs)] + below);
    laws::lemma_occurrences_add(hir, seq![Node::Expr(&lhs)], below);
    lemma_silent_node(hir, &lhs);
    assert(writes::target_occurrences(hir, lhs) == writes::target_occurrences(hir, base));
}

/// The elements of a tuple are written from left to right, missing ones not at all.
pub proof fn law_target_order(hir: Hir, fewer: Expr, tuple: Expr, element: Option<Expr>)
    requires
        fewer.kind is Tuple,
        tuple.kind is Tuple,
        tuple.kind->Tuple_0@ == fewer.kind->Tuple_0@.push(element),
    ensures
        writes::target_occurrences(hir, tuple) == writes::target_occurrences(hir, fewer)
            + match element {
            Some(expr) => writes::target_occurrences(hir, expr),
            None => seq![],
        },
{
    let t = Traversal::Targets;
    let elements = tuple.kind->Tuple_0@;
    assert(elements.drop_last() == fewer.kind->Tuple_0@);
    assert(elements.last() == element);
    let before = walk::opt_exprs_walk(t, fewer.kind->Tuple_0@);
    let all = walk::opt_exprs_walk(t, elements);
    laws::lemma_occurrences_add(hir, seq![Node::Expr(&fewer)], before);
    laws::lemma_occurrences_add(hir, seq![Node::Expr(&tuple)], all);
    lemma_silent_node(hir, &fewer);
    lemma_silent_node(hir, &tuple);
    match element {
        Some(expr) => laws::lemma_occurrences_add(hir, before, walk::expr_walk(t, &expr)),
        None => {
            assert(all == before);
        },
    }
}

proof fn lemma_silent_node(hir: Hir, expr: &Expr)
    requires
        !(expr.kind is Ident),
    ensures
        writes::state_occurrences(hir, seq![Node::Expr(expr)]) == Seq::<
            (VariableId, Span),
        >::empty(),
{
    let node = seq![Node::Expr(expr)];
    assert(node.drop_last() == Seq::<Node>::empty());
    assert(node.last() == Node::Expr(expr));
    assert(writes::state_occurrences(hir, Seq::<Node>::empty()) == Seq::<
        (VariableId, Span),
    >::empty());
}

/// An assignment sets a local exactly when its target is a bare name that may refer to a variable
/// of an address type that is not state; of several such, the first.
pub proof fn law_local_targets(hir: Hir, lhs: Expr)
    ensures
        !(lhs.kind is Ident) ==> writes::local_target(hir, lhs) is None,
        lhs.kind matches ExprKind::Ident(reses) ==> forall|i: int, var: VariableId|
            #![trigger reses@[i], sets(hir, reses@[i], var)]
            0 <= i < reses@.len() && sets(hir, reses@[i], var) && (forall|j: int, other: VariableId|
                0 <= j < i ==> !#[trigger] sets(hir, reses@[j], other)) ==> writes::local_target(
                hir,
                lhs,
            ) == Some(var),
        lhs.kind matches ExprKind::Ident(reses) ==> (forall|j: int, other: VariableId|
            0 <= j < reses@.len() ==> !#[trigger] sets(hir, reses@[j], other))
            ==> writes::local_target(hir, lhs) is None,
{
    if let ExprKind::Ident(reses) = lhs.kind {
        assert forall|i: int, var: VariableId|
            #![trigger reses@[i], sets(hir, reses@[i], var)]
            0 <= i < reses@.len() && sets(hir, reses@[i], var) && (forall|
                j: int,
                other: VariableId,
            |
                0 <= j < i ==> !#[trigger] sets(
                    hir,
                    reses@[j],
                    other,
                )) implies writes::local_target(hir, lhs) == Some(var) by {
            lemma_first_set(hir, reses@, i, var);
        }
        if forall|j: int, other: VariableId|
            0 <= j < reses@.len() ==> !#[trigger] sets(hir, reses@[j], other) {
            lemma_none_set(hir, reses@);
        }
    }
}

/// The meaning is the variable, which is of an address type and not state.
pub open spec fn sets(hir: Hir, res: Res, var: VariableId) -> bool {
    &&& res == Res::Item(ItemId::Variable(var))
    &&& hir.variables@[var as int].ty == TypeForm::Address
    &&& hir.variables@[var as int].kind != VarKind::State
}

proof fn lemma_none_set(hir: Hir, reses: Seq<Res>)
    requires
        forall|j: int, other: VariableId|
            0 <= j < reses.len() ==> !#[trigger] sets(hir, reses[j], other),
    ensures
        writes::first_local(hir, reses) is None,
    decreases reses.len(),
{
    if reses.len() > 0 {
        let rest = reses.drop_last();
        assert forall|j: int, other: VariableId| 0 <= j < rest.len() implies !#[trigger] sets(
            hir,
            rest[j],
            other,
        ) by {
            assert(!sets(hir, reses[j], other));
        }
        lemma_none_set(hir, rest);
        if let Res::Item(ItemId::Variable(var)) = reses.last() {
            assert(!sets(hir, reses[reses.len() - 1], var));
        }
    }
}

proof fn lemma_first_set(hir: Hir, reses: Seq<Res>, i: int, var: VariableId)
    requires
        0 <= i < reses.len(),
        sets(hir, reses[i], var),
        forall|j: int, other: VariableId| 0 <= j < i ==> !#[trigger] sets(hir, reses[j], other),
    ensures
        writes::first_local(hir, reses) == Some(var),
    decreases reses.len(),
{
    let rest = reses.drop_last();
    assert forall|j: int, other: VariableId| 0 <= j < i implies !#[trigger] sets(
        hir,
        rest[j],
        other,
    ) by {
        assert(!sets(hir, reses[j], other));
    }
    if i < rest.len() {
        lemma_first_set(hir, rest, i, var);
    } else {
        lemma_none_set(hir, rest);
    }
}

/// A node is of no consequence unless it declares an address local with a value, assigns or
/// deletes.
pub proof fn law_idle_nodes(scope: Scope, st: Analysis, node: Node)
    ensures
        match node {
            Node::Stmt(stmt) => !(stmt matches Stmt::DeclSingle(decl) && decl.initializer is Some
                && scope.hir.variables@[decl.var as int].ty == TypeForm::Address
                && scope.hir.variables@[decl.var as int].kind != VarKind::State)
                ==> analyzer::step(scope, st, node) == st,
            Node::Expr(expr) => !(expr.kind is Assign) && !(expr.kind is Delete)
                ==> analyzer::step(scope, st, node) == st,
        },
{
}

/// A declaration with a value gives an address local the taint of the value, and changes nothing
/// else.
pub proof fn law_declared_locals(scope: Scope, st: Analysis, stmt: &Stmt)
    requires
        stmt matches Stmt::DeclSingle(decl) && decl.initializer is Some
            && scope.hir.variables@[decl.var as int].ty == TypeForm::Address
            && scope.hir.variables@[decl.var as int].kind != VarKind::State,
    ensures
        analyzer::step(scope, st, Node::Stmt(stmt)) == (Analysis {
            taint: st.taint.insert(
                stmt->DeclSingle_0.var,
                analyzer::tainted(scope, st, *stmt->DeclSingle_0.initializer->0),
            ),
            ..st
        }),
{
}

/// An assignment gives the local that it sets the taint of the value, and leaves the taint of
/// every other variable as it was; a deletion leaves all as it was.
pub proof fn law_assigned_locals(scope: Scope, st: Analysis, expr: &Expr, var: VariableId)
    ensures
        match expr.kind {
            ExprKind::Assign(lhs, _, rhs) => analyzer::entry_of(
                analyzer::step(scope, st, Node::Expr(expr)).taint,
                var,
            ) == if writes::local_target(scope.hir, *lhs) == Some(var) {
                Some(analyzer::tainted(scope, st, *rhs))
            } else if st.taint.contains_key(var) {
                Some(st.taint[var])
            } else {
                None
            },
            _ => analyzer::step(scope, st, Node::Expr(expr)).taint == st.taint,
        },
{
    match expr.kind {
        ExprKind::Assign(lhs, _, rhs) => {
            report::lemma_reported(scope, st, writes::written_state_vars(scope.hir, *lhs));
            laws::lemma_same_taint(
                scope,
                st,
                analyzer::recorded(scope, st, *lhs, Some(*rhs)),
                *rhs,
            );
        },
        ExprKind::Delete(inner) => {
            report::lemma_reported(scope, st, writes::written_state_vars(scope.hir, *inner));
        },
        _ => {},
    }
}

/// The places of those of the writes that are of authorities not reported yet, in order.
pub open spec fn due(
    authorities: Set<VariableId>,
    emitted: Set<VariableId>,
    list: Seq<(VariableId, Span)>,
) -> Seq<Span> {
    list.filter(
        |write: (VariableId, Span)| authorities.contains(write.0) && !emitted.contains(write.0),
    ).map_values(|write: (VariableId, Span)| write.1)
}

proof fn lemma_due_reported(
    authorities: Set<VariableId>,
    st: Analysis,
    list: Seq<(VariableId, Span)>,
)
    requires
        forall|i: int, j: int|
            0 <= i < j < list.len() ==> (#[trigger] list[i]).0 != (#[trigger] list[j]).0,
    ensures
        analyzer::reported(authorities, st, list).findings == st.findings + due(
            authorities,
            st.emitted_vars,
            list,
        ),
        forall|var: VariableId| #[trigger]
            analyzer::reported(authorities, st, list).emitted_vars.contains(var)
                <==> st.emitted_vars.contains(var) || (authorities.contains(var) && writes::lists(
                list,
                var,
            )),
    decreases list.len(),
{
    reveal(Seq::filter);
    let f = |write: (VariableId, Span)|
        authorities.contains(write.0) && !st.emitted_vars.contains(write.0);
    let g = |write: (VariableId, Span)| write.1;
    let after = analyzer::reported(authorities, st, list);
    if list.len() == 0 {
        assert(list.filter(f).map_values(g) == Seq::<Span>::empty());
        assert(st.findings + due(authorities, st.emitted_vars, list) == st.findings);
    } else {
        let rest = list.drop_last();
        let last = list.last();
        let so_far = analyzer::reported(authorities, st, rest);
        lemma_due_reported(authorities, st, rest);
        assert forall|i: int| 0 <= i < rest.len() implies (#[trigger] list[i]).0 != last.0 by {
            assert(list[list.len() - 1].0 != list[i].0);
        }
        assert forall|var: VariableId|
            #![trigger writes::lists(list, var)]
            writes::lists(list, var) <==> writes::lists(rest, var) || var == last.0 by {
            if writes::lists(rest, var) {
                let i = choose|i: int| 0 <= i < rest.len() && (#[trigger] rest[i]).0 == var;
                assert(list[i].0 == var);
            }
            if var == last.0 {
                assert(list[list.len() - 1].0 == var);
            }
            if writes::lists(list, var) && var != last.0 {
                let i = choose|i: int| 0 <= i < list.len() && (#[trigger] list[i]).0 == var;
                assert(rest[i].0 == var);
            }
        }
        assert(!writes::lists(rest, last.0));
        if f(last) {
            assert(list.filter(f) == rest.filter(f).push(last));
            assert(list.filter(f).map_values(g) == rest.filter(f).map_values(g).push(last.1));
            assert(after.findings == so_far.findings.push(last.1));
        } else {
            assert(list.filter(f) == rest.filter(f));
            assert(after.findings == so_far.findings);
        }
        assert(after.findings == st.findings + due(authorities, st.emitted_vars, list));
        assert forall|var: VariableId| #[trigger]
            after.emitted_vars.contains(var) <==> st.emitted_vars.contains(var) || (
            authorities.contains(var) && writes::lists(list, var)) by {
            assert(writes::lists(list, var) <==> writes::lists(rest, var) || var == last.0);
            assert(so_far.emitted_vars.contains(var) <==> st.emitted_vars.contains(var) || (
            authorities.contains(var) && writes::lists(rest, var)));
        }
    }
}

/// A tainted assignment or a deletion reports at once all the authorities that it writes and that
/// were not reported before, in the order of the target, and counts them as reported; an
/// untainted assignment reports nothing, whatever it writes.
pub proof fn law_reporting_nodes(scope: Scope, st: Analysis, expr: &Expr)
    ensures
        ({
            let after = analyzer::step(scope, st, Node::Expr(expr));
            match expr.kind {
                ExprKind::Assign(lhs, _, rhs) => {
                    let list = writes::written_state_vars(scope.hir, *lhs);
                    if analyzer::tainted(scope, st, *rhs) {
                        &&& after.findings == st.findings + due(
                            scope.authorities,
                            st.emitted_vars,
                            list,
                        )
                        &&& forall|var: VariableId| #[trigger]
                            after.emitted_vars.contains(var) <==> st.emitted_vars.contains(var) || (
                            scope.authorities.contains(var) && writes::lists(list, var))
                    } else {
                        after.findings == st.findings && after.emitted_vars == st.emitted_vars
                    }
                },
                ExprKind::Delete(inner) => {
                    let list = writes::written_state_vars(scope.hir, *inner);
                    &&& after.findings == st.findings + due(
                        scope.authorities,
                        st.emitted_vars,
                        list,
                    )
                    &&& forall|var: VariableId| #[trigger]
                        after.emitted_vars.contains(var) <==> st.emitted_vars.contains(var) || (
                        scope.authorities.contains(var) && writes::lists(list, var))
                },
                _ => after == st,
            }
        }),
{
    match expr.kind {
        ExprKind::Assign(lhs, _, _) => {
            laws::law_written_variables(scope.hir, *lhs);
            lemma_due_reported(
                scope.authorities,
                st,
                writes::written_state_vars(scope.hir, *lhs),
            );
        },
        ExprKind::Delete(inner) => {
            laws::law_written_variables(scope.hir, *inner);
            lemma_due_reported(
                scope.authorities,
                st,
                writes::written_state_vars(scope.hir, *inner),
            );
        },
        _ => {},
    }
}

/// Every node of a run takes effect, on what those before it left, before those after it.
pub proof fn law_every_node_counts(
    scope: Scope,
    st: Analysis,
    before: Seq<Node>,
    node: Node,
    after: Seq<Node>,
)
    ensures
        analyzer::run(scope, st, before + seq![node] + after) == analyzer::run(
            scope,
            analyzer::step(scope, analyzer::run(scope, st, before), node),
            after,
        ),
        analyzer::run(scope, st, Seq::<Node>::empty()) == st,
{
    analyzer::lemma_run_add(scope, st, before + seq![node], after);
    analyzer::lemma_run_add(scope, st, before, seq![node]);
    let one = seq![node];
    assert(one.drop_last() == Seq::<Node>::empty());
    assert(one.last() == node);
    assert(analyzer::run(scope, analyzer::run(scope, st, before), Seq::<Node>::empty())
        == analyzer::run(scope, st, before));
}

} // verus!
