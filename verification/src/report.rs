//! What every analysis keeps: one report for each authority reported, nothing taken back.

use vstd::prelude::*;

use crate::analyzer::{self, Analysis, Scope};
use crate::hir::{Block, ExprKind, Function, ItemId, Modifier, Span, VariableId};
use crate::walk::{self, Node, Traversal};
use crate::writes;

verus! {

/// Only authorities were reported, each of them once.
pub open spec fn sound(scope: Scope, st: Analysis) -> bool {
    &&& st.emitted_vars.finite()
    &&& st.emitted_vars.subset_of(scope.authorities)
    &&& st.findings.len() == st.emitted_vars.len()
}

/// `after` reports all that `before` does, in the same order, and perhaps more.
pub open spec fn extends(before: Analysis, after: Analysis) -> bool {
    &&& before.findings.is_prefix_of(after.findings)
    &&& before.emitted_vars.subset_of(after.emitted_vars)
}

proof fn lemma_extends_transitive(a: Analysis, b: Analysis, c: Analysis)
    requires
        extends(a, b),
        extends(b, c),
    ensures
        extends(a, c),
{
    assert(a.findings == c.findings.subrange(0, a.findings.len() as int)) by {
        assert(a.findings == b.findings.subrange(0, a.findings.len() as int));
        assert(b.findings == c.findings.subrange(0, b.findings.len() as int));
    }
}

/// Reporting writes keeps the reports sound, takes nothing back, and reports every authority
/// among the writes.
pub proof fn lemma_reported(
    scope: Scope,
    st: Analysis,
    list: Seq<(VariableId, Span)>,
)
    ensures
        sound(scope, st) ==> sound(scope, analyzer::reported(scope.authorities, st, list)),
        extends(st, analyzer::reported(scope.authorities, st, list)),
        analyzer::reported(scope.authorities, st, list).taint == st.taint,
        analyzer::reported(scope.authorities, st, list).modifier_param_taint
            == st.modifier_param_taint,
        forall|var: VariableId| #[trigger]
            writes::lists(list, var) && scope.authorities.contains(var) ==> analyzer::reported(
                scope.authorities,
                st,
                list,
            ).emitted_vars.contains(var),
    decreases list.len(),
{
    let after = analyzer::reported(scope.authorities, st, list);
    if list.len() == 0 {
        assert(st.findings == st.findings.subrange(0, st.findings.len() as int));
    } else {
        let so_far = analyzer::reported(scope.authorities, st, list.drop_last());
        lemma_reported(scope, st, list.drop_last());
        assert(so_far.findings == after.findings.subrange(0, so_far.findings.len() as int));
        lemma_extends_transitive(st, so_far, after);
        assert forall|var: VariableId| #[trigger]
            writes::lists(list, var) && scope.authorities.contains(
                var,
            ) implies after.emitted_vars.contains(var) by {
            let i = choose|i: int| 0 <= i < list.len() && (#[trigger] list[i]).0 == var;
            if i < list.len() - 1 {
                assert(list.drop_last()[i] == list[i]);
                assert(writes::lists(list.drop_last(), var));
            }
        }
    }
}

/// One node keeps the reports sound and takes nothing back.
pub proof fn lemma_step(scope: Scope, st: Analysis, node: Node)
    ensures
        sound(scope, st) ==> sound(scope, analyzer::step(scope, st, node)),
        extends(st, analyzer::step(scope, st, node)),
        analyzer::step(scope, st, node).modifier_param_taint == st.modifier_param_taint,
{
    assert(st.findings == st.findings.subrange(0, st.findings.len() as int));
    if let Node::Expr(expr) = node {
        match expr.kind {
            ExprKind::Assign(lhs, _, _) => {
                lemma_reported(scope, st, writes::written_state_vars(scope.hir, *lhs));
            },
            ExprKind::Delete(inner) => {
                lemma_reported(scope, st, writes::written_state_vars(scope.hir, *inner));
            },
            _ => {},
        }
    }
}

/// A run keeps the reports sound, takes nothing back, and leaves the bindings of modifier
/// parameters alone.
pub proof fn lemma_run(scope: Scope, st: Analysis, nodes: Seq<Node>)
    ensures
        sound(scope, st) ==> sound(scope, analyzer::run(scope, st, nodes)),
        extends(st, analyzer::run(scope, st, nodes)),
        analyzer::run(scope, st, nodes).modifier_param_taint == st.modifier_param_taint,
    decreases nodes.len(),
{
    if nodes.len() == 0 {
        assert(st.findings == st.findings.subrange(0, st.findings.len() as int));
    } else {
        let so_far = analyzer::run(scope, st, nodes.drop_last());
        lemma_run(scope, st, nodes.drop_last());
        lemma_step(scope, so_far, nodes.last());
        lemma_extends_transitive(st, so_far, analyzer::run(scope, st, nodes));
    }
}

proof fn lemma_bound(
    scope: Scope,
    st: Analysis,
    modifier: Function,
    invocation: Modifier,
    count: nat,
)
    ensures
        analyzer::bound(scope, st, modifier, invocation, count).findings == st.findings,
        analyzer::bound(scope, st, modifier, invocation, count).emitted_vars == st.emitted_vars,
        analyzer::bound(scope, st, modifier, invocation, count).taint == st.taint,
    decreases count,
{
    if count > 0 {
        lemma_bound(scope, st, modifier, invocation, (count - 1) as nat);
    }
}

/// A modifier invocation keeps the reports sound and takes nothing back.
pub proof fn lemma_run_invocation(scope: Scope, st: Analysis, invocation: Modifier)
    ensures
        sound(scope, st) ==> sound(scope, analyzer::run_invocation(scope, st, invocation)),
        extends(st, analyzer::run_invocation(scope, st, invocation)),
{
    assert(st.findings == st.findings.subrange(0, st.findings.len() as int));
    if let ItemId::Function(function) = invocation.id {
        let modifier = scope.hir.functions@[function as int];
        if let Some(body) = modifier.body {
            let count = modifier.parameters@.len();
            let inside = analyzer::bound(scope, st, modifier, invocation, count);
            lemma_bound(scope, st, modifier, invocation, count);
            lemma_run(
                scope,
                inside,
                walk::stmts_walk(Traversal::Everything, body.stmts@),
            );
        }
    }
}

/// Modifier invocations keep the reports sound and take nothing back.
pub proof fn lemma_run_invocations(scope: Scope, st: Analysis, invocations: Seq<Modifier>)
    ensures
        sound(scope, st) ==> sound(scope, analyzer::run_invocations(scope, st, invocations)),
        extends(st, analyzer::run_invocations(scope, st, invocations)),
    decreases invocations.len(),
{
    if invocations.len() == 0 {
        assert(st.findings == st.findings.subrange(0, st.findings.len() as int));
    } else {
        let so_far = analyzer::run_invocations(scope, st, invocations.drop_last());
        lemma_run_invocations(scope, st, invocations.drop_last());
        lemma_run_invocation(scope, so_far, invocations.last());
        lemma_extends_transitive(
            st,
            so_far,
            analyzer::run_invocations(scope, st, invocations),
        );
    }
}

/// The node writes the state variable `var` at `span`: it assigns a value that is tainted when
/// the analysis meets the node, or deletes.
pub open spec fn node_writes(
    scope: Scope,
    st: Analysis,
    node: Node,
    var: VariableId,
    span: Span,
) -> bool {
    match node {
        Node::Expr(expr) => match expr.kind {
            ExprKind::Assign(lhs, _, rhs) => analyzer::tainted(scope, st, *rhs)
                && writes::written_state_vars(scope.hir, *lhs).contains((var, span)),
            ExprKind::Delete(inner) => writes::written_state_vars(scope.hir, *inner).contains(
                (var, span),
            ),
            _ => false,
        },
        Node::Stmt(_) => false,
    }
}

/// A run over the nodes meets a tainted write of `var` at `span`.
pub open spec fn run_writes(
    scope: Scope,
    st: Analysis,
    nodes: Seq<Node>,
    var: VariableId,
    span: Span,
) -> bool {
    exists|i: int|
        0 <= i < nodes.len() && node_writes(
            scope,
            analyzer::run(scope, st, nodes.take(i)),
            #[trigger] nodes[i],
            var,
            span,
        )
}

/// The body of the modifier, as invoked, holds a tainted write of `var` at `span`.
pub open spec fn invocation_writes(
    scope: Scope,
    st: Analysis,
    invocation: Modifier,
    var: VariableId,
    span: Span,
) -> bool {
    match invocation.id {
        ItemId::Function(function) => {
            let modifier = scope.hir.functions@[function as int];
            modifier.body matches Some(body) && run_writes(
                scope,
                analyzer::bound(scope, st, modifier, invocation, modifier.parameters@.len()),
                walk::stmts_walk(Traversal::Everything, body.stmts@),
                var,
                span,
            )
        },
        _ => false,
    }
}

/// One of the invocations, met in order, holds a tainted write of `var` at `span`.
pub open spec fn invocations_write(
    scope: Scope,
    st: Analysis,
    invocations: Seq<Modifier>,
    var: VariableId,
    span: Span,
) -> bool {
    exists|i: int|
        0 <= i < invocations.len() && invocation_writes(
            scope,
            analyzer::run_invocations(scope, st, invocations.take(i)),
            #[trigger] invocations[i],
            var,
            span,
        )
}

/// The body, or one of the modifiers invoked after it, holds a tainted write of `var` at `span`.
pub open spec fn all_writes(
    scope: Scope,
    body: Block,
    invocations: Seq<Modifier>,
    var: VariableId,
    span: Span,
) -> bool {
    run_writes(
        scope,
        Analysis::empty(),
        walk::stmts_walk(Traversal::Everything, body.stmts@),
        var,
        span,
    ) || invocations_write(
        scope,
        analyzer::run_block(scope, Analysis::empty(), body),
        invocations,
        var,
        span,
    )
}

/// An authority is written at `span`, by one of the writes.
spec fn writes_authority(
    authorities: Set<VariableId>,
    all: Set<(VariableId, Span)>,
    span: Span,
) -> bool {
    exists|var: VariableId| #[trigger] authorities.contains(var) && all.contains((var, span))
}

/// One of the places is a write of `var`.
spec fn places_write(all: Set<(VariableId, Span)>, places: Seq<Span>, var: VariableId) -> bool {
    exists|i: int| 0 <= i < places.len() && all.contains((var, #[trigger] places[i]))
}

/// Every report is one of the writes, of an authority, and every authority that counts as
/// reported has such a report.
spec fn justified(
    authorities: Set<VariableId>,
    st: Analysis,
    all: Set<(VariableId, Span)>,
) -> bool {
    &&& forall|i: int|
        0 <= i < st.findings.len() ==> writes_authority(
            authorities,
            all,
            #[trigger] st.findings[i],
        )
    &&& forall|var: VariableId| #[trigger]
        st.emitted_vars.contains(var) ==> places_write(all, st.findings, var)
}

proof fn lemma_reported_justified(
    authorities: Set<VariableId>,
    st: Analysis,
    list: Seq<(VariableId, Span)>,
    all: Set<(VariableId, Span)>,
)
    requires
        justified(authorities, st, all),
        forall|i: int| 0 <= i < list.len() ==> all.contains(#[trigger] list[i]),
    ensures
        justified(authorities, analyzer::reported(authorities, st, list), all),
    decreases list.len(),
{
    if list.len() > 0 {
        let so_far = analyzer::reported(authorities, st, list.drop_last());
        let after = analyzer::reported(authorities, st, list);
        let (last_var, last_span) = list.last();
        lemma_reported_justified(authorities, st, list.drop_last(), all);
        assert(all.contains(list[list.len() - 1]));
        if authorities.contains(last_var) && !so_far.emitted_vars.contains(last_var) {
            assert(after.findings == so_far.findings.push(last_span));
            assert forall|i: int| 0 <= i < after.findings.len() implies writes_authority(
                authorities,
                all,
                #[trigger] after.findings[i],
            ) by {
                if i < so_far.findings.len() {
                    assert(after.findings[i] == so_far.findings[i]);
                }
            }
            assert forall|var: VariableId| #[trigger]
                after.emitted_vars.contains(var) implies places_write(
                all,
                after.findings,
                var,
            ) by {
                if so_far.emitted_vars.contains(var) {
                    let i = choose|i: int|
                        0 <= i < so_far.findings.len() && all.contains(
                            (var, #[trigger] so_far.findings[i]),
                        );
                    assert(after.findings[i] == so_far.findings[i]);
                } else {
                    assert(after.findings[so_far.findings.len() as int] == last_span);
                }
            }
        }
    }
}

proof fn lemma_step_justified(
    scope: Scope,
    st: Analysis,
    node: Node,
    all: Set<(VariableId, Span)>,
)
    requires
        justified(scope.authorities, st, all),
        forall|var: VariableId, span: Span| #[trigger]
            node_writes(scope, st, node, var, span) ==> all.contains((var, span)),
    ensures
        justified(scope.authorities, analyzer::step(scope, st, node), all),
{
    if let Node::Expr(expr) = node {
        let target = match expr.kind {
            ExprKind::Assign(lhs, _, rhs) => if analyzer::tainted(scope, st, *rhs) {
                Some(*lhs)
            } else {
                None
            },
            ExprKind::Delete(inner) => Some(*inner),
            _ => None,
        };
        if let Some(lhs) = target {
            let list = writes::written_state_vars(scope.hir, lhs);
            assert forall|i: int| 0 <= i < list.len() implies all.contains(#[trigger] list[i]) by {
                assert(list.contains((list[i].0, list[i].1)));
                assert(node_writes(scope, st, node, list[i].0, list[i].1));
            }
            lemma_reported_justified(scope.authorities, st, list, all);
        }
    }
}

proof fn lemma_run_justified(
    scope: Scope,
    st: Analysis,
    nodes: Seq<Node>,
    all: Set<(VariableId, Span)>,
)
    requires
        justified(scope.authorities, st, all),
        forall|var: VariableId, span: Span| #[trigger]
            run_writes(scope, st, nodes, var, span) ==> all.contains((var, span)),
    ensures
        justified(scope.authorities, analyzer::run(scope, st, nodes), all),
    decreases nodes.len(),
{
    if nodes.len() > 0 {
        let rest = nodes.drop_last();
        assert forall|var: VariableId, span: Span| #[trigger]
            run_writes(scope, st, rest, var, span) implies all.contains((var, span)) by {
            let i = choose|i: int|
                0 <= i < rest.len() && node_writes(
                    scope,
                    analyzer::run(scope, st, rest.take(i)),
                    #[trigger] rest[i],
                    var,
                    span,
                );
            assert(rest.take(i) == nodes.take(i));
            assert(rest[i] == nodes[i]);
            assert(run_writes(scope, st, nodes, var, span));
        }
        lemma_run_justified(scope, st, rest, all);
        let so_far = analyzer::run(scope, st, rest);
        assert forall|var: VariableId, span: Span| #[trigger]
            node_writes(scope, so_far, nodes.last(), var, span) implies all.contains(
            (var, span),
        ) by {
            let i = nodes.len() - 1;
            assert(nodes.take(i) == rest);
            assert(nodes[i] == nodes.last());
            assert(run_writes(scope, st, nodes, var, span));
        }
        lemma_step_justified(scope, so_far, nodes.last(), all);
    }
}

proof fn lemma_invocation_justified(
    scope: Scope,
    st: Analysis,
    invocation: Modifier,
    all: Set<(VariableId, Span)>,
)
    requires
        justified(scope.authorities, st, all),
        forall|var: VariableId, span: Span| #[trigger]
            invocation_writes(scope, st, invocation, var, span) ==> all.contains((var, span)),
    ensures
        justified(scope.authorities, analyzer::run_invocation(scope, st, invocation), all),
{
    if let ItemId::Function(function) = invocation.id {
        let modifier = scope.hir.functions@[function as int];
        if let Some(body) = modifier.body {
            let count = modifier.parameters@.len();
            let inside = analyzer::bound(scope, st, modifier, invocation, count);
            let nodes = walk::stmts_walk(Traversal::Everything, body.stmts@);
            lemma_bound(scope, st, modifier, invocation, count);
            assert forall|var: VariableId, span: Span| #[trigger]
                run_writes(scope, inside, nodes, var, span) implies all.contains((var, span)) by {
                assert(invocation_writes(scope, st, invocation, var, span));
            }
            lemma_run_justified(scope, inside, nodes, all);
        }
    }
}

proof fn lemma_invocations_justified(
    scope: Scope,
    st: Analysis,
    invocations: Seq<Modifier>,
    all: Set<(VariableId, Span)>,
)
    requires
        justified(scope.authorities, st, all),
        forall|var: VariableId, span: Span| #[trigger]
            invocations_write(scope, st, invocations, var, span) ==> all.contains((var, span)),
    ensures
        justified(scope.authorities, analyzer::run_invocations(scope, st, invocations), all),
    decreases invocations.len(),
{
    if invocations.len() > 0 {
        let rest = invocations.drop_last();
        assert forall|var: VariableId, span: Span| #[trigger]
            invocations_write(scope, st, rest, var, span) implies all.contains((var, span)) by {
            let i = choose|i: int|
                0 <= i < rest.len() && invocation_writes(
                    scope,
                    analyzer::run_invocations(scope, st, rest.take(i)),
                    #[trigger] rest[i],
                    var,
                    span,
                );
            assert(rest.take(i) == invocations.take(i));
            assert(rest[i] == invocations[i]);
            assert(invocations_write(scope, st, invocations, var, span));
        }
        lemma_invocations_justified(scope, st, rest, all);
        let so_far = analyzer::run_invocations(scope, st, rest);
        assert forall|var: VariableId, span: Span| #[trigger]
            invocation_writes(scope, so_far, invocations.last(), var, span) implies all.contains(
            (var, span),
        ) by {
            let i = invocations.len() - 1;
            assert(invocations.take(i) == rest);
            assert(invocations[i] == invocations.last());
            assert(invocations_write(scope, st, invocations, var, span));
        }
        lemma_invocation_justified(scope, so_far, invocations.last(), all);
    }
}

/// A tainted write of an authority among the nodes is reported by the end of the run.
proof fn lemma_run_reports(
    scope: Scope,
    st: Analysis,
    nodes: Seq<Node>,
    var: VariableId,
    span: Span,
)
    requires
        scope.authorities.contains(var),
        run_writes(scope, st, nodes, var, span),
    ensures
        analyzer::run(scope, st, nodes).emitted_vars.contains(var),
{
    let i = choose|i: int|
        0 <= i < nodes.len() && node_writes(
            scope,
            analyzer::run(scope, st, nodes.take(i)),
            #[trigger] nodes[i],
            var,
            span,
        );
    let before = analyzer::run(scope, st, nodes.take(i));
    let after = analyzer::run(scope, st, nodes.take(i + 1));
    assert(nodes.take(i + 1).drop_last() == nodes.take(i));
    assert(after == analyzer::step(scope, before, nodes[i]));
    if let Node::Expr(expr) = nodes[i] {
        let lhs = match expr.kind {
            ExprKind::Assign(lhs, _, _) => lhs,
            ExprKind::Delete(inner) => inner,
            _ => arbitrary(),
        };
        let list = writes::written_state_vars(scope.hir, *lhs);
        lemma_reported(scope, before, list);
        let j = choose|j: int| 0 <= j < list.len() && list[j] == (var, span);
        assert(list[j].0 == var);
        assert(writes::lists(list, var));
    }
    assert(nodes == nodes.take(i + 1) + nodes.skip(i + 1));
    analyzer::lemma_run_add(scope, st, nodes.take(i + 1), nodes.skip(i + 1));
    lemma_run(scope, after, nodes.skip(i + 1));
}

proof fn lemma_invocations_report(
    scope: Scope,
    st: Analysis,
    invocations: Seq<Modifier>,
    var: VariableId,
    span: Span,
)
    requires
        scope.authorities.contains(var),
        invocations_write(scope, st, invocations, var, span),
    ensures
        analyzer::run_invocations(scope, st, invocations).emitted_vars.contains(var),
    decreases invocations.len(),
{
    let i = choose|i: int|
        0 <= i < invocations.len() && invocation_writes(
            scope,
            analyzer::run_invocations(scope, st, invocations.take(i)),
            #[trigger] invocations[i],
            var,
            span,
        );
    let rest = invocations.drop_last();
    let so_far = analyzer::run_invocations(scope, st, rest);
    if i < rest.len() {
        assert(rest.take(i) == invocations.take(i));
        assert(rest[i] == invocations[i]);
        assert(invocations_write(scope, st, rest, var, span));
        lemma_invocations_report(scope, st, rest, var, span);
        lemma_run_invocation(scope, so_far, invocations.last());
    } else {
        assert(invocations.take(i) == rest);
        if let ItemId::Function(function) = invocations[i].id {
            let modifier = scope.hir.functions@[function as int];
            if let Some(body) = modifier.body {
                lemma_run_reports(
                    scope,
                    analyzer::bound(
                        scope,
                        so_far,
                        modifier,
                        invocations[i],
                        modifier.parameters@.len(),
                    ),
                    walk::stmts_walk(Traversal::Everything, body.stmts@),
                    var,
                    span,
                );
            }
        }
    }
}

/// The analysis of the body, then of the modifiers that are invoked.
pub open spec fn whole(scope: Scope, body: Block, invocations: Seq<Modifier>) -> Analysis {
    analyzer::run_invocations(
        scope,
        analyzer::run_block(scope, Analysis::empty(), body),
        invocations,
    )
}

proof fn lemma_whole_justified(
    scope: Scope,
    body: Block,
    invocations: Seq<Modifier>,
    all: Set<(VariableId, Span)>,
)
    requires
        forall|var: VariableId, span: Span| #[trigger]
            all_writes(scope, body, invocations, var, span) ==> all.contains((var, span)),
    ensures
        justified(scope.authorities, whole(scope, body, invocations), all),
{
    let nodes = walk::stmts_walk(Traversal::Everything, body.stmts@);
    let middle = analyzer::run_block(scope, Analysis::empty(), body);
    assert forall|var: VariableId, span: Span| #[trigger]
        run_writes(scope, Analysis::empty(), nodes, var, span) implies all.contains(
        (var, span),
    ) by {
        assert(all_writes(scope, body, invocations, var, span));
    }
    lemma_run_justified(scope, Analysis::empty(), nodes, all);
    assert forall|var: VariableId, span: Span| #[trigger]
        invocations_write(scope, middle, invocations, var, span) implies all.contains(
        (var, span),
    ) by {
        assert(all_writes(scope, body, invocations, var, span));
    }
    lemma_invocations_justified(scope, middle, invocations, all);
}

/// Every report is the place of a tainted write of an authority.
pub proof fn lemma_report_is_write(
    scope: Scope,
    body: Block,
    invocations: Seq<Modifier>,
    i: int,
) -> (var: VariableId)
    requires
        0 <= i < whole(scope, body, invocations).findings.len(),
    ensures
        scope.authorities.contains(var),
        all_writes(scope, body, invocations, var, whole(scope, body, invocations).findings[i]),
{
    let all = Set::new(
        |write: (VariableId, Span)| all_writes(scope, body, invocations, write.0, write.1),
    );
    let span = whole(scope, body, invocations).findings[i];
    lemma_whole_justified(scope, body, invocations, all);
    assert(writes_authority(scope.authorities, all, span));
    choose|var: VariableId| #[trigger] scope.authorities.contains(var) && all.contains((var, span))
}

/// An authority that counts as reported has a report, at one of its tainted writes.
pub proof fn lemma_reported_place(
    scope: Scope,
    body: Block,
    invocations: Seq<Modifier>,
    var: VariableId,
) -> (i: int)
    requires
        whole(scope, body, invocations).emitted_vars.contains(var),
    ensures
        0 <= i < whole(scope, body, invocations).findings.len(),
        all_writes(scope, body, invocations, var, whole(scope, body, invocations).findings[i]),
{
    let findings = whole(scope, body, invocations).findings;
    let all = Set::new(
        |write: (VariableId, Span)| all_writes(scope, body, invocations, write.0, write.1),
    );
    lemma_whole_justified(scope, body, invocations, all);
    assert(places_write(all, findings, var));
    choose|i: int| 0 <= i < findings.len() && all.contains((var, #[trigger] findings[i]))
}

/// An authority with a tainted write counts as reported.
pub proof fn lemma_write_is_reported(
    scope: Scope,
    body: Block,
    invocations: Seq<Modifier>,
    var: VariableId,
    span: Span,
)
    requires
        scope.authorities.contains(var),
        all_writes(scope, body, invocations, var, span),
    ensures
        whole(scope, body, invocations).emitted_vars.contains(var),
{
    let nodes = walk::stmts_walk(Traversal::Everything, body.stmts@);
    let middle = analyzer::run_block(scope, Analysis::empty(), body);
    if run_writes(scope, Analysis::empty(), nodes, var, span) {
        lemma_run_reports(scope, Analysis::empty(), nodes, var, span);
        lemma_run_invocations(scope, middle, invocations);
    } else {
        lemma_invocations_report(scope, middle, invocations, var, span);
    }
}

/// Only authorities are reported, each of them once.
pub proof fn lemma_whole_sound(scope: Scope, body: Block, invocations: Seq<Modifier>)
    ensures
        sound(scope, whole(scope, body, invocations)),
{
    lemma_run(
        scope,
        Analysis::empty(),
        walk::stmts_walk(Traversal::Everything, body.stmts@),
    );
    lemma_run_invocations(
        scope,
        analyzer::run_block(scope, Analysis::empty(), body),
        invocations,
    );
}

} // verus!
