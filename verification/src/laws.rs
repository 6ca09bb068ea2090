//! What the lint promises as a whole.

use vstd::prelude::*;

use crate::analyzer::{self, Analysis, Scope};
use crate::authority;
use crate::gate;
use crate::hir::{
    Block, ContractId, Expr, ExprKind, Function, FunctionId, Hir, ItemId, Modifier, Res, Span,
    UnOpKind, VariableId,
};
use crate::lint;
use crate::reads;
use crate::report;
use crate::sender;
use crate::vars;
use crate::walk::{self, Node, Traversal};
use crate::writes;

verus! {

/// The function holds a tainted write of `var` at `span`, in its body or in a modifier that it
/// invokes.
pub open spec fn function_writes(hir: Hir, func: Function, var: VariableId, span: Span) -> bool {
    func.body matches Some(body) && report::all_writes(
        lint::scope_of(hir, func),
        body,
        func.modifiers@,
        var,
        span,
    )
}

/// Only protected entry points with a body are reported, and none that emits an event, whether
/// in its body or in a modifier that it invokes.
pub proof fn law_only_silent_protected_entry_points(hir: Hir, func: Function)
    requires
        lint::findings_of(hir, func).len() > 0,
    ensures
        lint::entry_point(func),
        gate::protected(hir, func),
        func.body is Some,
        !lint::emits(hir, func),
{
}

/// Every report is the place of a tainted write of an authority.
pub proof fn law_reports_are_authority_writes(hir: Hir, func: Function, i: int)
    requires
        0 <= i < lint::findings_of(hir, func).len(),
    ensures
        exists|var: VariableId| #[trigger]
            authority::is_authority(hir, func, var) && function_writes(
                hir,
                func,
                var,
                lint::findings_of(hir, func)[i],
            ),
{
    let var = report::lemma_report_is_write(
        lint::scope_of(hir, func),
        func.body->0,
        func.modifiers@,
        i,
    );
    assert(authority::is_authority(hir, func, var));
    assert(function_writes(hir, func, var, lint::findings_of(hir, func)[i]));
}

/// In a function in question, an authority with a tainted write is reported, at one of its
/// tainted writes.
pub proof fn law_authority_writes_are_reported(
    hir: Hir,
    func: Function,
    var: VariableId,
    span: Span,
)
    requires
        lint::in_question(hir, func),
        authority::is_authority(hir, func, var),
        function_writes(hir, func, var, span),
    ensures
        exists|i: int|
            0 <= i < lint::findings_of(hir, func).len() && function_writes(
                hir,
                func,
                var,
                #[trigger] lint::findings_of(hir, func)[i],
            ),
{
    let scope = lint::scope_of(hir, func);
    report::lemma_write_is_reported(scope, func.body->0, func.modifiers@, var, span);
    let i = report::lemma_reported_place(scope, func.body->0, func.modifiers@, var);
    assert(function_writes(hir, func, var, lint::findings_of(hir, func)[i]));
}

/// The authorities of the function that it holds a tainted write of.
pub open spec fn changed_authorities(hir: Hir, func: Function) -> Set<VariableId> {
    Set::new(
        |var: VariableId|
            authority::is_authority(hir, func, var) && exists|span: Span|
                function_writes(hir, func, var, span),
    )
}

/// A function in question gets one report for each authority that it holds a tainted write of,
/// however often it writes it.
pub proof fn law_one_report_per_authority(hir: Hir, func: Function)
    requires
        lint::in_question(hir, func),
    ensures
        changed_authorities(hir, func).finite(),
        lint::findings_of(hir, func).len() == changed_authorities(hir, func).len(),
{
    let scope = lint::scope_of(hir, func);
    let body = func.body->0;
    let emitted = report::whole(scope, body, func.modifiers@).emitted_vars;
    report::lemma_whole_sound(scope, body, func.modifiers@);
    assert forall|var: VariableId| #[trigger] emitted.contains(var) implies changed_authorities(
        hir,
        func,
    ).contains(var) by {
        let i = report::lemma_reported_place(scope, body, func.modifiers@, var);
        assert(function_writes(hir, func, var, lint::findings_of(hir, func)[i]));
    }
    assert forall|var: VariableId| #[trigger]
        changed_authorities(hir, func).contains(var) implies emitted.contains(var) by {
        let span = choose|span: Span| function_writes(hir, func, var, span);
        report::lemma_write_is_reported(scope, body, func.modifiers@, var, span);
    }
    assert(emitted =~= changed_authorities(hir, func));
}

/// The lint flags exactly the protected entry points that emit no event and hold a tainted
/// write of an authority.
pub proof fn law_flagged_functions(hir: Hir, func: Function)
    ensures
        lint::findings_of(hir, func).len() > 0 <==> lint::in_question(hir, func) && exists|
            var: VariableId,
        | #[trigger]
            changed_authorities(hir, func).contains(var),
{
    if lint::in_question(hir, func) {
        law_one_report_per_authority(hir, func);
        let changed = changed_authorities(hir, func);
        if exists|var: VariableId| #[trigger] changed.contains(var) {
            let var = choose|var: VariableId| #[trigger] changed.contains(var);
            let span = choose|span: Span| function_writes(hir, func, var, span);
            law_authority_writes_are_reported(hir, func, var, span);
        } else {
            assert(changed =~= Set::<VariableId>::empty());
        }
    }
}

/// What a modifier that a function invokes tests is among the function's authorities, where
/// the function is one of its contract's.
pub proof fn law_invoked_guards_name_authorities(
    hir: Hir,
    function: FunctionId,
    contract: ContractId,
    i: int,
    var: VariableId,
)
    requires
        hir.functions@[function as int].contract == Some(contract),
        authority::contract_items_of(hir, contract).contains(ItemId::Function(function)),
        0 <= i < hir.functions@[function as int].modifiers@.len(),
        authority::invocation_authorities(
            hir,
            hir.functions@[function as int].modifiers@[i],
        ).contains(var),
    ensures
        authority::is_authority(hir, hir.functions@[function as int], var),
{
    let items = authority::contract_items_of(hir, contract);
    let func = hir.functions@[function as int];
    assert(authority::invocations_test(hir, func, var));
    let k = choose|k: int| 0 <= k < items.len() && items[k] == ItemId::Function(function);
    assert(authority::item_tests(
        hir,
        authority::contract_items_of(hir, func.contract->0)[k],
        var,
    ));
}

/// Every authority is a state variable of an address type.
pub proof fn law_authorities_are_address_state(hir: Hir, func: Function, var: VariableId)
    requires
        authority::is_authority(hir, func, var),
    ensures
        vars::address_state_var(hir, var),
{
}

/// One of the contracts itself declares the item.
pub open spec fn one_declares(hir: Hir, contracts: Seq<ContractId>, item: ItemId) -> bool {
    exists|i: int| 0 <= i < contracts.len() && declares(hir, #[trigger] contracts[i], item)
}

/// The contract itself declares the item.
pub open spec fn declares(hir: Hir, contract: ContractId, item: ItemId) -> bool {
    hir.contracts@[contract as int].items@.contains(item)
}

proof fn lemma_items(hir: Hir, contracts: Seq<ContractId>, item: ItemId)
    ensures
        authority::items_of(hir, contracts).contains(item) <==> one_declares(hir, contracts, item),
    decreases contracts.len(),
{
    if contracts.len() > 0 {
        let rest = contracts.drop_last();
        let declared = hir.contracts@[contracts.last() as int].items@;
        let all = authority::items_of(hir, contracts);
        let inherited = authority::items_of(hir, rest);
        lemma_items(hir, rest, item);
        if all.contains(item) {
            let k = choose|k: int| 0 <= k < all.len() && all[k] == item;
            if k < inherited.len() {
                assert(inherited[k] == item);
                let i = choose|i: int|
                    0 <= i < rest.len() && declares(hir, #[trigger] rest[i], item);
                assert(contracts[i] == rest[i]);
            } else {
                assert(declared[k - inherited.len()] == item);
                assert(declares(hir, contracts[contracts.len() - 1], item));
            }
        }
        if one_declares(hir, contracts, item) {
            let i = choose|i: int|
                0 <= i < contracts.len() && declares(hir, #[trigger] contracts[i], item);
            if i < rest.len() {
                assert(rest[i] == contracts[i]);
                let k = choose|k: int| 0 <= k < inherited.len() && inherited[k] == item;
                assert(all[k] == item);
            } else {
                let k = choose|k: int| 0 <= k < declared.len() && declared[k] == item;
                assert(all[inherited.len() + k] == item);
            }
        }
    }
}

/// The items of a contract are those that a contract in its linearization declares, so that
/// inherited modifiers count as its own.
pub proof fn law_inherited_items(hir: Hir, contract: ContractId, item: ItemId)
    ensures
        authority::contract_items_of(hir, contract).contains(item) <==> one_declares(
            hir,
            hir.contracts@[contract as int].linearized_bases@,
            item,
        ),
{
    lemma_items(hir, hir.contracts@[contract as int].linearized_bases@, item);
}

/// A guard is one whether or not parameters may name authorities, if it is one without.
pub proof fn law_parameters_only_add_guards(hir: Hir, block: Block)
    requires
        gate::block_gates(hir, block, false),
    ensures
        gate::block_gates(hir, block, true),
{
    let nodes = walk::stmts_walk(Traversal::Everything, block.stmts@);
    let i = choose|i: int|
        0 <= i < nodes.len() && gate::node_gates(hir, #[trigger] nodes[i], false);
    let cond = gate::guard_condition(nodes[i])->0;
    let var = choose|var: VariableId| #[trigger]
        reads::compares(cond, var) && gate::can_be_authority(hir, var, false);
    assert(gate::can_be_authority(hir, var, true));
    assert(gate::node_gates(hir, nodes[i], true));
}

/// A function whose own guards test an address state variable is protected by them.
pub proof fn law_own_guards_protect(hir: Hir, func: Function, var: VariableId)
    requires
        func.body matches Some(body) && authority::block_guarding_vars(hir, body).contains(var),
        vars::address_state_var(hir, var),
    ensures
        gate::protected(hir, func),
{
    let stmts = (func.body->0).stmts@;
    let guards = walk::stmts_walk(Traversal::Guards, stmts);
    let all = walk::stmts_walk(Traversal::Everything, stmts);
    walk::lemma_stmts_walk_within(Traversal::Guards, stmts);
    let i = choose|i: int|
        0 <= i < guards.len() && authority::node_guards_by(hir, #[trigger] guards[i], var);
    assert(all.contains(guards[i]));
    let k = choose|k: int| 0 <= k < all.len() && all[k] == guards[i];
    assert(reads::compares(gate::guard_condition(all[k])->0, var));
    assert(gate::can_be_authority(hir, var, false));
    assert(gate::node_gates(hir, all[k], false));
    assert(gate::block_gates(hir, func.body->0, false));
}

/// `outer` is `inner` in parentheses.
pub open spec fn parenthesized(outer: Expr, inner: Expr) -> bool {
    &&& outer.kind matches ExprKind::Tuple(exprs)
    &&& exprs@ == seq![Some(inner)]
}

proof fn lemma_parenthesized_walk(t: Traversal, outer: Expr, inner: Expr)
    requires
        parenthesized(outer, inner),
    ensures
        walk::expr_walk(t, &outer) == seq![Node::Expr(&outer)] + walk::expr_walk(t, &inner),
{
    if let ExprKind::Tuple(exprs) = outer.kind {
        assert(exprs@.last() == Some(inner));
        assert(exprs@.drop_last() == Seq::<Option<Expr>>::empty());
        assert(walk::opt_exprs_walk(t, exprs@.drop_last()) == Seq::<Node>::empty());
        assert(walk::opt_exprs_walk(t, exprs@) == walk::expr_walk(t, &inner));
    }
}

pub proof fn lemma_occurrences_add(hir: Hir, a: Seq<Node>, b: Seq<Node>)
    ensures
        writes::state_occurrences(hir, a + b) == writes::state_occurrences(hir, a)
            + writes::state_occurrences(hir, b),
    decreases b.len(),
{
    if b.len() == 0 {
        assert(a + b == a);
    } else {
        lemma_occurrences_add(hir, a, b.drop_last());
        assert((a + b).drop_last() == a + b.drop_last());
    }
}

/// Parentheses change nothing: not how a condition is read, not what it compares, not whether a
/// value is tainted, not what an assignment writes.
pub proof fn law_parentheses(
    scope: Scope,
    st: Analysis,
    outer: Expr,
    inner: Expr,
    var: VariableId,
)
    requires
        parenthesized(outer, inner),
    ensures
        sender::mentions_sender(outer) == sender::mentions_sender(inner),
        sender::allows(outer) == sender::allows(inner),
        reads::mentions(outer, var) == reads::mentions(inner, var),
        reads::compares(outer, var) == reads::compares(inner, var),
        analyzer::tainted(scope, st, outer) == analyzer::tainted(scope, st, inner),
        writes::written_state_vars(scope.hir, outer) == writes::written_state_vars(
            scope.hir,
            inner,
        ),
{
    let node = Node::Expr(&outer);
    let values = walk::expr_walk(Traversal::Values, &inner);
    let flow = walk::expr_walk(Traversal::Flow, &inner);
    let targets = walk::expr_walk(Traversal::Targets, &inner);
    lemma_parenthesized_walk(Traversal::Values, outer, inner);
    lemma_parenthesized_walk(Traversal::Flow, outer, inner);
    lemma_parenthesized_walk(Traversal::Targets, outer, inner);
    assert forall|i: int| 0 <= i < values.len() implies (seq![node] + values)[i + 1]
        == #[trigger] values[i] by {}
    assert forall|i: int| 0 <= i < flow.len() implies (seq![node] + flow)[i + 1]
        == #[trigger] flow[i] by {}
    lemma_occurrences_add(scope.hir, seq![node], targets);
    assert(seq![node].drop_last() == Seq::<Node>::empty());
    assert(writes::state_occurrences(scope.hir, Seq::<Node>::empty()) == Seq::<
        (VariableId, Span),
    >::empty());
    assert(writes::state_occurrences(scope.hir, seq![node]) == Seq::<(VariableId, Span)>::empty());
    assert(writes::target_occurrences(scope.hir, outer) == writes::target_occurrences(
        scope.hir,
        inner,
    ));
    if let ExprKind::Tuple(exprs) = outer.kind {
        assert(exprs@[0] == Some(inner));
    }
}

/// `!` turns the reading of a condition round, and a second one turns it back.
pub proof fn law_negation(outer: Expr, inner: Expr)
    requires
        outer.kind matches ExprKind::Unary(UnOpKind::Not, operand) && *operand == inner,
    ensures
        sender::allows(inner) matches Some(answer) ==> sender::allows(outer) == Some(!answer),
        sender::allows(inner) is None && sender::mentions_sender(inner) ==> sender::allows(outer)
            == Some(false),
{
}

/// The last assignment to an address local decides its taint, whatever it was before: a
/// parameter that takes an untainted value is no longer tainted. (The variables of a `try`
/// clause are tainted for good.)
pub proof fn law_last_assignment_decides(
    scope: Scope,
    st: Analysis,
    expr: &Expr,
    var: VariableId,
)
    requires
        expr.kind matches ExprKind::Assign(lhs, _, _) && writes::local_target(scope.hir, *lhs)
            == Some(var),
        !(vars::kind_of(scope.hir, var) is TryCatch),
    ensures
        expr.kind matches ExprKind::Assign(_, _, rhs) ==> analyzer::res_tainted(
            scope,
            analyzer::step(scope, st, Node::Expr(expr)),
            Res::Item(ItemId::Variable(var)),
        ) == analyzer::tainted(scope, st, *rhs),
{
    if let ExprKind::Assign(lhs, _, rhs) = expr.kind {
        report::lemma_reported(scope, st, writes::written_state_vars(scope.hir, *lhs));
        lemma_same_taint(scope, st, analyzer::recorded(scope, st, *lhs, Some(*rhs)), *rhs);
    }
}

pub proof fn lemma_same_taint(scope: Scope, a: Analysis, b: Analysis, expr: Expr)
    requires
        a.taint == b.taint,
        a.modifier_param_taint == b.modifier_param_taint,
    ensures
        analyzer::tainted(scope, a, expr) == analyzer::tainted(scope, b, expr),
{
    let nodes = walk::expr_walk(Traversal::Flow, &expr);
    assert forall|i: int| 0 <= i < nodes.len() implies analyzer::is_source(
        scope,
        a,
        #[trigger] nodes[i],
    ) == analyzer::is_source(scope, b, nodes[i]) by {
        if let Node::Expr(part) = nodes[i] {
            if let ExprKind::Ident(reses) = part.kind {
                assert forall|j: int| 0 <= j < reses@.len() implies analyzer::res_tainted(
                    scope,
                    a,
                    #[trigger] reses@[j],
                ) == analyzer::res_tainted(scope, b, reses@[j]) by {}
            }
        }
    }
}

proof fn lemma_with_new(list: Seq<(VariableId, Span)>)
    ensures
        ({
            let new = writes::with_new(seq![], list);
            &&& forall|i: int, j: int|
                0 <= i < j < new.len() ==> (#[trigger] new[i]).0 != (#[trigger] new[j]).0
            &&& forall|var: VariableId|
                #![trigger writes::lists(new, var)]
                writes::lists(new, var) <==> writes::lists(list, var)
            &&& forall|i: int|
                0 <= i < new.len() ==> first_on(list, #[trigger] new[i])
        }),
    decreases list.len(),
{
    let new = writes::with_new(seq![], list);
    if list.len() > 0 {
        let rest = list.drop_last();
        let so_far = writes::with_new(seq![], rest);
        lemma_with_new(rest);
        assert forall|var: VariableId|
            #![trigger writes::lists(new, var)]
            writes::lists(new, var) <==> writes::lists(list, var) by {
            assert(writes::lists(so_far, var) <==> writes::lists(rest, var));
            if writes::lists(rest, var) {
                let i = choose|i: int| 0 <= i < rest.len() && (#[trigger] rest[i]).0 == var;
                assert(list[i] == rest[i]);
                let j = choose|j: int| 0 <= j < so_far.len() && (#[trigger] so_far[j]).0 == var;
                assert(new[j] == so_far[j]);
            } else if list.last().0 == var {
                assert(list[list.len() - 1].0 == var);
                assert(new[so_far.len() as int].0 == var);
            } else {
                if writes::lists(list, var) {
                    let i = choose|i: int| 0 <= i < list.len() && (#[trigger] list[i]).0 == var;
                    assert(rest[i] == list[i]);
                }
                if writes::lists(new, var) {
                    let j = choose|j: int| 0 <= j < new.len() && (#[trigger] new[j]).0 == var;
                    assert(so_far[j] == new[j]);
                }
            }
        }
        assert forall|i: int| 0 <= i < new.len() implies first_on(list, #[trigger] new[i]) by {
            if i < so_far.len() {
                assert(new[i] == so_far[i]);
                let k = choose|k: int|
                    0 <= k < rest.len() && #[trigger] rest[k] == so_far[i] && forall|j: int|
                        0 <= j < k ==> (#[trigger] rest[j]).0 != so_far[i].0;
                assert(list[k] == rest[k]);
                assert forall|j: int| 0 <= j < k implies (#[trigger] list[j]).0 != new[i].0 by {
                    assert(rest[j] == list[j]);
                }
            } else {
                let k = list.len() - 1;
                assert(list[k] == new[i]);
                assert(!writes::lists(so_far, new[i].0));
                assert forall|j: int| 0 <= j < k implies (#[trigger] list[j]).0 != new[i].0 by {
                    assert(rest[j] == list[j]);
                }
            }
        }
    }
}

/// The entry is on the list, and no earlier one is of the same variable.
pub open spec fn first_on(list: Seq<(VariableId, Span)>, entry: (VariableId, Span)) -> bool {
    exists|k: int|
        0 <= k < list.len() && #[trigger] list[k] == entry && forall|j: int|
            0 <= j < k ==> (#[trigger] list[j]).0 != entry.0
}

proof fn lemma_named_are_state(hir: Hir, reses: Seq<Res>, span: Span)
    ensures
        forall|i: int|
            0 <= i < writes::named_state_vars(hir, reses, span).len() ==> vars::kind_of(
                hir,
                (#[trigger] writes::named_state_vars(hir, reses, span)[i]).0,
            ) is State,
    decreases reses.len(),
{
    if reses.len() > 0 {
        lemma_named_are_state(hir, reses.drop_last(), span);
    }
}

proof fn lemma_occurrences_are_state(hir: Hir, nodes: Seq<Node>)
    ensures
        forall|i: int|
            0 <= i < writes::state_occurrences(hir, nodes).len() ==> vars::kind_of(
                hir,
                (#[trigger] writes::state_occurrences(hir, nodes)[i]).0,
            ) is State,
    decreases nodes.len(),
{
    if nodes.len() > 0 {
        lemma_occurrences_are_state(hir, nodes.drop_last());
        if let Node::Expr(expr) = nodes.last() {
            if let ExprKind::Ident(reses) = expr.kind {
                lemma_named_are_state(hir, reses@, expr.span);
            }
        }
    }
}

/// An assignment writes each state variable that its target names, and nothing else; each
/// counts once, at the first place that names it.
pub proof fn law_written_variables(hir: Hir, lhs: Expr)
    ensures
        ({
            let written = writes::written_state_vars(hir, lhs);
            let named = writes::target_occurrences(hir, lhs);
            &&& forall|i: int, j: int|
                0 <= i < j < written.len() ==> (#[trigger] written[i]).0 != (
                #[trigger] written[j]).0
            &&& forall|var: VariableId|
                #![trigger writes::lists(written, var)]
                writes::lists(written, var) <==> writes::lists(named, var)
            &&& forall|i: int|
                0 <= i < written.len() ==> first_on(named, #[trigger] written[i]) && vars::kind_of(
                    hir,
                    written[i].0,
                ) is State
        }),
{
    lemma_occurrences_are_state(hir, walk::expr_walk(Traversal::Targets, &lhs));
    lemma_with_new(writes::target_occurrences(hir, lhs));
}

pub proof fn lemma_bound_entry(
    scope: Scope,
    st: Analysis,
    modifier: Function,
    invocation: Modifier,
    count: nat,
    var: VariableId,
)
    requires
        count <= modifier.parameters@.len(),
        forall|i: int| 0 <= i < count ==> #[trigger] modifier.parameters@[i] != var,
    ensures
        analyzer::entry_of(
            analyzer::bound(scope, st, modifier, invocation, count).modifier_param_taint,
            var,
        ) == analyzer::entry_of(st.modifier_param_taint, var),
    decreases count,
{
    if count > 0 {
        lemma_bound_entry(scope, st, modifier, invocation, (count - 1) as nat, var);
        assert(modifier.parameters@[count - 1] != var);
    }
}

/// Putting back what was saved of the first `count` parameters leaves the entries of the others
/// alone.
proof fn lemma_restored_entry(
    scope: Scope,
    st: Analysis,
    modifier: Function,
    invocation: Modifier,
    map: Map<VariableId, bool>,
    count: nat,
    var: VariableId,
)
    requires
        count <= modifier.parameters@.len(),
        modifier.parameters@.no_duplicates(),
    ensures
        analyzer::entry_of(
            analyzer::restored(
                map,
                analyzer::saved(scope, st, modifier, invocation, count),
            ),
            var,
        ) == if modifier.parameters@.take(count as int).contains(var) {
            analyzer::entry_of(st.modifier_param_taint, var)
        } else {
            analyzer::entry_of(map, var)
        },
    decreases count,
{
    let params = modifier.parameters@;
    let list = analyzer::saved(scope, st, modifier, invocation, count);
    if count > 0 {
        let fewer = (count - 1) as nat;
        let last = params[count - 1];
        assert(list.drop_last() == analyzer::saved(scope, st, modifier, invocation, fewer));
        lemma_restored_entry(scope, st, modifier, invocation, map, fewer, var);
        assert(params.take(count as int) == params.take(fewer as int).push(last));
        if var == last {
            assert(params.take(count as int)[count - 1] == var);
            lemma_bound_entry(scope, st, modifier, invocation, fewer, var);
        } else if params.take(fewer as int).contains(var) {
            let i = choose|i: int| 0 <= i < fewer && params.take(fewer as int)[i] == var;
            assert(params.take(count as int)[i] == var);
        }
    }
}

/// The bindings of modifier parameters last as long as the modifier: after an invocation they
/// are what they were before, given that no parameter is declared twice.
pub proof fn law_bindings_are_restored(scope: Scope, st: Analysis, invocation: Modifier)
    requires
        invocation.id matches ItemId::Function(function)
            ==> scope.hir.functions@[function as int].parameters@.no_duplicates(),
    ensures
        analyzer::run_invocation(scope, st, invocation).modifier_param_taint
            == st.modifier_param_taint,
{
    if let ItemId::Function(function) = invocation.id {
        let modifier = scope.hir.functions@[function as int];
        if let Some(body) = modifier.body {
            let params = modifier.parameters@;
            let bound = analyzer::bound(scope, st, modifier, invocation, params.len());
            let after = analyzer::run_invocation(scope, st, invocation).modifier_param_taint;
            report::lemma_run(
                scope,
                bound,
                walk::stmts_walk(Traversal::Everything, body.stmts@),
            );
            assert(params.take(params.len() as int) == params);
            assert forall|var: VariableId|
                analyzer::entry_of(after, var) == #[trigger] analyzer::entry_of(
                    st.modifier_param_taint,
                    var,
                ) by {
                lemma_restored_entry(
                    scope,
                    st,
                    modifier,
                    invocation,
                    bound.modifier_param_taint,
                    params.len(),
                    var,
                );
                if !params.contains(var) {
                    lemma_bound_entry(scope, st, modifier, invocation, params.len(), var);
                }
            }
            let before = st.modifier_param_taint;
            assert forall|var: VariableId| #[trigger]
                after.dom().contains(var) == before.dom().contains(var) by {
                assert(analyzer::entry_of(after, var) == analyzer::entry_of(before, var));
            }
            assert forall|var: VariableId| #[trigger]
                after.dom().contains(var) implies after[var] == before[var] by {
                assert(analyzer::entry_of(after, var) == analyzer::entry_of(before, var));
            }
            assert(after =~= before);
        }
    }
}

} // verus!
