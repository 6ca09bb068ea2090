//! What the lint does with a whole function.

use vstd::prelude::*;

use crate::analyzer::{self, Analysis, Scope};
use crate::authority;
use crate::authority_laws;
use crate::condition_laws;
use crate::gate;
use crate::guard_laws;
use crate::hir::{
    BinOpKind, Block, CallArgs, ContractId, Expr, ExprKind, Function, FunctionId, FunctionKind,
    Hir, ItemId, Modifier, Res, StateMutability, Stmt, TypeForm, VarKind, VariableId, Visibility,
};
use crate::laws;
use crate::lint;
use crate::order_laws;
use crate::reads;
use crate::report;
use crate::resolve;
use crate::sender;
use crate::taint_laws;
use crate::walk::{self, Node, Traversal};
use crate::writes;

verus! {

/// The findings of a function that the lint looks into are those of its body, statement by
/// statement, and then of every modifier that it invokes, in order, with all of its parameters in
/// the caller's hands and all of its authorities watched; of any other function there are none.
pub proof fn law_findings(hir: Hir, func: Function)
    ensures
        ({
            let scope = Scope {
                hir,
                authorities: Set::new(|var: VariableId| authority::is_authority(hir, func, var)),
                entry_params: func.parameters@,
            };
            lint::findings_of(hir, func) == if lint::entry_point(func) && gate::protected(hir, func)
                && func.body is Some && !lint::emits(hir, func) {
                func.modifiers@.fold_left(
                    order_laws::seen_stmts(scope, Analysis::empty(), func.body->0.stmts@),
                    |st: Analysis, invocation: Modifier|
                        analyzer::run_invocation(scope, st, invocation),
                ).findings
            } else {
                seq![]
            }
        }),
{
    if lint::in_question(hir, func) {
        let scope = lint::scope_of(hir, func);
        let start = analyzer::run_block(scope, Analysis::empty(), func.body->0);
        order_laws::law_statement_order(scope, Analysis::empty(), func.body->0);
        lemma_invocations_fold(scope, start, func.modifiers@);
        assert(scope.authorities =~= Set::new(
            |var: VariableId| authority::is_authority(hir, func, var),
        ));
    }
}

proof fn lemma_invocations_fold(scope: Scope, st: Analysis, invocations: Seq<Modifier>)
    ensures
        analyzer::run_invocations(scope, st, invocations) == invocations.fold_left(
            st,
            |st: Analysis, invocation: Modifier| analyzer::run_invocation(scope, st, invocation),
        ),
    decreases invocations.len(),
{
    reveal_with_fuel(Seq::fold_left, 2);
    if invocations.len() > 0 {
        lemma_invocations_fold(scope, st, invocations.drop_last());
    }
}

/// The node does not give the variable a value.
pub open spec fn leaves(node: Node, var: VariableId) -> bool {
    match node {
        Node::Stmt(stmt) => stmt matches Stmt::DeclSingle(decl) ==> decl.var != var,
        Node::Expr(expr) => expr.kind matches ExprKind::Assign(lhs, _, _) ==> !(
        lhs.kind matches ExprKind::Ident(reses) && reses@.contains(
            Res::Item(ItemId::Variable(var)),
        )),
    }
}

proof fn lemma_first_local_named(hir: Hir, reses: Seq<Res>)
    ensures
        writes::first_local(hir, reses) matches Some(var) ==> reses.contains(
            Res::Item(ItemId::Variable(var)),
        ),
    decreases reses.len(),
{
    if reses.len() > 0 {
        let rest = reses.drop_last();
        lemma_first_local_named(hir, rest);
        match writes::first_local(hir, rest) {
            Some(var) => {
                let i = choose|i: int|
                    0 <= i < rest.len() && rest[i] == Res::Item(ItemId::Variable(var));
                assert(reses[i] == Res::Item(ItemId::Variable(var)));
            },
            None => {
                assert(reses[reses.len() - 1] == reses.last());
            },
        }
    }
}

/// What no node of a run gives a value keeps the taint that it had.
pub proof fn law_untouched_variables(
    scope: Scope,
    st: Analysis,
    nodes: Seq<Node>,
    var: VariableId,
)
    requires
        forall|i: int| 0 <= i < nodes.len() ==> leaves(#[trigger] nodes[i], var),
    ensures
        analyzer::entry_of(analyzer::run(scope, st, nodes).taint, var) == analyzer::entry_of(
            st.taint,
            var,
        ),
    decreases nodes.len(),
{
    if nodes.len() > 0 {
        let rest = nodes.drop_last();
        assert forall|i: int| 0 <= i < rest.len() implies leaves(#[trigger] rest[i], var) by {
            assert(leaves(nodes[i], var));
        }
        law_untouched_variables(scope, st, rest, var);
        let before = analyzer::run(scope, st, rest);
        let node = nodes.last();
        assert(leaves(nodes[nodes.len() - 1], var));
        if let Node::Expr(expr) = node {
            taint_laws::law_assigned_locals(scope, before, expr, var);
            if let ExprKind::Assign(lhs, _, _) = expr.kind {
                if let ExprKind::Ident(reses) = lhs.kind {
                    lemma_first_local_named(scope.hir, reses@);
                }
            }
        }
    }
}

/// In a function that the lint looks into, an assignment of one of its parameters, at whatever
/// position and unassigned until then, to an authority is a tainted write of it, and is reported.
pub proof fn law_parameter_to_authority(
    hir: Hir,
    func: Function,
    body: Block,
    k: int,
    expr: Expr,
    lhs: Expr,
    op: Option<BinOpKind>,
    rhs: Expr,
    authority: VariableId,
    i: int,
)
    requires
        lint::in_question(hir, func),
        func.body == Some(body),
        0 <= k < body.stmts@.len(),
        body.stmts@[k] == Stmt::Expr(Box::new(expr)),
        expr.kind == ExprKind::Assign(Box::new(lhs), op, Box::new(rhs)),
        lhs.kind matches ExprKind::Ident(reses) && reses@.contains(
            Res::Item(ItemId::Variable(authority)),
        ),
        authority::is_authority(hir, func, authority),
        0 <= i < func.parameters@.len(),
        hir.variables@[func.parameters@[i] as int].kind == VarKind::FunctionParam,
        rhs.kind matches ExprKind::Ident(reses) && reses@.contains(
            Res::Item(ItemId::Variable(func.parameters@[i])),
        ),
        forall|n: int|
            0 <= n < walk::stmts_walk(Traversal::Everything, body.stmts@.take(k)).len() ==> leaves(
                #[trigger] walk::stmts_walk(Traversal::Everything, body.stmts@.take(k))[n],
                func.parameters@[i],
            ),
    ensures
        laws::function_writes(hir, func, authority, lhs.span),
        laws::changed_authorities(hir, func).contains(authority),
        lint::findings_of(hir, func).len() > 0,
        exists|j: int|
            0 <= j < lint::findings_of(hir, func).len() && laws::function_writes(
                hir,
                func,
                authority,
                #[trigger] lint::findings_of(hir, func)[j],
            ),
{
    let t = Traversal::Everything;
    let scope = lint::scope_of(hir, func);
    let param = func.parameters@[i];
    let stmts = body.stmts@;
    let all = walk::stmts_walk(t, stmts);
    let before = walk::stmts_walk(t, stmts.take(k));
    let this = walk::stmt_walk(t, &stmts[k]);
    let n = before.len() + 1;
    walk::lemma_stmts_walk_step(t, stmts, k);
    walk::lemma_stmts_walk_prefix(t, stmts, k + 1);
    assert(walk::expr_walk(t, &expr)[0] == Node::Expr(&expr));
    assert(this[1] == Node::Expr(&expr)) by {
        assert(this == seq![Node::Stmt(&stmts[k])] + walk::expr_walk(t, &expr));
    }
    assert((before + this)[n as int] == Node::Expr(&expr));
    assert(all[n as int] == Node::Expr(&expr));
    assert(all.take(n as int) == before.push(Node::Stmt(&stmts[k]))) by {
        assert(this[0] == Node::Stmt(&stmts[k]));
        assert forall|j: int| 0 <= j < n implies #[trigger] all[j] == (before + this)[j] by {}
    }
    let st = analyzer::run(scope, Analysis::empty(), all.take(n as int));
    law_untouched_variables(scope, Analysis::empty(), before, param);
    assert(all.take(n as int).drop_last() == before);
    assert(st == analyzer::run(scope, Analysis::empty(), before));
    assert(!st.taint.contains_key(param));
    taint_laws::law_entry_parameters(scope, st, i, rhs);
    laws::law_authorities_are_address_state(hir, func, authority);
    taint_laws::law_written_names(hir, lhs, authority);
    assert(report::node_writes(scope, st, all[n as int], authority, lhs.span));
    assert(report::run_writes(scope, Analysis::empty(), all, authority, lhs.span));
    laws::law_authority_writes_are_reported(hir, func, authority, lhs.span);
}

/// The expression is `msg.sender`: the member `sender` of a name that may refer to `msg`.
pub open spec fn is_sender(expr: Expr) -> bool {
    &&& expr.kind matches ExprKind::Member(base, member)
    &&& member@ == "sender"@
    &&& base.kind matches ExprKind::Ident(reses)
    &&& exists|i: int|
        0 <= i < reses@.len() && #[trigger] reses@[i] is Builtin && reses@[i]->Builtin_0@ == "msg"@
}

/// The expression is a name that may refer to the variable.
pub open spec fn is_name(expr: Expr, var: VariableId) -> bool {
    &&& expr.kind matches ExprKind::Ident(reses)
    &&& reses@.contains(Res::Item(ItemId::Variable(var)))
}

/// The condition is, or has below any number of `&&` and `||`, a comparison of `msg.sender` with
/// the variable by `==` or `!=`, in either order.
pub open spec fn checks(cond: Expr, var: VariableId) -> bool
    decreases cond,
{
    match cond.kind {
        ExprKind::Binary(lhs, BinOpKind::Eq, rhs) => (is_sender(*lhs) && is_name(*rhs, var)) || (
        is_name(*lhs, var) && is_sender(*rhs)),
        ExprKind::Binary(lhs, BinOpKind::Ne, rhs) => (is_sender(*lhs) && is_name(*rhs, var)) || (
        is_name(*lhs, var) && is_sender(*rhs)),
        ExprKind::Binary(lhs, BinOpKind::And, rhs) => checks(*lhs, var) || checks(*rhs, var),
        ExprKind::Binary(lhs, BinOpKind::Or, rhs) => checks(*lhs, var) || checks(*rhs, var),
        _ => false,
    }
}

proof fn lemma_is_sender(expr: Expr)
    requires
        is_sender(expr),
    ensures
        sender::mentions_sender(expr),
{
    condition_laws::law_sender_name(expr);
    condition_laws::law_sender_mentions(expr);
}

proof fn lemma_is_name(expr: Expr, var: VariableId)
    requires
        is_name(expr, var),
    ensures
        reads::mentions(expr, var),
        !sender::mentions_sender(expr),
{
    condition_laws::law_variable_mentions(expr, var);
    condition_laws::law_sender_mentions(expr);
    condition_laws::law_sender_name(expr);
    if let ExprKind::Ident(reses) = expr.kind {
        let i = choose|i: int|
            0 <= i < reses@.len() && reses@[i] == Res::Item(ItemId::Variable(var));
        assert(reses@[i] == Res::Item(ItemId::Variable(var)));
    }
}

/// A condition that checks the sender against a variable, below whatever conjunctions and
/// disjunctions, compares the sender with it.
pub proof fn law_checks_compare(cond: Expr, var: VariableId)
    requires
        checks(cond, var),
    ensures
        reads::compares(cond, var),
    decreases cond,
{
    if let ExprKind::Binary(lhs, op, rhs) = cond.kind {
        if op is Eq || op is Ne {
            if is_sender(*lhs) {
                lemma_is_sender(*lhs);
                lemma_is_name(*rhs, var);
            } else {
                lemma_is_name(*lhs, var);
                lemma_is_sender(*rhs);
            }
            condition_laws::law_compared_sides(cond, *lhs, op, *rhs, var);
        } else {
            if checks(*lhs, var) {
                law_checks_compare(*lhs, var);
            } else {
                law_checks_compare(*rhs, var);
            }
            condition_laws::law_connectives(cond, *lhs, op, *rhs, var);
        }
    }
}

/// The statement is a call of `require` or `assert` whose first argument checks the sender
/// against the variable, whatever else is passed.
pub open spec fn requires_sender(stmt: Stmt, var: VariableId) -> bool {
    &&& stmt matches Stmt::Expr(expr)
    &&& expr.kind matches ExprKind::Call(callee, args, _)
    &&& callee.kind matches ExprKind::Ident(reses)
    &&& exists|i: int|
        0 <= i < reses@.len() && #[trigger] reses@[i] is Builtin && (reses@[i]->Builtin_0@
            == "require"@ || reses@[i]->Builtin_0@ == "assert"@)
    &&& args matches CallArgs::Unnamed(exprs)
    &&& exprs@.len() > 0
    &&& checks(exprs@[0], var)
}

/// Control does not pass the statement: a return or a revert, in whatever braces, behind whatever
/// statements.
pub open spec fn stops(stmt: Stmt) -> bool
    decreases stmt,
{
    match stmt {
        Stmt::Return(_) => true,
        Stmt::Revert(_) => true,
        Stmt::Block(block) => block.stmts@.len() > 0 && stops(
            block.stmts@[block.stmts@.len() - 1],
        ),
        Stmt::UncheckedBlock(block) => block.stmts@.len() > 0 && stops(
            block.stmts@[block.stmts@.len() - 1],
        ),
        _ => false,
    }
}

/// What stops control exits.
pub proof fn law_stopping_exits(stmt: Stmt)
    requires
        stops(stmt),
    ensures
        sender::exits(stmt),
    decreases stmt,
{
    match stmt {
        Stmt::Return(value) => condition_laws::law_leaving_exits(value, arbitrary()),
        Stmt::Revert(error) => condition_laws::law_leaving_exits(None, error),
        Stmt::Block(block) => {
            condition_laws::law_block_exits(block);
            law_stopping_exits(block.stmts@[block.stmts@.len() - 1]);
        },
        Stmt::UncheckedBlock(block) => {
            condition_laws::law_block_exits(block);
            law_stopping_exits(block.stmts@[block.stmts@.len() - 1]);
        },
        _ => {},
    }
}

/// The statement is an `if` that stops everyone but the variable's address: `!=` with a first
/// branch that stops control, or `==` with an `else` that does.
pub open spec fn stops_others(stmt: Stmt, var: VariableId) -> bool {
    &&& stmt matches Stmt::If(cond, then, other)
    &&& checks(*cond, var)
    &&& {
        ||| cond.kind matches ExprKind::Binary(_, op, _) && op is Ne && stops(*then)
        ||| cond.kind matches ExprKind::Binary(_, op, _) && op is Eq && other is Some && stops(
            *other->0,
        )
    }
}

/// The variable is state of an address type.
pub open spec fn is_address_state(hir: Hir, var: VariableId) -> bool {
    hir.variables@[var as int].ty == TypeForm::Address && hir.variables@[var as int].kind
        == VarKind::State
}

/// A statement of a block, wherever it stands, that requires the sender to be the address in a
/// state variable, or stops everyone else, is a guard, and the guards of the block test that
/// variable.
pub proof fn law_plain_guards(hir: Hir, block: Block, i: int, var: VariableId, allow_params: bool)
    requires
        0 <= i < block.stmts@.len(),
        requires_sender(block.stmts@[i], var) || stops_others(block.stmts@[i], var),
        is_address_state(hir, var),
    ensures
        gate::block_gates(hir, block, allow_params),
        authority::block_guarding_vars(hir, block).contains(var),
{
    let stmt = block.stmts@[i];
    match stmt {
        Stmt::Expr(expr) => {
            if let ExprKind::Call(callee, args, opts) = expr.kind {
                let cond = args->Unnamed_0@[0];
                law_checks_compare(cond, var);
                guard_laws::law_tested_authorities(hir, cond, allow_params);
                guard_laws::law_tested_authorities(hir, cond, true);
                condition_laws::law_guard_names(*callee);
                guard_laws::law_call_guards(hir, &*expr, *callee, args, opts, allow_params);
                guard_laws::law_call_guards(hir, &*expr, *callee, args, opts, true);
                guard_laws::law_guarding_nodes(hir, Node::Expr(&*expr), var);
            }
        },
        Stmt::If(cond, then, other) => {
            law_checks_compare(*cond, var);
            guard_laws::law_tested_authorities(hir, *cond, allow_params);
            guard_laws::law_tested_authorities(hir, *cond, true);
            if let ExprKind::Binary(lhs, op, rhs) = cond.kind {
                if is_sender(*lhs) {
                    lemma_is_sender(*lhs);
                } else {
                    lemma_is_sender(*rhs);
                }
                condition_laws::law_sender_comparison(*cond, *lhs, op, *rhs);
                if op is Ne {
                    law_stopping_exits(*then);
                } else {
                    law_stopping_exits(*other->0);
                }
            }
            guard_laws::law_if_guards(hir, &stmt, *cond, *then, other, allow_params);
            guard_laws::law_if_guards(hir, &stmt, *cond, *then, other, true);
            guard_laws::law_guarding_nodes(hir, Node::Stmt(&stmt), var);
        },
        _ => {},
    }
    guard_laws::law_guard_statements(hir, block, i, allow_params);
    authority_laws::law_guarding_statements(hir, block, i, var);
}

/// The function can be called by anyone and can change state.
pub open spec fn can_be_called(func: Function) -> bool {
    &&& func.kind == FunctionKind::Function
    &&& func.visibility == Visibility::Public || func.visibility == Visibility::External
    &&& func.state_mutability == StateMutability::Payable || func.state_mutability
        == StateMutability::NonPayable
}

/// A function of a contract with a modifier, among whatever others, that checks the sender
/// against a state variable is one that the lint looks into, unless an event is emitted, and the
/// variable is one of its authorities.
pub proof fn law_guarded_by_modifier(
    hir: Hir,
    function: FunctionId,
    contract: ContractId,
    m: int,
    guard: FunctionId,
    body: Block,
    s: int,
    var: VariableId,
)
    requires
        can_be_called(hir.functions@[function as int]),
        hir.functions@[function as int].body is Some,
        hir.functions@[function as int].contract == Some(contract),
        authority_laws::declared_for(hir, hir.functions@[function as int], function),
        0 <= m < hir.functions@[function as int].modifiers@.len(),
        hir.functions@[function as int].modifiers@[m].id == ItemId::Function(guard),
        hir.functions@[guard as int].body == Some(body),
        0 <= s < body.stmts@.len(),
        requires_sender(body.stmts@[s], var) || stops_others(body.stmts@[s], var),
        is_address_state(hir, var),
        !lint::emits(hir, hir.functions@[function as int]),
    ensures
        lint::in_question(hir, hir.functions@[function as int]),
        authority::is_authority(hir, hir.functions@[function as int], var),
{
    let func = hir.functions@[function as int];
    guard_laws::law_entry_points(func);
    law_plain_guards(hir, body, s, var, true);
    assert(func.modifiers@[m].id is Function);
    guard_laws::law_protection(hir, func);
    assert(gate::protected(hir, func));
    authority_laws::law_tested_by_invocation(hir, func.modifiers@[m], var);
    assert(authority::invocation_authorities(hir, func.modifiers@[m]).contains(var));
    authority_laws::law_authorities(hir, func, var);
}

/// A function whose own body checks the sender against a state variable, anywhere among its
/// statements, is one that the lint looks into, unless an event is emitted, and the variable is
/// one of its authorities.
pub proof fn law_guarded_by_body(hir: Hir, func: Function, body: Block, s: int, var: VariableId)
    requires
        can_be_called(func),
        func.body == Some(body),
        0 <= s < body.stmts@.len(),
        requires_sender(body.stmts@[s], var) || stops_others(body.stmts@[s], var),
        is_address_state(hir, var),
        !lint::emits(hir, func),
    ensures
        lint::in_question(hir, func),
        authority::is_authority(hir, func, var),
{
    guard_laws::law_entry_points(func);
    law_plain_guards(hir, body, s, var, false);
    guard_laws::law_protection(hir, func);
    authority_laws::law_authorities(hir, func, var);
}

/// A program is well formed exactly when every name in a function's statements or in the
/// arguments of its modifiers, every declaration, parameter, modifier, contract and base is in
/// the tables.
pub proof fn law_well_formed(hir: Hir)
    ensures
        hir.well_formed() <==> {
            &&& forall|i: int, j: int|
                #![trigger hir.contracts@[i].linearized_bases@[j]]
                0 <= i < hir.contracts@.len() && 0 <= j
                    < hir.contracts@[i].linearized_bases@.len()
                    ==> hir.contracts@[i].linearized_bases@[j] < hir.contracts@.len()
            &&& forall|i: int, j: int|
                #![trigger hir.contracts@[i].items@[j]]
                0 <= i < hir.contracts@.len() && 0 <= j < hir.contracts@[i].items@.len()
                    && hir.contracts@[i].items@[j] is Function
                    ==> hir.contracts@[i].items@[j]->Function_0 < hir.functions@.len()
            &&& forall|i: int|
                0 <= i < hir.functions@.len() && (#[trigger] hir.functions@[i]).contract is Some
                    ==> hir.functions@[i].contract->0 < hir.contracts@.len()
            &&& forall|i: int, j: int|
                #![trigger hir.functions@[i].parameters@[j]]
                0 <= i < hir.functions@.len() && 0 <= j < hir.functions@[i].parameters@.len()
                    ==> hir.functions@[i].parameters@[j] < hir.variables@.len()
            &&& forall|i: int, j: int|
                #![trigger hir.functions@[i].modifiers@[j]]
                0 <= i < hir.functions@.len() && 0 <= j < hir.functions@[i].modifiers@.len() ==> (
                hir.functions@[i].modifiers@[j].id is Function
                    ==> hir.functions@[i].modifiers@[j].id->Function_0 < hir.functions@.len())
                    && args_in_tables(hir, hir.functions@[i].modifiers@[j].args)
            &&& forall|i: int|
                0 <= i < hir.functions@.len() && (#[trigger] hir.functions@[i]).body is Some
                    ==> in_tables(
                    hir,
                    walk::stmts_walk(Traversal::Everything, hir.functions@[i].body->0.stmts@),
                )
        },
{
    assert forall|i: int| #![trigger hir.functions@[i]] 0 <= i < hir.functions@.len() implies (
    resolve::function_resolves(hir, hir.functions@[i]) <==> {
        let func = hir.functions@[i];
        &&& func.contract is Some ==> func.contract->0 < hir.contracts@.len()
        &&& forall|j: int|
            0 <= j < func.parameters@.len() ==> #[trigger] func.parameters@[j]
                < hir.variables@.len()
        &&& forall|j: int|
            0 <= j < func.modifiers@.len() ==> ((#[trigger] func.modifiers@[j]).id is Function
                ==> func.modifiers@[j].id->Function_0 < hir.functions@.len()) && args_in_tables(
                hir,
                func.modifiers@[j].args,
            )
        &&& func.body is Some ==> in_tables(
            hir,
            walk::stmts_walk(Traversal::Everything, func.body->0.stmts@),
        )
    }) by {
        let func = hir.functions@[i];
        if func.body is Some {
            lemma_in_tables(hir, walk::stmts_walk(Traversal::Everything, func.body->0.stmts@));
        }
        assert forall|j: int| 0 <= j < func.modifiers@.len() implies resolve::modifier_resolves(
            hir,
            #[trigger] func.modifiers@[j],
        ) == ((func.modifiers@[j].id is Function ==> func.modifiers@[j].id->Function_0
            < hir.functions@.len()) && args_in_tables(hir, func.modifiers@[j].args)) by {
            lemma_args_in_tables(hir, func.modifiers@[j].args);
        }
    }
}

/// What the nodes name or declare is in the table of variables.
pub open spec fn in_tables(hir: Hir, nodes: Seq<Node>) -> bool {
    forall|i: int| 0 <= i < nodes.len() ==> match #[trigger] nodes[i] {
        Node::Stmt(stmt) => stmt matches Stmt::DeclSingle(decl) ==> decl.var < hir.variables@.len(),
        Node::Expr(expr) => expr.kind matches ExprKind::Ident(reses) ==> forall|j: int|
            0 <= j < reses@.len() && #[trigger] reses@[j] is Item && reses@[j]->Item_0 is Variable
                ==> reses@[j]->Item_0->Variable_0 < hir.variables@.len(),
    }
}

/// What the arguments name is in the table of variables.
pub open spec fn args_in_tables(hir: Hir, args: CallArgs) -> bool {
    match args {
        CallArgs::Unnamed(exprs) => forall|i: int|
            0 <= i < exprs@.len() ==> in_tables(
                hir,
                walk::expr_walk(Traversal::Everything, &#[trigger] exprs@[i]),
            ),
        CallArgs::Named(named) => forall|i: int|
            0 <= i < named@.len() ==> in_tables(
                hir,
                walk::expr_walk(Traversal::Everything, &(#[trigger] named@[i]).value),
            ),
    }
}

proof fn lemma_in_tables(hir: Hir, nodes: Seq<Node>)
    ensures
        resolve::nodes_resolve(hir, nodes) == in_tables(hir, nodes),
{
    assert forall|i: int| 0 <= i < nodes.len() implies resolve::node_resolves(
        hir,
        #[trigger] nodes[i],
    ) == (match nodes[i] {
        Node::Stmt(stmt) => stmt matches Stmt::DeclSingle(decl) ==> decl.var < hir.variables@.len(),
        Node::Expr(expr) => expr.kind matches ExprKind::Ident(reses) ==> forall|j: int|
            0 <= j < reses@.len() && #[trigger] reses@[j] is Item && reses@[j]->Item_0 is Variable
                ==> reses@[j]->Item_0->Variable_0 < hir.variables@.len(),
    }) by {}
}

proof fn lemma_args_in_tables(hir: Hir, args: CallArgs)
    ensures
        (forall|i: int|
            0 <= i < resolve::call_args(args).len() ==> resolve::expr_resolves(
                hir,
                #[trigger] resolve::call_args(args)[i],
            )) == args_in_tables(hir, args),
{
    assert forall|e: Expr| #[trigger] resolve::expr_resolves(hir, e) == in_tables(
        hir,
        walk::expr_walk(Traversal::Everything, &e),
    ) by {
        lemma_in_tables(hir, walk::expr_walk(Traversal::Everything, &e));
    }
    match args {
        CallArgs::Unnamed(exprs) => {
            assert(resolve::call_args(args) == exprs@);
        },
        CallArgs::Named(named) => {
            let values = resolve::call_args(args);
            assert forall|i: int| 0 <= i < named@.len() implies values[i] == (
            #[trigger] named@[i]).value by {}
            if args_in_tables(hir, args) {
                assert forall|i: int| 0 <= i < values.len() implies resolve::expr_resolves(
                    hir,
                    #[trigger] resolve::call_args(args)[i],
                ) by {
                    assert(values[i] == named@[i].value);
                }
            }
            if forall|i: int|
                0 <= i < values.len() ==> resolve::expr_resolves(
                    hir,
                    #[trigger] resolve::call_args(args)[i],
                ) {
                assert forall|i: int| 0 <= i < named@.len() implies in_tables(
                    hir,
                    walk::expr_walk(Traversal::Everything, &(#[trigger] named@[i]).value),
                ) by {
                    assert(resolve::expr_resolves(hir, resolve::call_args(args)[i]));
                }
            }
        },
    }
}

} // verus!
