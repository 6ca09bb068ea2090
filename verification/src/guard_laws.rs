//! What holds of guards, of protected functions, and of emitted events.

use vstd::prelude::*;

use crate::authority;
use crate::events;
use crate::gate;
use crate::hir::{
    BinOpKind, Block, CallArgs, Expr, ExprKind, Function, FunctionKind, Hir, NamedArg,
    StateMutability, Stmt, TypeForm, VarKind, VariableId, Visibility,
};
use crate::lint;
use crate::names;
use crate::parts;
use crate::reads;
use crate::sender;
use crate::vars;
use crate::walk::{self, Node, Traversal};

verus! {

/// A variable of an address type is either state or local, by its kind alone; a variable of any
/// other type is neither.
pub proof fn law_address_variables(hir: Hir, var: VariableId)
    ensures
        vars::address_state_var(hir, var) <==> hir.variables@[var as int].ty == TypeForm::Address
            && hir.variables@[var as int].kind == VarKind::State,
        vars::address_local(hir, var) <==> hir.variables@[var as int].ty == TypeForm::Address
            && hir.variables@[var as int].kind != VarKind::State,
{
}

/// The lint looks into external and public functions, payable or not, and into nothing else: no
/// constructor, fallback, receive function or modifier, and nothing internal, private, view or
/// pure.
pub proof fn law_entry_points(func: Function)
    ensures
        lint::entry_point(func) <==> func.kind == FunctionKind::Function && (func.visibility
            == Visibility::Public || func.visibility == Visibility::External) && (
        func.state_mutability == StateMutability::Payable || func.state_mutability
            == StateMutability::NonPayable),
{
}

/// A condition tests an authority exactly when it compares the sender with some variable of an
/// address type that is state or, where that is allowed, a parameter.
pub proof fn law_tested_authorities(hir: Hir, cond: Expr, allow_params: bool)
    ensures
        gate::tests_authority(hir, cond, allow_params) <==> exists|var: VariableId|
            #[trigger] reads::compares(cond, var) && hir.variables@[var as int].ty
                == TypeForm::Address && (hir.variables@[var as int].kind == VarKind::State || (
            allow_params && hir.variables@[var as int].kind == VarKind::FunctionParam)),
{
    if exists|var: VariableId| #[trigger]
        reads::compares(cond, var) && hir.variables@[var as int].ty == TypeForm::Address && (
        hir.variables@[var as int].kind == VarKind::State || (allow_params
            && hir.variables@[var as int].kind == VarKind::FunctionParam)) {
        let var = choose|var: VariableId| #[trigger]
            reads::compares(cond, var) && hir.variables@[var as int].ty == TypeForm::Address && (
            hir.variables@[var as int].kind == VarKind::State || (allow_params
                && hir.variables@[var as int].kind == VarKind::FunctionParam));
        assert(gate::can_be_authority(hir, var, allow_params));
    }
}

/// A conjunction or a disjunction tests an authority exactly when one of its sides does.
pub proof fn law_tested_connectives(
    hir: Hir,
    cond: Expr,
    lhs: Expr,
    op: BinOpKind,
    rhs: Expr,
    allow_params: bool,
)
    requires
        cond.kind == ExprKind::Binary(Box::new(lhs), op, Box::new(rhs)),
        op is And || op is Or,
    ensures
        gate::tests_authority(hir, cond, allow_params) <==> gate::tests_authority(
            hir,
            lhs,
            allow_params,
        ) || gate::tests_authority(hir, rhs, allow_params),
{
    if gate::tests_authority(hir, cond, allow_params) {
        let var = choose|var: VariableId| #[trigger]
            reads::compares(cond, var) && gate::can_be_authority(hir, var, allow_params);
        assert(reads::compares(lhs, var) || reads::compares(rhs, var));
    }
    if gate::tests_authority(hir, lhs, allow_params) {
        let var = choose|var: VariableId| #[trigger]
            reads::compares(lhs, var) && gate::can_be_authority(hir, var, allow_params);
        assert(reads::compares(cond, var));
    }
    if gate::tests_authority(hir, rhs, allow_params) {
        let var = choose|var: VariableId| #[trigger]
            reads::compares(rhs, var) && gate::can_be_authority(hir, var, allow_params);
        assert(reads::compares(cond, var));
    }
}

/// An `if` on an authority is a guard exactly when the branch that the others take exits: the
/// `else` where the condition holds for the sender, the first branch where it fails for it.
pub proof fn law_if_guards(
    hir: Hir,
    stmt: &Stmt,
    cond: Expr,
    then: Stmt,
    other: Option<Box<Stmt>>,
    allow_params: bool,
)
    requires
        *stmt == Stmt::If(Box::new(cond), Box::new(then), other),
    ensures
        gate::node_gates(hir, Node::Stmt(stmt), allow_params) <==> gate::tests_authority(
            hir,
            cond,
            allow_params,
        ) && {
            ||| sender::allows(cond) == Some(false) && sender::exits(then)
            ||| sender::allows(cond) == Some(true) && other is Some && sender::exits(*other->0)
        },
{
}

/// A call is a guard exactly when it is one of `require` or `assert` whose first argument,
/// positional or named, tests an authority.
pub proof fn law_call_guards(
    hir: Hir,
    expr: &Expr,
    callee: Expr,
    args: CallArgs,
    opts: Option<Vec<NamedArg>>,
    allow_params: bool,
)
    requires
        expr.kind == ExprKind::Call(Box::new(callee), args, opts),
    ensures
        gate::node_gates(hir, Node::Expr(expr), allow_params) <==> names::names_guard_builtin(
            callee,
        ) && {
            ||| args matches CallArgs::Unnamed(exprs) && exprs@.len() > 0 && gate::tests_authority(
                hir,
                exprs@[0],
                allow_params,
            )
            ||| args matches CallArgs::Named(named) && named@.len() > 0 && gate::tests_authority(
                hir,
                named@[0].value,
                allow_params,
            )
        },
{
}

/// Whether a `require` or `assert` call is a guard, and what it compares the sender with, depend
/// on its first argument alone: neither further arguments nor options matter.
pub proof fn law_further_arguments(
    hir: Hir,
    a: &Expr,
    b: &Expr,
    callee: Expr,
    first: Seq<Expr>,
    second: Seq<Expr>,
    allow_params: bool,
    var: VariableId,
)
    requires
        a.kind matches ExprKind::Call(callee_a, CallArgs::Unnamed(exprs), _) && *callee_a == callee
            && exprs@ == first,
        b.kind matches ExprKind::Call(callee_b, CallArgs::Unnamed(exprs), _) && *callee_b == callee
            && exprs@ == second,
        first.len() > 0,
        second.len() > 0,
        first[0] == second[0],
    ensures
        gate::node_gates(hir, Node::Expr(a), allow_params) == gate::node_gates(
            hir,
            Node::Expr(b),
            allow_params,
        ),
        authority::node_guards_by(hir, Node::Expr(a), var) == authority::node_guards_by(
            hir,
            Node::Expr(b),
            var,
        ),
{
}

/// Nothing but an `if` and a call of `require` or `assert` is a guard.
pub proof fn law_guard_shapes(hir: Hir, node: Node, allow_params: bool)
    requires
        gate::node_gates(hir, node, allow_params),
    ensures
        match node {
            Node::Stmt(stmt) => stmt is If,
            Node::Expr(expr) => expr.kind is Call && names::names_guard_builtin(
                *expr.kind->Call_0,
            ),
        },
{
}

/// A guard compares the sender with a variable exactly when its condition does.
pub proof fn law_guarding_nodes(hir: Hir, node: Node, var: VariableId)
    ensures
        authority::node_guards_by(hir, node, var) <==> gate::node_gates(hir, node, true)
            && match node {
            Node::Stmt(stmt) => stmt is If && reads::compares(*stmt->If_0, var),
            Node::Expr(expr) => match expr.kind {
                ExprKind::Call(_, CallArgs::Unnamed(exprs), _) => exprs@.len() > 0
                    && reads::compares(exprs@[0], var),
                ExprKind::Call(_, CallArgs::Named(named), _) => named@.len() > 0
                    && reads::compares(named@[0].value, var),
                _ => false,
            },
        },
{
}

/// A block has a guard exactly when one of its statements holds one, at any depth.
pub proof fn law_guarded_blocks(hir: Hir, block: Block, allow_params: bool)
    ensures
        gate::block_gates(hir, block, allow_params) <==> exists|i: int|
            0 <= i < block.stmts@.len() && parts::asks_stmt(
                Traversal::Everything,
                #[trigger] block.stmts@[i],
                |node: Node| gate::node_gates(hir, node, allow_params),
            ),
{
    let f = |node: Node| gate::node_gates(hir, node, allow_params);
    let nodes = walk::stmts_walk(Traversal::Everything, block.stmts@);
    parts::law_statements(Traversal::Everything, block.stmts@, f);
    if gate::block_gates(hir, block, allow_params) {
        let i = choose|i: int|
            0 <= i < nodes.len() && gate::node_gates(hir, #[trigger] nodes[i], allow_params);
        assert(f(nodes[i]));
        assert(parts::some(nodes, f));
    }
    if parts::some(nodes, f) {
        let i = choose|i: int| 0 <= i < nodes.len() && f(#[trigger] nodes[i]);
        assert(gate::node_gates(hir, nodes[i], allow_params));
    }
}

/// A statement in a block, wherever it stands, that is itself a guard or holds one in its
/// expression makes the block a guarded one.
pub proof fn law_guard_statements(hir: Hir, block: Block, i: int, allow_params: bool)
    requires
        0 <= i < block.stmts@.len(),
        gate::node_gates(hir, Node::Stmt(&block.stmts@[i]), allow_params) || (
        block.stmts@[i] matches Stmt::Expr(expr) && gate::node_gates(
            hir,
            Node::Expr(&*expr),
            allow_params,
        )),
    ensures
        gate::block_gates(hir, block, allow_params),
{
    let f = |node: Node| gate::node_gates(hir, node, allow_params);
    law_guarded_blocks(hir, block, allow_params);
    parts::law_statement(Traversal::Everything, block.stmts@[i], f);
    if let Stmt::Expr(expr) = block.stmts@[i] {
        parts::law_everything(*expr, f);
    }
    assert(parts::asks_stmt(Traversal::Everything, block.stmts@[i], f));
}

/// A function is protected exactly when its own body has a guard, or some modifier that it
/// invokes has one, whichever and however many there are.
pub proof fn law_protection(hir: Hir, func: Function)
    ensures
        gate::protected(hir, func) <==> {
            ||| func.body is Some && gate::block_gates(hir, func.body->0, false)
            ||| exists|i: int|
                0 <= i < func.modifiers@.len() && (#[trigger] func.modifiers@[i]).id is Function
                    && hir.functions@[func.modifiers@[i].id->Function_0 as int].body is Some
                    && gate::block_gates(
                    hir,
                    hir.functions@[func.modifiers@[i].id->Function_0 as int].body->0,
                    true,
                )
        },
{
}

/// Further invocations, in whatever order, never take protection away.
pub proof fn law_more_modifiers(hir: Hir, few: Function, many: Function)
    requires
        few.body == many.body,
        forall|i: int|
            0 <= i < few.modifiers@.len() ==> many.modifiers@.contains(
                #[trigger] few.modifiers@[i],
            ),
        gate::protected(hir, few),
    ensures
        gate::protected(hir, many),
{
    if exists|i: int|
        0 <= i < few.modifiers@.len() && gate::invocation_gates(
            hir,
            (#[trigger] few.modifiers@[i]).id,
        ) {
        let i = choose|i: int|
            0 <= i < few.modifiers@.len() && gate::invocation_gates(
                hir,
                (#[trigger] few.modifiers@[i]).id,
            );
        assert(many.modifiers@.contains(few.modifiers@[i]));
        let j = choose|j: int|
            0 <= j < many.modifiers@.len() && many.modifiers@[j] == few.modifiers@[i];
        assert(gate::invocation_gates(hir, many.modifiers@[j].id));
    }
}

/// A block emits an event exactly when an `emit` statement stands in it, at any depth.
pub proof fn law_emitting_blocks(block: Block)
    ensures
        events::block_emits(block) <==> exists|i: int|
            0 <= i < block.stmts@.len() && parts::asks_stmt(
                Traversal::Everything,
                #[trigger] block.stmts@[i],
                |node: Node| node is Stmt && node->Stmt_0 is Emit,
            ),
{
    let f = |node: Node| node is Stmt && node->Stmt_0 is Emit;
    let nodes = walk::stmts_walk(Traversal::Everything, block.stmts@);
    parts::law_statements(Traversal::Everything, block.stmts@, f);
    if events::block_emits(block) {
        let i = choose|i: int| 0 <= i < nodes.len() && events::node_emits(#[trigger] nodes[i]);
        assert(f(nodes[i]));
        assert(parts::some(nodes, f));
    }
    if parts::some(nodes, f) {
        let i = choose|i: int| 0 <= i < nodes.len() && f(#[trigger] nodes[i]);
        assert(events::node_emits(nodes[i]));
    }
}

/// The statements that emit: an `emit`, and any statement with one in a block, a loop, a branch
/// or a clause of it.
pub proof fn law_emitting_statements(block: Block, i: int)
    requires
        0 <= i < block.stmts@.len(),
        match block.stmts@[i] {
            Stmt::Emit(_) => true,
            Stmt::Block(inner) => events::block_emits(inner),
            Stmt::UncheckedBlock(inner) => events::block_emits(inner),
            Stmt::Loop(inner) => events::block_emits(inner),
            Stmt::If(_, then, other) => *then is Emit || (*then matches Stmt::Block(inner)
                && events::block_emits(inner)) || (other is Some && (*other->0 is Emit || (
            *other->0 matches Stmt::Block(inner) && events::block_emits(inner)))),
            Stmt::Try(_, clauses) => exists|j: int|
                0 <= j < clauses@.len() && events::block_emits((#[trigger] clauses@[j]).block),
            _ => false,
        },
    ensures
        events::block_emits(block),
{
    let f = |node: Node| node is Stmt && node->Stmt_0 is Emit;
    let t = Traversal::Everything;
    law_emitting_blocks(block);
    parts::law_statement(t, block.stmts@[i], f);
    match block.stmts@[i] {
        Stmt::Block(inner) => law_emitting_blocks(inner),
        Stmt::UncheckedBlock(inner) => law_emitting_blocks(inner),
        Stmt::Loop(inner) => law_emitting_blocks(inner),
        Stmt::If(_, then, other) => {
            parts::law_statement(t, *then, f);
            if let Stmt::Block(inner) = *then {
                law_emitting_blocks(inner);
            }
            if let Some(other) = other {
                parts::law_statement(t, *other, f);
                if let Stmt::Block(inner) = *other {
                    law_emitting_blocks(inner);
                }
            }
        },
        Stmt::Try(_, clauses) => {
            let j = choose|j: int|
                0 <= j < clauses@.len() && events::block_emits((#[trigger] clauses@[j]).block);
            law_emitting_blocks(clauses@[j].block);
            assert(parts::asks_clause(t, clauses@[j], f));
        },
        _ => {},
    }
    assert(parts::asks_stmt(t, block.stmts@[i], f));
}

/// A function emits exactly when its own body does, or some modifier that it invokes does,
/// whichever; and then nothing in it is reported.
pub proof fn law_emitting_functions(hir: Hir, func: Function)
    ensures
        lint::emits(hir, func) <==> {
            ||| func.body is Some && events::block_emits(func.body->0)
            ||| exists|i: int|
                0 <= i < func.modifiers@.len() && (#[trigger] func.modifiers@[i]).id is Function
                    && hir.functions@[func.modifiers@[i].id->Function_0 as int].body is Some
                    && events::block_emits(
                    hir.functions@[func.modifiers@[i].id->Function_0 as int].body->0,
                )
        },
        lint::emits(hir, func) ==> lint::findings_of(hir, func).len() == 0,
{
}

} // verus!
