//! What holds of names, and of conditions on the sender.

use vstd::prelude::*;

use crate::hir::{
    BinOpKind, Block, CallArgs, Expr, ExprKind, ItemId, NamedArg, Res, Stmt, UnOpKind, VariableId,
};
use crate::names;
use crate::parts;
use crate::reads;
use crate::sender;
use crate::walk::{self, Node, Traversal};

verus! {

/// A name is a guard call exactly when one of the things that it may refer to, whichever, is
/// the builtin `require` or the builtin `assert`.
pub proof fn law_guard_names(callee: Expr)
    ensures
        callee.kind matches ExprKind::Ident(reses) ==> (names::names_guard_builtin(callee)
            <==> exists|i: int|
            0 <= i < reses@.len() && #[trigger] reses@[i] is Builtin && (reses@[i]->Builtin_0@
                == "require"@ || reses@[i]->Builtin_0@ == "assert"@)),
        !(callee.kind is Ident) ==> !names::names_guard_builtin(callee),
{
}

/// An expression is `msg.sender` exactly when it selects `sender` from a bare name that may
/// refer to the builtin `msg`.
pub proof fn law_sender_name(expr: Expr)
    ensures
        names::names_msg_sender(expr) ==> expr.kind is Member,
        expr.kind matches ExprKind::Member(base, member) ==> (names::names_msg_sender(expr) <==> (
        member@ == "sender"@ && base.kind is Ident && exists|i: int|
            0 <= i < base.kind->Ident_0@.len() && #[trigger] base.kind->Ident_0@[i] is Builtin
                && base.kind->Ident_0@[i]->Builtin_0@ == "msg"@)),
{
    if let ExprKind::Member(base, _) = expr.kind {
        if let ExprKind::Ident(reses) = base.kind {
            if exists|i: int|
                0 <= i < reses@.len() && #[trigger] reses@[i] is Builtin
                    && reses@[i]->Builtin_0@ == "msg"@ {
                let i = choose|i: int|
                    0 <= i < reses@.len() && #[trigger] reses@[i] is Builtin
                        && reses@[i]->Builtin_0@ == "msg"@;
                assert(names::is_builtin(reses@[i], "msg"@));
            }
        }
    }
}

/// An expression mentions the sender exactly when it is `msg.sender` or one of its operands
/// mentions it: any operand, any argument, any option, any element.
pub proof fn law_sender_mentions(expr: Expr)
    ensures
        sender::mentions_sender(expr) <==> names::names_msg_sender(expr) || match expr.kind {
            ExprKind::Array(exprs) => exists|i: int|
                0 <= i < exprs@.len() && sender::mentions_sender(#[trigger] exprs@[i]),
            ExprKind::Assign(lhs, _, rhs) => sender::mentions_sender(*lhs)
                || sender::mentions_sender(*rhs),
            ExprKind::Binary(lhs, _, rhs) => sender::mentions_sender(*lhs)
                || sender::mentions_sender(*rhs),
            ExprKind::Call(callee, args, opts) => {
                ||| sender::mentions_sender(*callee)
                ||| args matches CallArgs::Unnamed(exprs) && exists|i: int|
                    0 <= i < exprs@.len() && sender::mentions_sender(#[trigger] exprs@[i])
                ||| args matches CallArgs::Named(named) && exists|i: int|
                    0 <= i < named@.len() && sender::mentions_sender((#[trigger] named@[i]).value)
                ||| opts matches Some(opts) && exists|i: int|
                    0 <= i < opts@.len() && sender::mentions_sender((#[trigger] opts@[i]).value)
            },
            ExprKind::Delete(inner) => sender::mentions_sender(*inner),
            ExprKind::Index(base, index) => sender::mentions_sender(*base)
                || (index is Some && sender::mentions_sender(*index->0)),
            ExprKind::Slice(base, start, end) => sender::mentions_sender(*base)
                || (start is Some && sender::mentions_sender(*start->0))
                || (end is Some && sender::mentions_sender(*end->0)),
            ExprKind::Member(inner, _) => sender::mentions_sender(*inner),
            ExprKind::Payable(inner) => sender::mentions_sender(*inner),
            ExprKind::Ternary(cond, then, other) => sender::mentions_sender(*cond)
                || sender::mentions_sender(*then)
                || sender::mentions_sender(*other),
            ExprKind::Tuple(exprs) => exists|i: int|
                0 <= i < exprs@.len()
                    && #[trigger] exprs@[i] is Some
                    && sender::mentions_sender(exprs@[i]->0),
            ExprKind::Unary(_, inner) => sender::mentions_sender(*inner),
            ExprKind::Ident(_) => false,
            ExprKind::Lit => false,
            ExprKind::New(_) => false,
            ExprKind::TypeCall(_) => false,
            ExprKind::Type(_) => false,
            ExprKind::Invalid => false,
        },
{
    let f = |node: Node| sender::is_sender_node(node);
    assert forall|e: Expr| #[trigger] sender::mentions_sender(e) == parts::asks(
        Traversal::Values,
        e,
        f,
    ) by {
        lemma_sender_asks(e);
    }
    parts::law_values(expr, f);
}

proof fn lemma_sender_asks(e: Expr)
    ensures
        sender::mentions_sender(e) == parts::asks(
            Traversal::Values,
            e,
            |node: Node| sender::is_sender_node(node),
        ),
{
    let nodes = walk::expr_walk(Traversal::Values, &e);
    let f = |node: Node| sender::is_sender_node(node);
    if sender::mentions_sender(e) {
        let i = choose|i: int| 0 <= i < nodes.len() && sender::is_sender_node(#[trigger] nodes[i]);
        assert(f(nodes[i]));
    }
}

/// An expression mentions a variable exactly when it is a name that may refer to it, as any of
/// its meanings, or one of its operands mentions it.
pub proof fn law_variable_mentions(expr: Expr, var: VariableId)
    ensures
        reads::mentions(expr, var) <==> match expr.kind {
            ExprKind::Array(exprs) => exists|i: int|
                0 <= i < exprs@.len() && reads::mentions(#[trigger] exprs@[i], var),
            ExprKind::Assign(lhs, _, rhs) => reads::mentions(*lhs, var)
                || reads::mentions(*rhs, var),
            ExprKind::Binary(lhs, _, rhs) => reads::mentions(*lhs, var)
                || reads::mentions(*rhs, var),
            ExprKind::Call(callee, args, opts) => {
                ||| reads::mentions(*callee, var)
                ||| args matches CallArgs::Unnamed(exprs) && exists|i: int|
                    0 <= i < exprs@.len() && reads::mentions(#[trigger] exprs@[i], var)
                ||| args matches CallArgs::Named(named) && exists|i: int|
                    0 <= i < named@.len() && reads::mentions((#[trigger] named@[i]).value, var)
                ||| opts matches Some(opts) && exists|i: int|
                    0 <= i < opts@.len() && reads::mentions((#[trigger] opts@[i]).value, var)
            },
            ExprKind::Delete(inner) => reads::mentions(*inner, var),
            ExprKind::Index(base, index) => reads::mentions(*base, var)
                || (index is Some && reads::mentions(*index->0, var)),
            ExprKind::Slice(base, start, end) => reads::mentions(*base, var)
                || (start is Some && reads::mentions(*start->0, var))
                || (end is Some && reads::mentions(*end->0, var)),
            ExprKind::Member(inner, _) => reads::mentions(*inner, var),
            ExprKind::Payable(inner) => reads::mentions(*inner, var),
            ExprKind::Ternary(cond, then, other) => reads::mentions(*cond, var)
                || reads::mentions(*then, var)
                || reads::mentions(*other, var),
            ExprKind::Tuple(exprs) => exists|i: int|
                0 <= i < exprs@.len()
                    && #[trigger] exprs@[i] is Some
                    && reads::mentions(exprs@[i]->0, var),
            ExprKind::Unary(_, inner) => reads::mentions(*inner, var),
            ExprKind::Ident(reses) => exists|i: int|
                0 <= i < reses@.len() && #[trigger] reses@[i] == Res::Item(ItemId::Variable(var)),
            ExprKind::Lit => false,
            ExprKind::New(_) => false,
            ExprKind::TypeCall(_) => false,
            ExprKind::Type(_) => false,
            ExprKind::Invalid => false,
        },
{
    let f = |node: Node| reads::node_names(node, var);
    assert forall|e: Expr| #[trigger] reads::mentions(e, var) == parts::asks(
        Traversal::Values,
        e,
        f,
    ) by {
        lemma_mention_asks(e, var);
    }
    parts::law_values(expr, f);
}

proof fn lemma_mention_asks(e: Expr, var: VariableId)
    ensures
        reads::mentions(e, var) == parts::asks(
            Traversal::Values,
            e,
            |node: Node| reads::node_names(node, var),
        ),
{
    let nodes = walk::expr_walk(Traversal::Values, &e);
    let f = |node: Node| reads::node_names(node, var);
    if reads::mentions(e, var) {
        let i = choose|i: int| 0 <= i < nodes.len() && reads::node_names(#[trigger] nodes[i], var);
        assert(f(nodes[i]));
    }
}

/// `a == b` holds for the sender and `a != b` fails for it, on whichever side the sender is
/// mentioned; no other comparison, and none without the sender, is read at all.
pub proof fn law_sender_comparison(cond: Expr, lhs: Expr, op: BinOpKind, rhs: Expr)
    requires
        cond.kind == ExprKind::Binary(Box::new(lhs), op, Box::new(rhs)),
    ensures
        (sender::mentions_sender(lhs) || sender::mentions_sender(rhs)) && op is Eq
            ==> sender::allows(cond) == Some(true),
        (sender::mentions_sender(lhs) || sender::mentions_sender(rhs)) && op is Ne
            ==> sender::allows(cond) == Some(false),
        !(op is Eq) && !(op is Ne) ==> sender::allows(cond) is None,
        !sender::mentions_sender(lhs) && !sender::mentions_sender(rhs) ==> sender::allows(
            cond,
        ) is None,
{
}

/// Swapping the sides of a comparison changes neither how it is read nor, where only one side
/// mentions the sender, what it compares.
pub proof fn law_swapped_comparison(
    cond: Expr,
    swapped: Expr,
    lhs: Expr,
    op: BinOpKind,
    rhs: Expr,
    var: VariableId,
)
    requires
        cond.kind == ExprKind::Binary(Box::new(lhs), op, Box::new(rhs)),
        swapped.kind == ExprKind::Binary(Box::new(rhs), op, Box::new(lhs)),
    ensures
        sender::allows(cond) == sender::allows(swapped),
        !(sender::mentions_sender(lhs) && sender::mentions_sender(rhs)) ==> reads::compares(
            cond,
            var,
        ) == reads::compares(swapped, var),
{
}

/// A call or a lookup holds for the sender exactly when it mentions the sender, wherever.
pub proof fn law_membership(cond: Expr)
    requires
        cond.kind is Call || cond.kind is Index,
    ensures
        sender::mentions_sender(cond) ==> sender::allows(cond) == Some(true),
        !sender::mentions_sender(cond) ==> sender::allows(cond) is None,
{
}

/// `!` turns the reading round; where there is none, the negation of a mention of the sender
/// fails for it.
pub proof fn law_negated_condition(outer: Expr, inner: Expr)
    requires
        outer.kind == ExprKind::Unary(UnOpKind::Not, Box::new(inner)),
    ensures
        sender::allows(inner) == Some(true) ==> sender::allows(outer) == Some(false),
        sender::allows(inner) == Some(false) ==> sender::allows(outer) == Some(true),
        sender::allows(inner) is None && sender::mentions_sender(inner) ==> sender::allows(outer)
            == Some(false),
        !sender::mentions_sender(inner) ==> sender::allows(outer) is None,
{
    law_silent_condition(inner);
}

/// A condition that does not mention the sender is not read as one on the sender.
pub proof fn law_silent_condition(cond: Expr)
    ensures
        !sender::mentions_sender(cond) ==> sender::allows(cond) is None,
    decreases cond,
{
    law_sender_mentions(cond);
    match cond.kind {
        ExprKind::Tuple(exprs) => {
            if exprs@.len() == 1 && exprs@[0] is Some {
                law_silent_condition(exprs@[0]->0);
            }
        },
        ExprKind::Unary(_, inner) => law_silent_condition(*inner),
        _ => {},
    }
}

/// Only comparisons, calls, lookups, negations, and these in parentheses are read.
pub proof fn law_unread_conditions(cond: Expr)
    requires
        sender::allows(cond) is Some,
    ensures
        match cond.kind {
            ExprKind::Binary(_, op, _) => op is Eq || op is Ne,
            ExprKind::Call(_, _, _) => true,
            ExprKind::Index(_, _) => true,
            ExprKind::Unary(op, _) => op is Not,
            ExprKind::Tuple(exprs) => exprs@.len() == 1 && exprs@[0] is Some,
            _ => false,
        },
{
}

/// Braces change nothing: a block, checked or not, exits exactly when its last statement does,
/// whatever comes before it, and an empty one does not.
pub proof fn law_block_exits(block: Block)
    ensures
        block.stmts@.len() == 0 ==> !sender::exits(Stmt::Block(block)),
        block.stmts@.len() == 0 ==> !sender::exits(Stmt::UncheckedBlock(block)),
        block.stmts@.len() > 0 ==> sender::exits(Stmt::Block(block)) == sender::exits(
            block.stmts@[block.stmts@.len() - 1],
        ),
        block.stmts@.len() > 0 ==> sender::exits(Stmt::UncheckedBlock(block)) == sender::exits(
            block.stmts@[block.stmts@.len() - 1],
        ),
{
}

/// A return and a revert exit, with whatever they hold.
pub proof fn law_leaving_exits(value: Option<Box<Expr>>, error: Box<Expr>)
    ensures
        sender::exits(Stmt::Return(value)),
        sender::exits(Stmt::Revert(error)),
{
}

/// An `if` exits exactly when it has two branches and both do, whatever its condition.
pub proof fn law_branch_exits(cond: Box<Expr>, then: Box<Stmt>, other: Option<Box<Stmt>>)
    ensures
        sender::exits(Stmt::If(cond, then, other)) <==> other is Some && sender::exits(*then)
            && sender::exits(*other->0),
{
}

/// Nothing but a return, a revert, a block or an `if` with two branches exits.
pub proof fn law_passing_statements(stmt: Stmt)
    requires
        sender::exits(stmt),
    ensures
        stmt is Return || stmt is Revert || stmt is Block || stmt is UncheckedBlock || (stmt is If
            && stmt->If_2 is Some),
{
}

/// A conjunction or a disjunction compares the sender with a variable exactly when one of its
/// sides does, whatever the other side is.
pub proof fn law_connectives(cond: Expr, lhs: Expr, op: BinOpKind, rhs: Expr, var: VariableId)
    requires
        cond.kind == ExprKind::Binary(Box::new(lhs), op, Box::new(rhs)),
        op is And || op is Or,
    ensures
        reads::compares(cond, var) <==> reads::compares(lhs, var) || reads::compares(rhs, var),
{
}

/// An equality or inequality with the sender on one side compares the sender with what the other
/// side mentions, and with nothing else; with the sender on neither side, with what its sides
/// compare it with; with the sender on both, with what the right side mentions.
pub proof fn law_compared_sides(cond: Expr, lhs: Expr, op: BinOpKind, rhs: Expr, var: VariableId)
    requires
        cond.kind == ExprKind::Binary(Box::new(lhs), op, Box::new(rhs)),
        op is Eq || op is Ne,
    ensures
        sender::mentions_sender(lhs) ==> reads::compares(cond, var) == reads::mentions(rhs, var),
        !sender::mentions_sender(lhs) && sender::mentions_sender(rhs) ==> reads::compares(cond, var)
            == reads::mentions(lhs, var),
        !sender::mentions_sender(lhs) && !sender::mentions_sender(rhs) ==> (reads::compares(
            cond,
            var,
        ) <==> reads::compares(lhs, var) || reads::compares(rhs, var)),
{
}

/// No other binary operator compares the sender with anything.
pub proof fn law_other_operators(cond: Expr, lhs: Expr, op: BinOpKind, rhs: Expr, var: VariableId)
    requires
        cond.kind == ExprKind::Binary(Box::new(lhs), op, Box::new(rhs)),
        reads::compares(cond, var),
    ensures
        op is Eq || op is Ne || op is And || op is Or,
{
}

/// A unary operator, `payable(..)` and a member access compare what is inside them, and a tuple
/// what any of its elements compares.
pub proof fn law_wrapped_comparisons(cond: Expr, var: VariableId)
    ensures
        match cond.kind {
            ExprKind::Unary(_, inner) => reads::compares(cond, var) == reads::compares(*inner, var),
            ExprKind::Payable(inner) => reads::compares(cond, var) == reads::compares(*inner, var),
            ExprKind::Member(inner, _) => reads::compares(cond, var) == reads::compares(
                *inner,
                var,
            ),
            ExprKind::Tuple(exprs) => reads::compares(cond, var) <==> exists|i: int|
                0 <= i < exprs@.len() && #[trigger] exprs@[i] is Some && reads::compares(
                    exprs@[i]->0,
                    var,
                ),
            _ => true,
        },
{
    if let ExprKind::Tuple(exprs) = cond.kind {
        if reads::compares(cond, var) {
            let i = choose|i: int|
                0 <= i < exprs@.len() && match #[trigger] exprs@[i] {
                    Some(inner) => reads::compares(inner, var),
                    None => false,
                };
            assert(exprs@[i] is Some && reads::compares(exprs@[i]->0, var));
        }
    }
}

/// A call compares the sender with what any of its arguments compares it with, positional or
/// named, and with what its callee looks the sender up in; its options do not matter.
pub proof fn law_compared_calls(
    cond: Expr,
    callee: Expr,
    args: CallArgs,
    opts: Option<Vec<NamedArg>>,
    var: VariableId,
)
    requires
        cond.kind == ExprKind::Call(Box::new(callee), args, opts),
    ensures
        reads::compares(cond, var) <==> {
            ||| callee.kind is Index && callee.kind->Index_1 is Some && sender::mentions_sender(
                *callee.kind->Index_1->0,
            ) && reads::mentions(*callee.kind->Index_0, var)
            ||| args matches CallArgs::Unnamed(exprs) && exists|i: int|
                0 <= i < exprs@.len() && reads::compares(#[trigger] exprs@[i], var)
            ||| args matches CallArgs::Named(named) && exists|i: int|
                0 <= i < named@.len() && reads::compares((#[trigger] named@[i]).value, var)
        },
{
}

/// Nothing else compares the sender with anything: not a bare name, a bare lookup, a ternary, an
/// assignment, a literal, or a type.
pub proof fn law_comparing_conditions(cond: Expr, var: VariableId)
    requires
        reads::compares(cond, var),
    ensures
        cond.kind is Binary || cond.kind is Call || cond.kind is Unary || cond.kind is Payable
            || cond.kind is Member || cond.kind is Tuple,
{
}

/// A condition compares the sender only with variables that it mentions, and only if it mentions
/// the sender.
pub proof fn law_comparisons_mention(cond: Expr, var: VariableId)
    ensures
        reads::compares(cond, var) ==> reads::mentions(cond, var) && sender::mentions_sender(cond),
    decreases cond,
{
    law_sender_mentions(cond);
    law_variable_mentions(cond, var);
    if reads::compares(cond, var) {
        match cond.kind {
            ExprKind::Binary(lhs, _, rhs) => {
                law_comparisons_mention(*lhs, var);
                law_comparisons_mention(*rhs, var);
            },
            ExprKind::Call(callee, args, _) => {
                law_sender_mentions(*callee);
                law_variable_mentions(*callee, var);
                if !reads::looks_up_sender(*callee, var) {
                    match args {
                        CallArgs::Unnamed(exprs) => {
                            let i = choose|i: int|
                                0 <= i < exprs@.len() && reads::compares(#[trigger] exprs@[i], var);
                            law_comparisons_mention(exprs@[i], var);
                        },
                        CallArgs::Named(named) => {
                            let i = choose|i: int|
                                0 <= i < named@.len() && reads::compares(
                                    (#[trigger] named@[i]).value,
                                    var,
                                );
                            law_comparisons_mention(named@[i].value, var);
                        },
                    }
                }
            },
            ExprKind::Unary(_, inner) => law_comparisons_mention(*inner, var),
            ExprKind::Payable(inner) => law_comparisons_mention(*inner, var),
            ExprKind::Member(inner, _) => law_comparisons_mention(*inner, var),
            ExprKind::Tuple(exprs) => {
                let i = choose|i: int|
                    0 <= i < exprs@.len() && match #[trigger] exprs@[i] {
                        Some(inner) => reads::compares(inner, var),
                        None => false,
                    };
                law_comparisons_mention(exprs@[i]->0, var);
            },
            _ => {},
        }
    }
}

} // verus!
