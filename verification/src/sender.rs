//! What a condition says of `msg.sender`, and which statements leave the function.

use vstd::prelude::*;

use crate::hir::{BinOpKind, Block, Expr, ExprKind, Stmt, UnOpKind};
use crate::names::{self, is_msg_sender};
use crate::walk::{self, walk_expr, Node, Traversal};

verus! {

/// The node is `msg.sender`.
pub open spec fn is_sender_node(node: Node) -> bool {
    node matches Node::Expr(expr) && names::names_msg_sender(*expr)
}

/// One of the values that the expression is made of is `msg.sender`.
pub open spec fn mentions_sender(expr: Expr) -> bool {
    let nodes = walk::expr_walk(Traversal::Values, &expr);
    exists|i: int| 0 <= i < nodes.len() && is_sender_node(#[trigger] nodes[i])
}

/// Whether the condition holds for the senders that it speaks of (`Some(true)`) or fails for
/// them (`Some(false)`); `None` where its shape says neither.
///
/// Parentheses do not count. `a == b` and `a != b` are read where a side mentions the sender;
/// a call or a lookup that mentions the sender is read as a membership test; `!` turns the
/// answer round, and the negation of any other mention of the sender fails for it.
pub open spec fn allows(cond: Expr) -> Option<bool>
    decreases cond,
{
    match cond.kind {
        ExprKind::Tuple(exprs) => if exprs@.len() == 1 {
            match exprs@[0] {
                Some(inner) => allows(inner),
                None => None,
            }
        } else {
            None
        },
        ExprKind::Binary(lhs, op, rhs) => if mentions_sender(*lhs) || mentions_sender(*rhs) {
            match op {
                BinOpKind::Eq => Some(true),
                BinOpKind::Ne => Some(false),
                _ => None,
            }
        } else {
            None
        },
        ExprKind::Unary(UnOpKind::Not, inner) => match allows(*inner) {
            Some(answer) => Some(!answer),
            None => if mentions_sender(*inner) {
                Some(false)
            } else {
                None
            },
        },
        ExprKind::Call(_, _, _) | ExprKind::Index(_, _) => if mentions_sender(cond) {
            Some(true)
        } else {
            None
        },
        _ => None,
    }
}

/// Control never passes the statement: it returns, reverts, ends in a statement that exits, or
/// branches into two that do.
pub open spec fn exits(stmt: Stmt) -> bool
    decreases stmt,
{
    match stmt {
        Stmt::Return(_) | Stmt::Revert(_) => true,
        Stmt::Block(block) => block.stmts@.len() > 0 && exits(block.stmts@.last()),
        Stmt::UncheckedBlock(block) => block.stmts@.len() > 0 && exits(block.stmts@.last()),
        Stmt::If(_, then, Some(other)) => exits(*then) && exits(*other),
        _ => false,
    }
}

/// Looks for `msg.sender` among the values that the expression is made of.
pub fn contains_msg_sender(expr: &Expr) -> (found: bool)
    ensures
        found == mentions_sender(*expr),
{
    let mut nodes: Vec<Node> = Vec::new();
    walk_expr(Traversal::Values, expr, &mut nodes);
    assert(nodes@ == walk::expr_walk(Traversal::Values, expr));
    for i in 0..nodes.len()
        invariant
            nodes@ == walk::expr_walk(Traversal::Values, expr),
            forall|j: int| 0 <= j < i ==> !is_sender_node(#[trigger] nodes@[j]),
    {
        if let Node::Expr(part) = nodes[i] {
            if is_msg_sender(part) {
                assert(is_sender_node(nodes@[i as int]));
                return true;
            }
        }
    }
    false
}

/// Reads a condition as a test of `msg.sender`.
pub fn sender_condition_allows(cond: &Expr) -> (answer: Option<bool>)
    ensures
        answer == allows(*cond),
    decreases cond,
{
    match &cond.kind {
        ExprKind::Tuple(exprs) => {
            if exprs.len() == 1 {
                if let Some(inner) = &exprs[0] {
                    return sender_condition_allows(inner);
                }
            }
            None
        },
        ExprKind::Binary(lhs, op, rhs) => {
            if contains_msg_sender(lhs) || contains_msg_sender(rhs) {
                match op {
                    BinOpKind::Eq => Some(true),
                    BinOpKind::Ne => Some(false),
                    _ => None,
                }
            } else {
                None
            }
        },
        ExprKind::Unary(op, inner) => {
            if *op != UnOpKind::Not {
                return None;
            }
            match sender_condition_allows(inner) {
                Some(answer) => Some(!answer),
                None => if contains_msg_sender(inner) {
                    Some(false)
                } else {
                    None
                },
            }
        },
        ExprKind::Call(_, _, _) | ExprKind::Index(_, _) => {
            if contains_msg_sender(cond) {
                Some(true)
            } else {
                None
            }
        },
        _ => None,
    }
}

/// Identifies statements that stop execution before a later write can run.
pub fn stmt_exits(stmt: &Stmt) -> (result: bool)
    ensures
        result == exits(*stmt),
    decreases stmt,
{
    match stmt {
        Stmt::Return(_) | Stmt::Revert(_) => true,
        Stmt::Block(block) | Stmt::UncheckedBlock(block) => block_exits(block),
        Stmt::If(_, then, Some(other)) => stmt_exits(then) && stmt_exits(other),
        _ => false,
    }
}

/// A block exits if its final statement does.
pub fn block_exits(block: &Block) -> (result: bool)
    ensures
        result == (block.stmts@.len() > 0 && exits(block.stmts@.last())),
    decreases block,
{
    let count = block.stmts.len();
    count > 0 && stmt_exits(&block.stmts[count - 1])
}

} // verus!
