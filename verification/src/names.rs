//! The names that the lint knows: the guard builtins and `msg.sender`.

use vstd::prelude::*;

use crate::hir::{Expr, ExprKind, Res};

verus! {

/// `res` is the compiler builtin called `name`.
pub open spec fn is_builtin(res: Res, name: Seq<char>) -> bool {
    res matches Res::Builtin(builtin) && builtin@ == name
}

/// The name may refer to the builtin `require` or the builtin `assert`.
pub open spec fn names_guard_builtin(callee: Expr) -> bool {
    &&& callee.kind matches ExprKind::Ident(reses)
    &&& exists|i: int|
        0 <= i < reses@.len() && (is_builtin(#[trigger] reses@[i], "require"@) || is_builtin(
            reses@[i],
            "assert"@,
        ))
}

/// The expression is the member `sender` of the builtin `msg`.
pub open spec fn names_msg_sender(expr: Expr) -> bool {
    &&& expr.kind matches ExprKind::Member(base, member)
    &&& member@ == "sender"@
    &&& base.kind matches ExprKind::Ident(reses)
    &&& exists|i: int| 0 <= i < reses@.len() && is_builtin(#[trigger] reses@[i], "msg"@)
}

/// Only Solidity builtins are guard calls; functions of the program called `require` or
/// `assert` are not.
#[verifier::loop_isolation(false)]
pub fn is_require_or_assert(callee: &Expr) -> (found: bool)
    ensures
        found == names_guard_builtin(*callee),
{
    let require = "require".to_owned();
    let assertion = "assert".to_owned();
    if let ExprKind::Ident(reses) = &callee.kind {
        for i in 0..reses.len()
            invariant
                forall|j: int|
                    0 <= j < i ==> !is_builtin(#[trigger] reses@[j], "require"@) && !is_builtin(
                        reses@[j],
                        "assert"@,
                    ),
        {
            if let Res::Builtin(name) = &reses[i] {
                if *name == require || *name == assertion {
                    return true;
                }
            }
        }
    }
    false
}

/// Matches the builtin member access exactly, not a variable of the program called `msg`.
#[verifier::loop_isolation(false)]
pub fn is_msg_sender(expr: &Expr) -> (found: bool)
    ensures
        found == names_msg_sender(*expr),
{
    let msg = "msg".to_owned();
    if let ExprKind::Member(base, member) = &expr.kind {
        if *member == "sender".to_owned() {
            if let ExprKind::Ident(reses) = &base.kind {
                for i in 0..reses.len()
                    invariant
                        forall|j: int| 0 <= j < i ==> !is_builtin(#[trigger] reses@[j], "msg"@),
                {
                    if let Res::Builtin(name) = &reses[i] {
                        if *name == msg {
                            return true;
                        }
                    }
                }
            }
        }
    }
    false
}

} // verus!
