//! Walks over expressions, types and statements.
//!
//! Every analysis of the lint asks something of the nodes of a tree, in the order in which a
//! walk meets them. The walks differ only in the parts of a tree that they enter, which
//! [`Traversal`] names.

use vstd::prelude::*;

use crate::hir::{
    CallArgs, Expr, ExprKind, NamedArg, Stmt, TryCatchClause, Type, VarDecl,
};
use crate::names::{self, is_require_or_assert};

verus! {

/// Which parts of a tree a walk enters.
#[derive(Clone, Copy, Debug, PartialEq, Eq, Structural)]
pub enum Traversal {
    /// All of it, the expressions inside types among them.
    Everything,
    /// What may hold a guard: not the condition of an `if`, not the inside of a `require` or
    /// `assert` call, not the target of a plain assignment, and not what is deleted.
    Guards,
    /// The expressions whose values an expression is made of: everything but types.
    Values,
    /// The expressions that the value of an expression comes from: as [`Traversal::Values`],
    /// but for the target of an assignment.
    Flow,
    /// The places that an assignment target names: what it indexes, slices, selects from or
    /// applies an operator to, and the elements of a tuple.
    Targets,
}

/// A node of a tree.
#[derive(Clone, Copy, Debug)]
pub enum Node<'a> {
    Stmt(&'a Stmt),
    Expr(&'a Expr),
}

/// The walk enters the types that stand in expressions.
pub open spec fn enters_types(t: Traversal) -> bool {
    t is Everything || t is Guards
}

/// The nodes of an expression, itself first.
pub open spec fn expr_walk<'a>(t: Traversal, expr: &'a Expr) -> Seq<Node<'a>>
    decreases expr,
{
    seq![Node::Expr(expr)] + match expr.kind {
        ExprKind::Array(exprs) => if t is Targets {
            seq![]
        } else {
            exprs_walk(t, exprs@)
        },
        ExprKind::Assign(lhs, op, rhs) => match t {
            Traversal::Everything | Traversal::Values => expr_walk(t, &lhs) + expr_walk(t, &rhs),
            Traversal::Guards => (if op is Some {
                expr_walk(t, &lhs)
            } else {
                seq![]
            }) + expr_walk(t, &rhs),
            Traversal::Flow => expr_walk(t, &rhs),
            Traversal::Targets => seq![],
        },
        ExprKind::Binary(lhs, _, rhs) => if t is Targets {
            seq![]
        } else {
            expr_walk(t, &lhs) + expr_walk(t, &rhs)
        },
        ExprKind::Call(callee, args, opts) => if t is Targets || (t is Guards
            && names::names_guard_builtin(*callee)) {
            seq![]
        } else {
            expr_walk(t, &callee) + (match opts {
                Some(opts) => named_args_walk(t, opts@),
                None => seq![],
            }) + call_args_walk(t, args)
        },
        ExprKind::Delete(inner) => if t is Guards {
            seq![]
        } else {
            expr_walk(t, &inner)
        },
        ExprKind::Index(base, index) => expr_walk(t, &base) + if t is Targets {
            seq![]
        } else {
            opt_expr_walk(t, index)
        },
        ExprKind::Slice(base, start, end) => expr_walk(t, &base) + if t is Targets {
            seq![]
        } else {
            opt_expr_walk(t, start) + opt_expr_walk(t, end)
        },
        ExprKind::Member(inner, _) => expr_walk(t, &inner),
        ExprKind::Payable(inner) => expr_walk(t, &inner),
        ExprKind::Unary(_, inner) => expr_walk(t, &inner),
        ExprKind::Ternary(cond, then, other) => if t is Targets {
            seq![]
        } else {
            expr_walk(t, &cond) + expr_walk(t, &then) + expr_walk(t, &other)
        },
        ExprKind::Tuple(exprs) => opt_exprs_walk(t, exprs@),
        ExprKind::New(ty) => if enters_types(t) {
            type_walk(t, ty)
        } else {
            seq![]
        },
        ExprKind::TypeCall(ty) => if enters_types(t) {
            type_walk(t, ty)
        } else {
            seq![]
        },
        ExprKind::Type(ty) => if enters_types(t) {
            type_walk(t, ty)
        } else {
            seq![]
        },
        ExprKind::Ident(_) | ExprKind::Lit | ExprKind::Invalid => seq![],
    }
}

/// The nodes of an optional expression.
pub open spec fn opt_expr_walk<'a>(t: Traversal, expr: Option<Box<Expr>>) -> Seq<Node<'a>>
    decreases expr,
{
    match expr {
        Some(expr) => expr_walk(t, &expr),
        None => seq![],
    }
}

/// The nodes of a list of expressions, in order.
pub open spec fn exprs_walk<'a>(t: Traversal, exprs: Seq<Expr>) -> Seq<Node<'a>>
    decreases exprs,
{
    if exprs.len() == 0 {
        seq![]
    } else {
        exprs_walk(t, exprs.drop_last()) + expr_walk(t, &exprs.last())
    }
}

/// The nodes of the elements that are present, in order.
pub open spec fn opt_exprs_walk<'a>(t: Traversal, exprs: Seq<Option<Expr>>) -> Seq<Node<'a>>
    decreases exprs,
{
    if exprs.len() == 0 {
        seq![]
    } else {
        opt_exprs_walk(t, exprs.drop_last()) + match exprs.last() {
            Some(expr) => expr_walk(t, &expr),
            None => seq![],
        }
    }
}

/// The nodes of the argument values, in order.
pub open spec fn named_args_walk<'a>(t: Traversal, args: Seq<NamedArg>) -> Seq<Node<'a>>
    decreases args,
{
    if args.len() == 0 {
        seq![]
    } else {
        named_args_walk(t, args.drop_last()) + expr_walk(t, &args.last().value)
    }
}

/// The nodes of the arguments of a call, in order.
pub open spec fn call_args_walk<'a>(t: Traversal, args: CallArgs) -> Seq<Node<'a>>
    decreases args,
{
    match args {
        CallArgs::Unnamed(exprs) => exprs_walk(t, exprs@),
        CallArgs::Named(args) => named_args_walk(t, args@),
    }
}

/// The nodes of the expressions inside a type.
pub open spec fn type_walk<'a>(t: Traversal, ty: Type) -> Seq<Node<'a>>
    decreases ty,
{
    match ty {
        Type::Array(element, size) => type_walk(t, *element) + opt_expr_walk(t, size),
        Type::Function(params, results) => decls_walk(t, params@) + decls_walk(t, results@),
        Type::Mapping(key, value) => type_walk(t, *key) + type_walk(t, *value),
        Type::Elementary | Type::Custom | Type::Invalid => seq![],
    }
}

/// The nodes of a declaration: those of its type, then those of its initializer.
pub open spec fn decl_walk<'a>(t: Traversal, decl: VarDecl) -> Seq<Node<'a>>
    decreases decl,
{
    type_walk(t, decl.ty) + opt_expr_walk(t, decl.initializer)
}

/// The nodes of a list of declarations, in order.
pub open spec fn decls_walk<'a>(t: Traversal, decls: Seq<VarDecl>) -> Seq<Node<'a>>
    decreases decls,
{
    if decls.len() == 0 {
        seq![]
    } else {
        decls_walk(t, decls.drop_last()) + decl_walk(t, decls.last())
    }
}

/// The nodes of the declarations that are present, in order.
pub open spec fn opt_decls_walk<'a>(t: Traversal, decls: Seq<Option<VarDecl>>) -> Seq<Node<'a>>
    decreases decls,
{
    if decls.len() == 0 {
        seq![]
    } else {
        opt_decls_walk(t, decls.drop_last()) + match decls.last() {
            Some(decl) => decl_walk(t, decl),
            None => seq![],
        }
    }
}

/// The nodes of a statement, itself first.
pub open spec fn stmt_walk<'a>(t: Traversal, stmt: &'a Stmt) -> Seq<Node<'a>>
    decreases stmt,
{
    seq![Node::Stmt(stmt)] + match stmt {
        Stmt::DeclSingle(decl) => decl_walk(t, *decl),
        Stmt::DeclMulti(decls, expr) => opt_decls_walk(t, decls@) + expr_walk(t, expr),
        Stmt::Block(block) => stmts_walk(t, block.stmts@),
        Stmt::UncheckedBlock(block) => stmts_walk(t, block.stmts@),
        Stmt::Loop(block) => stmts_walk(t, block.stmts@),
        Stmt::Emit(expr) => expr_walk(t, expr),
        Stmt::Revert(expr) => expr_walk(t, expr),
        Stmt::Expr(expr) => expr_walk(t, expr),
        Stmt::Return(expr) => opt_expr_walk(t, *expr),
        Stmt::If(cond, then, other) => (if t is Guards {
            seq![]
        } else {
            expr_walk(t, cond)
        }) + stmt_walk(t, then) + match other {
            Some(other) => stmt_walk(t, other),
            None => seq![],
        },
        Stmt::Try(expr, clauses) => expr_walk(t, expr) + clauses_walk(t, clauses@),
        Stmt::Break | Stmt::Continue | Stmt::Placeholder | Stmt::Invalid => seq![],
    }
}

/// The nodes of a list of statements, in order.
pub open spec fn stmts_walk<'a>(t: Traversal, stmts: Seq<Stmt>) -> Seq<Node<'a>>
    decreases stmts,
{
    if stmts.len() == 0 {
        seq![]
    } else {
        stmts_walk(t, stmts.drop_last()) + stmt_walk(t, &stmts.last())
    }
}

/// The nodes of the clauses of a `try` statement, in order.
pub open spec fn clauses_walk<'a>(t: Traversal, clauses: Seq<TryCatchClause>) -> Seq<Node<'a>>
    decreases clauses,
{
    if clauses.len() == 0 {
        seq![]
    } else {
        clauses_walk(t, clauses.drop_last()) + decls_walk(t, clauses.last().args@) + stmts_walk(
            t,
            clauses.last().block.stmts@,
        )
    }
}

/// Appends the nodes of an expression to `out`.
pub fn walk_expr<'a>(t: Traversal, expr: &'a Expr, out: &mut Vec<Node<'a>>)
    ensures
        final(out)@ == old(out)@ + expr_walk(t, expr),
    decreases expr,
{
    out.push(Node::Expr(expr));
    match &expr.kind {
        ExprKind::Array(exprs) => {
            if t != Traversal::Targets {
                walk_exprs(t, exprs, out);
            }
        },
        ExprKind::Assign(lhs, op, rhs) => {
            if t == Traversal::Everything || t == Traversal::Values || (t == Traversal::Guards
                && op.is_some()) {
                walk_expr(t, lhs, out);
            }
            if t != Traversal::Targets {
                walk_expr(t, rhs, out);
            }
        },
        ExprKind::Binary(lhs, _, rhs) => {
            if t != Traversal::Targets {
                walk_expr(t, lhs, out);
                walk_expr(t, rhs, out);
            }
        },
        ExprKind::Call(callee, args, opts) => {
            if t != Traversal::Targets && !(t == Traversal::Guards && is_require_or_assert(
                callee,
            )) {
                walk_expr(t, callee, out);
                if let Some(opts) = opts {
                    walk_named_args(t, opts, out);
                }
                walk_call_args(t, args, out);
            }
        },
        ExprKind::Delete(inner) => {
            if t != Traversal::Guards {
                walk_expr(t, inner, out);
            }
        },
        ExprKind::Index(base, index) => {
            walk_expr(t, base, out);
            if t != Traversal::Targets {
                walk_opt_expr(t, index, out);
            }
        },
        ExprKind::Slice(base, start, end) => {
            walk_expr(t, base, out);
            if t != Traversal::Targets {
                walk_opt_expr(t, start, out);
                walk_opt_expr(t, end, out);
            }
        },
        ExprKind::Member(inner, _) | ExprKind::Payable(inner) | ExprKind::Unary(_, inner) => {
            walk_expr(t, inner, out);
        },
        ExprKind::Ternary(cond, then, other) => {
            if t != Traversal::Targets {
                walk_expr(t, cond, out);
                walk_expr(t, then, out);
                walk_expr(t, other, out);
            }
        },
        ExprKind::Tuple(exprs) => {
            walk_opt_exprs(t, exprs, out);
        },
        ExprKind::New(ty) | ExprKind::TypeCall(ty) | ExprKind::Type(ty) => {
            if t == Traversal::Everything || t == Traversal::Guards {
                walk_type(t, ty, out);
            }
        },
        ExprKind::Ident(_) | ExprKind::Lit | ExprKind::Invalid => {},
    }
}

/// Appends the nodes of an optional expression to `out`.
fn walk_opt_expr<'a>(t: Traversal, expr: &'a Option<Box<Expr>>, out: &mut Vec<Node<'a>>)
    ensures
        final(out)@ == old(out)@ + opt_expr_walk(t, *expr),
    decreases expr,
{
    if let Some(expr) = expr {
        walk_expr(t, expr, out);
    }
}

/// Appends the nodes of a list of expressions to `out`.
fn walk_exprs<'a>(t: Traversal, exprs: &'a Vec<Expr>, out: &mut Vec<Node<'a>>)
    ensures
        final(out)@ == old(out)@ + exprs_walk(t, exprs@),
    decreases exprs,
{
    let ghost start = out@;
    for i in 0..exprs.len()
        invariant
            out@ == start + exprs_walk(t, exprs@.take(i as int)),
    {
        walk_expr(t, &exprs[i], out);
        assert(exprs@.take(i + 1).drop_last() == exprs@.take(i as int));
    }
    assert(exprs@.take(exprs@.len() as int) == exprs@);
}

/// Appends the nodes of the elements that are present to `out`.
fn walk_opt_exprs<'a>(t: Traversal, exprs: &'a Vec<Option<Expr>>, out: &mut Vec<Node<'a>>)
    ensures
        final(out)@ == old(out)@ + opt_exprs_walk(t, exprs@),
    decreases exprs,
{
    let ghost start = out@;
    for i in 0..exprs.len()
        invariant
            out@ == start + opt_exprs_walk(t, exprs@.take(i as int)),
    {
        if let Some(expr) = &exprs[i] {
            walk_expr(t, expr, out);
        }
        assert(exprs@.take(i + 1).drop_last() == exprs@.take(i as int));
    }
    assert(exprs@.take(exprs@.len() as int) == exprs@);
}

/// Appends the nodes of the argument values to `out`.
fn walk_named_args<'a>(t: Traversal, args: &'a Vec<NamedArg>, out: &mut Vec<Node<'a>>)
    ensures
        final(out)@ == old(out)@ + named_args_walk(t, args@),
    decreases args,
{
    let ghost start = out@;
    for i in 0..args.len()
        invariant
            out@ == start + named_args_walk(t, args@.take(i as int)),
    {
        walk_expr(t, &args[i].value, out);
        assert(args@.take(i + 1).drop_last() == args@.take(i as int));
    }
    assert(args@.take(args@.len() as int) == args@);
}

/// Appends the nodes of the arguments of a call to `out`.
fn walk_call_args<'a>(t: Traversal, args: &'a CallArgs, out: &mut Vec<Node<'a>>)
    ensures
        final(out)@ == old(out)@ + call_args_walk(t, *args),
    decreases args,
{
    match args {
        CallArgs::Unnamed(exprs) => walk_exprs(t, exprs, out),
        CallArgs::Named(args) => walk_named_args(t, args, out),
    }
}

/// Appends the nodes of the expressions inside a type to `out`.
fn walk_type<'a>(t: Traversal, ty: &'a Type, out: &mut Vec<Node<'a>>)
    ensures
        final(out)@ == old(out)@ + type_walk(t, *ty),
    decreases ty,
{
    match ty {
        Type::Array(element, size) => {
            walk_type(t, element, out);
            walk_opt_expr(t, size, out);
        },
        Type::Function(params, results) => {
            walk_decls(t, params, out);
            walk_decls(t, results, out);
        },
        Type::Mapping(key, value) => {
            walk_type(t, key, out);
            walk_type(t, value, out);
        },
        Type::Elementary | Type::Custom | Type::Invalid => {},
    }
}

/// Appends the nodes of a declaration to `out`.
fn walk_decl<'a>(t: Traversal, decl: &'a VarDecl, out: &mut Vec<Node<'a>>)
    ensures
        final(out)@ == old(out)@ + decl_walk(t, *decl),
    decreases decl,
{
    walk_type(t, &decl.ty, out);
    walk_opt_expr(t, &decl.initializer, out);
}

/// Appends the nodes of a list of declarations to `out`.
fn walk_decls<'a>(t: Traversal, decls: &'a Vec<VarDecl>, out: &mut Vec<Node<'a>>)
    ensures
        final(out)@ == old(out)@ + decls_walk(t, decls@),
    decreases decls,
{
    let ghost start = out@;
    for i in 0..decls.len()
        invariant
            out@ == start + decls_walk(t, decls@.take(i as int)),
    {
        walk_decl(t, &decls[i], out);
        assert(decls@.take(i + 1).drop_last() == decls@.take(i as int));
    }
    assert(decls@.take(decls@.len() as int) == decls@);
}

/// Appends the nodes of the declarations that are present to `out`.
fn walk_opt_decls<'a>(t: Traversal, decls: &'a Vec<Option<VarDecl>>, out: &mut Vec<Node<'a>>)
    ensures
        final(out)@ == old(out)@ + opt_decls_walk(t, decls@),
    decreases decls,
{
    let ghost start = out@;
    for i in 0..decls.len()
        invariant
            out@ == start + opt_decls_walk(t, decls@.take(i as int)),
    {
        if let Some(decl) = &decls[i] {
            walk_decl(t, decl, out);
        }
        assert(decls@.take(i + 1).drop_last() == decls@.take(i as int));
    }
    assert(decls@.take(decls@.len() as int) == decls@);
}

/// Appends the nodes of a statement to `out`.
pub fn walk_stmt<'a>(t: Traversal, stmt: &'a Stmt, out: &mut Vec<Node<'a>>)
    ensures
        final(out)@ == old(out)@ + stmt_walk(t, stmt),
    decreases stmt,
{
    out.push(Node::Stmt(stmt));
    match stmt {
        Stmt::DeclSingle(decl) => walk_decl(t, decl, out),
        Stmt::DeclMulti(decls, expr) => {
            walk_opt_decls(t, decls, out);
            walk_expr(t, expr, out);
        },
        Stmt::Block(block) | Stmt::UncheckedBlock(block) | Stmt::Loop(block) => {
            walk_stmts(t, &block.stmts, out);
        },
        Stmt::Emit(expr) | Stmt::Revert(expr) | Stmt::Expr(expr) => walk_expr(t, expr, out),
        Stmt::Return(expr) => walk_opt_expr(t, expr, out),
        Stmt::If(cond, then, other) => {
            if t != Traversal::Guards {
                walk_expr(t, cond, out);
            }
            walk_stmt(t, then, out);
            if let Some(other) = other {
                walk_stmt(t, other, out);
            }
        },
        Stmt::Try(expr, clauses) => {
            walk_expr(t, expr, out);
            walk_clauses(t, clauses, out);
        },
        Stmt::Break | Stmt::Continue | Stmt::Placeholder | Stmt::Invalid => {},
    }
}

/// Appends the nodes of a list of statements to `out`.
pub fn walk_stmts<'a>(t: Traversal, stmts: &'a Vec<Stmt>, out: &mut Vec<Node<'a>>)
    ensures
        final(out)@ == old(out)@ + stmts_walk(t, stmts@),
    decreases stmts,
{
    let ghost start = out@;
    for i in 0..stmts.len()
        invariant
            out@ == start + stmts_walk(t, stmts@.take(i as int)),
    {
        walk_stmt(t, &stmts[i], out);
        assert(stmts@.take(i + 1).drop_last() == stmts@.take(i as int));
    }
    assert(stmts@.take(stmts@.len() as int) == stmts@);
}

/// Appends the nodes of the clauses of a `try` statement to `out`.
fn walk_clauses<'a>(t: Traversal, clauses: &'a Vec<TryCatchClause>, out: &mut Vec<Node<'a>>)
    ensures
        final(out)@ == old(out)@ + clauses_walk(t, clauses@),
    decreases clauses,
{
    let ghost start = out@;
    for i in 0..clauses.len()
        invariant
            out@ == start + clauses_walk(t, clauses@.take(i as int)),
    {
        walk_decls(t, &clauses[i].args, out);
        walk_stmts(t, &clauses[i].block.stmts, out);
        assert(clauses@.take(i + 1).drop_last() == clauses@.take(i as int));
    }
    assert(clauses@.take(clauses@.len() as int) == clauses@);
}

/// The walk over one more statement adds the nodes of that statement at the end.
pub proof fn lemma_stmts_walk_step(t: Traversal, stmts: Seq<Stmt>, i: int)
    requires
        0 <= i < stmts.len(),
    ensures
        stmts_walk(t, stmts.take(i + 1)) == stmts_walk(t, stmts.take(i)) + stmt_walk(t, &stmts[i]),
{
    assert(stmts.take(i + 1).drop_last() == stmts.take(i));
}

/// The walk over the first statements is the beginning of the whole walk.
pub proof fn lemma_stmts_walk_prefix(t: Traversal, stmts: Seq<Stmt>, count: int)
    requires
        0 <= count <= stmts.len(),
    ensures
        stmts_walk(t, stmts.take(count)).is_prefix_of(stmts_walk(t, stmts)),
    decreases stmts.len() - count,
{
    if count == stmts.len() {
        assert(stmts.take(count) == stmts);
    } else {
        lemma_stmts_walk_step(t, stmts, count);
        lemma_stmts_walk_prefix(t, stmts, count + 1);
        let some = stmts_walk(t, stmts.take(count));
        let more = stmts_walk(t, stmts.take(count + 1));
        let all = stmts_walk(t, stmts);
        assert(some == all.subrange(0, some.len() as int)) by {
            assert(some == more.subrange(0, some.len() as int));
            assert(more == all.subrange(0, more.len() as int));
        }
    }
}

/// Every node of the first list is on the second.
pub open spec fn within(part: Seq<Node>, all: Seq<Node>) -> bool {
    forall|i: int| 0 <= i < part.len() ==> all.contains(#[trigger] part[i])
}

broadcast proof fn lemma_within_add(a: Seq<Node>, b: Seq<Node>, c: Seq<Node>, d: Seq<Node>)
    requires
        within(a, c),
        within(b, d),
    ensures
        #[trigger] within(a + b, c + d),
{
    assert forall|i: int| 0 <= i < (a + b).len() implies (c + d).contains(
        #[trigger] (a + b)[i],
    ) by {
        if i < a.len() {
            assert(c.contains(a[i]));
            let k = choose|k: int| 0 <= k < c.len() && c[k] == a[i];
            assert((c + d)[k] == (a + b)[i]);
        } else {
            assert(d.contains(b[i - a.len()]));
            let k = choose|k: int| 0 <= k < d.len() && d[k] == b[i - a.len()];
            assert((c + d)[c.len() + k] == (a + b)[i]);
        }
    }
}

/// Every walk over an expression meets only nodes that the full walk meets.
proof fn lemma_expr_walk_within(t: Traversal, expr: Expr)
    ensures
        within(expr_walk(t, &expr), expr_walk(Traversal::Everything, &expr)),
    decreases expr,
{
    broadcast use lemma_within_add;

    let node = seq![Node::Expr(&expr)];
    assert(within(node, node)) by {
        assert(node[0] == Node::Expr(&expr));
    }
    match expr.kind {
        ExprKind::Array(exprs) => {
            lemma_exprs_walk_within(t, exprs@);
        },
        ExprKind::Assign(lhs, _, rhs) => {
            lemma_expr_walk_within(t, *lhs);
            lemma_expr_walk_within(t, *rhs);
            let none = Seq::<Node>::empty();
            let value = expr_walk(t, &rhs);
            assert(none + value == value);
            assert(within(
                none + value,
                expr_walk(Traversal::Everything, &lhs) + expr_walk(Traversal::Everything, &rhs),
            ));
        },
        ExprKind::Binary(lhs, _, rhs) => {
            lemma_expr_walk_within(t, *lhs);
            lemma_expr_walk_within(t, *rhs);
        },
        ExprKind::Call(callee, args, opts) => {
            lemma_expr_walk_within(t, *callee);
            lemma_call_args_walk_within(t, args);
            if let Some(opts) = opts {
                lemma_named_args_walk_within(t, opts@);
            }
        },
        ExprKind::Delete(inner) => {
            lemma_expr_walk_within(t, *inner);
        },
        ExprKind::Index(base, index) => {
            lemma_expr_walk_within(t, *base);
            lemma_opt_expr_walk_within(t, index);
        },
        ExprKind::Slice(base, start, end) => {
            lemma_expr_walk_within(t, *base);
            lemma_opt_expr_walk_within(t, start);
            lemma_opt_expr_walk_within(t, end);
        },
        ExprKind::Member(inner, _) => {
            lemma_expr_walk_within(t, *inner);
        },
        ExprKind::Payable(inner) => {
            lemma_expr_walk_within(t, *inner);
        },
        ExprKind::Unary(_, inner) => {
            lemma_expr_walk_within(t, *inner);
        },
        ExprKind::Ternary(cond, then, other) => {
            lemma_expr_walk_within(t, *cond);
            lemma_expr_walk_within(t, *then);
            lemma_expr_walk_within(t, *other);
        },
        ExprKind::Tuple(exprs) => {
            lemma_opt_exprs_walk_within(t, exprs@);
        },
        ExprKind::New(ty) => {
            lemma_type_walk_within(t, ty);
        },
        ExprKind::TypeCall(ty) => {
            lemma_type_walk_within(t, ty);
        },
        ExprKind::Type(ty) => {
            lemma_type_walk_within(t, ty);
        },
        ExprKind::Ident(_) | ExprKind::Lit | ExprKind::Invalid => {},
    }
}

proof fn lemma_opt_expr_walk_within(t: Traversal, expr: Option<Box<Expr>>)
    ensures
        within(opt_expr_walk(t, expr), opt_expr_walk(Traversal::Everything, expr)),
    decreases expr,
{
    broadcast use lemma_within_add;

    if let Some(expr) = expr {
        lemma_expr_walk_within(t, *expr);
    }
}

proof fn lemma_exprs_walk_within(t: Traversal, exprs: Seq<Expr>)
    ensures
        within(exprs_walk(t, exprs), exprs_walk(Traversal::Everything, exprs)),
    decreases exprs,
{
    broadcast use lemma_within_add;

    if exprs.len() > 0 {
        lemma_exprs_walk_within(t, exprs.drop_last());
        lemma_expr_walk_within(t, exprs.last());
    }
}

proof fn lemma_opt_exprs_walk_within(t: Traversal, exprs: Seq<Option<Expr>>)
    ensures
        within(opt_exprs_walk(t, exprs), opt_exprs_walk(Traversal::Everything, exprs)),
    decreases exprs,
{
    broadcast use lemma_within_add;

    if exprs.len() > 0 {
        lemma_opt_exprs_walk_within(t, exprs.drop_last());
        if let Some(expr) = exprs.last() {
            lemma_expr_walk_within(t, expr);
        }
    }
}

proof fn lemma_named_args_walk_within(t: Traversal, args: Seq<NamedArg>)
    ensures
        within(named_args_walk(t, args), named_args_walk(Traversal::Everything, args)),
    decreases args,
{
    broadcast use lemma_within_add;

    if args.len() > 0 {
        lemma_named_args_walk_within(t, args.drop_last());
        lemma_expr_walk_within(t, args.last().value);
    }
}

proof fn lemma_call_args_walk_within(t: Traversal, args: CallArgs)
    ensures
        within(call_args_walk(t, args), call_args_walk(Traversal::Everything, args)),
    decreases args,
{
    match args {
        CallArgs::Unnamed(exprs) => lemma_exprs_walk_within(t, exprs@),
        CallArgs::Named(args) => lemma_named_args_walk_within(t, args@),
    }
}

proof fn lemma_type_walk_within(t: Traversal, ty: Type)
    ensures
        within(type_walk(t, ty), type_walk(Traversal::Everything, ty)),
    decreases ty,
{
    broadcast use lemma_within_add;

    match ty {
        Type::Array(element, size) => {
            lemma_type_walk_within(t, *element);
            lemma_opt_expr_walk_within(t, size);
        },
        Type::Function(params, results) => {
            lemma_decls_walk_within(t, params@);
            lemma_decls_walk_within(t, results@);
        },
        Type::Mapping(key, value) => {
            lemma_type_walk_within(t, *key);
            lemma_type_walk_within(t, *value);
        },
        Type::Elementary | Type::Custom | Type::Invalid => {},
    }
}

proof fn lemma_decl_walk_within(t: Traversal, decl: VarDecl)
    ensures
        within(decl_walk(t, decl), decl_walk(Traversal::Everything, decl)),
    decreases decl,
{
    broadcast use lemma_within_add;

    lemma_type_walk_within(t, decl.ty);
    lemma_opt_expr_walk_within(t, decl.initializer);
}

proof fn lemma_decls_walk_within(t: Traversal, decls: Seq<VarDecl>)
    ensures
        within(decls_walk(t, decls), decls_walk(Traversal::Everything, decls)),
    decreases decls,
{
    broadcast use lemma_within_add;

    if decls.len() > 0 {
        lemma_decls_walk_within(t, decls.drop_last());
        lemma_decl_walk_within(t, decls.last());
    }
}

proof fn lemma_opt_decls_walk_within(t: Traversal, decls: Seq<Option<VarDecl>>)
    ensures
        within(opt_decls_walk(t, decls), opt_decls_walk(Traversal::Everything, decls)),
    decreases decls,
{
    broadcast use lemma_within_add;

    if decls.len() > 0 {
        lemma_opt_decls_walk_within(t, decls.drop_last());
        if let Some(decl) = decls.last() {
            lemma_decl_walk_within(t, decl);
        }
    }
}

proof fn lemma_stmt_walk_within(t: Traversal, stmt: Stmt)
    ensures
        within(stmt_walk(t, &stmt), stmt_walk(Traversal::Everything, &stmt)),
    decreases stmt,
{
    broadcast use lemma_within_add;

    let node = seq![Node::Stmt(&stmt)];
    assert(within(node, node)) by {
        assert(node[0] == Node::Stmt(&stmt));
    }
    match stmt {
        Stmt::DeclSingle(decl) => {
            lemma_decl_walk_within(t, decl);
        },
        Stmt::DeclMulti(decls, expr) => {
            lemma_opt_decls_walk_within(t, decls@);
            lemma_expr_walk_within(t, *expr);
        },
        Stmt::Block(block) => {
            lemma_stmts_walk_within(t, block.stmts@);
        },
        Stmt::UncheckedBlock(block) => {
            lemma_stmts_walk_within(t, block.stmts@);
        },
        Stmt::Loop(block) => {
            lemma_stmts_walk_within(t, block.stmts@);
        },
        Stmt::Emit(expr) => {
            lemma_expr_walk_within(t, *expr);
        },
        Stmt::Revert(expr) => {
            lemma_expr_walk_within(t, *expr);
        },
        Stmt::Expr(expr) => {
            lemma_expr_walk_within(t, *expr);
        },
        Stmt::Return(expr) => {
            lemma_opt_expr_walk_within(t, expr);
        },
        Stmt::If(cond, then, other) => {
            lemma_expr_walk_within(t, *cond);
            lemma_stmt_walk_within(t, *then);
            if let Some(other) = other {
                lemma_stmt_walk_within(t, *other);
            }
        },
        Stmt::Try(expr, clauses) => {
            lemma_expr_walk_within(t, *expr);
            lemma_clauses_walk_within(t, clauses@);
        },
        Stmt::Break | Stmt::Continue | Stmt::Placeholder | Stmt::Invalid => {},
    }
}

/// Every walk over statements meets only nodes that the full walk meets.
pub proof fn lemma_stmts_walk_within(t: Traversal, stmts: Seq<Stmt>)
    ensures
        within(stmts_walk(t, stmts), stmts_walk(Traversal::Everything, stmts)),
    decreases stmts,
{
    broadcast use lemma_within_add;

    if stmts.len() > 0 {
        lemma_stmts_walk_within(t, stmts.drop_last());
        lemma_stmt_walk_within(t, stmts.last());
    }
}

proof fn lemma_clauses_walk_within(t: Traversal, clauses: Seq<TryCatchClause>)
    ensures
        within(clauses_walk(t, clauses), clauses_walk(Traversal::Everything, clauses)),
    decreases clauses,
{
    broadcast use lemma_within_add;

    if clauses.len() > 0 {
        lemma_clauses_walk_within(t, clauses.drop_last());
        lemma_decls_walk_within(t, clauses.last().args@);
        lemma_stmts_walk_within(t, clauses.last().block.stmts@);
    }
}

} // verus!
