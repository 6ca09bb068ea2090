//! What a walk meets, part by part.
//!
//! The analyses ask of the nodes that a walk meets whether one of them answers a question. Here
//! is, for every question and every walk, which parts of a tree decide the answer.

use vstd::prelude::*;

use crate::hir::{
    CallArgs, Expr, ExprKind, NamedArg, Stmt, TryCatchClause, Type, VarDecl,
};
use crate::names;
use crate::walk::{self, Node, Traversal};

verus! {

/// One of the nodes answers the question.
pub open spec fn some<'a>(nodes: Seq<Node<'a>>, f: spec_fn(Node<'a>) -> bool) -> bool {
    exists|i: int| 0 <= i < nodes.len() && f(#[trigger] nodes[i])
}

/// The walk over the expression meets a node that answers the question.
pub open spec fn asks<'a>(t: Traversal, expr: Expr, f: spec_fn(Node<'a>) -> bool) -> bool {
    some(walk::expr_walk(t, &expr), f)
}

/// The walk over the statement meets a node that answers the question.
pub open spec fn asks_stmt<'a>(t: Traversal, stmt: Stmt, f: spec_fn(Node<'a>) -> bool) -> bool {
    some(walk::stmt_walk(t, &stmt), f)
}

pub broadcast proof fn lemma_some_add<'a>(
    a: Seq<Node<'a>>,
    b: Seq<Node<'a>>,
    f: spec_fn(Node<'a>) -> bool,
)
    ensures
        #[trigger] some(a + b, f) == (some(a, f) || some(b, f)),
{
    if some(a, f) {
        let i = choose|i: int| 0 <= i < a.len() && f(#[trigger] a[i]);
        assert((a + b)[i] == a[i]);
    }
    if some(b, f) {
        let i = choose|i: int| 0 <= i < b.len() && f(#[trigger] b[i]);
        assert((a + b)[a.len() + i] == b[i]);
    }
    if some(a + b, f) {
        let i = choose|i: int| 0 <= i < (a + b).len() && f(#[trigger] (a + b)[i]);
        if i < a.len() {
            assert((a + b)[i] == a[i]);
        } else {
            assert((a + b)[i] == b[i - a.len()]);
        }
    }
}

proof fn lemma_some_one<'a>(node: Node<'a>, f: spec_fn(Node<'a>) -> bool)
    ensures
        some(seq![node], f) == f(node),
{
    assert(seq![node][0] == node);
}

pub proof fn lemma_exprs<'a>(t: Traversal, exprs: Seq<Expr>, f: spec_fn(Node<'a>) -> bool)
    ensures
        some(walk::exprs_walk(t, exprs), f) <==> exists|i: int|
            0 <= i < exprs.len() && asks(t, #[trigger] exprs[i], f),
    decreases exprs.len(),
{
    broadcast use lemma_some_add;

    if exprs.len() > 0 {
        let rest = exprs.drop_last();
        lemma_exprs(t, rest, f);
        assert(exprs[exprs.len() - 1] == exprs.last());
        assert forall|i: int| 0 <= i < rest.len() implies rest[i] == #[trigger] exprs[i] by {}
        if exists|i: int| 0 <= i < rest.len() && asks(t, #[trigger] rest[i], f) {
            let i = choose|i: int| 0 <= i < rest.len() && asks(t, #[trigger] rest[i], f);
            assert(asks(t, exprs[i], f));
        }
    }
}

pub proof fn lemma_opt_exprs<'a>(
    t: Traversal,
    exprs: Seq<Option<Expr>>,
    f: spec_fn(Node<'a>) -> bool,
)
    ensures
        some(walk::opt_exprs_walk(t, exprs), f) <==> exists|i: int|
            0 <= i < exprs.len() && #[trigger] exprs[i] is Some && asks(t, exprs[i]->0, f),
    decreases exprs.len(),
{
    broadcast use lemma_some_add;

    if exprs.len() > 0 {
        let rest = exprs.drop_last();
        lemma_opt_exprs(t, rest, f);
        assert(exprs[exprs.len() - 1] == exprs.last());
        assert forall|i: int| 0 <= i < rest.len() implies rest[i] == #[trigger] exprs[i] by {}
        if exists|i: int|
            0 <= i < rest.len() && #[trigger] rest[i] is Some && asks(t, rest[i]->0, f) {
            let i = choose|i: int|
                0 <= i < rest.len() && #[trigger] rest[i] is Some && asks(t, rest[i]->0, f);
            assert(exprs[i] is Some && asks(t, exprs[i]->0, f));
        }
    }
}

pub proof fn lemma_named_args<'a>(t: Traversal, args: Seq<NamedArg>, f: spec_fn(Node<'a>) -> bool)
    ensures
        some(walk::named_args_walk(t, args), f) <==> exists|i: int|
            0 <= i < args.len() && asks(t, (#[trigger] args[i]).value, f),
    decreases args.len(),
{
    broadcast use lemma_some_add;

    if args.len() > 0 {
        let rest = args.drop_last();
        lemma_named_args(t, rest, f);
        assert(args[args.len() - 1] == args.last());
        assert forall|i: int| 0 <= i < rest.len() implies rest[i] == #[trigger] args[i] by {}
        if exists|i: int| 0 <= i < rest.len() && asks(t, (#[trigger] rest[i]).value, f) {
            let i = choose|i: int| 0 <= i < rest.len() && asks(t, (#[trigger] rest[i]).value, f);
            assert(asks(t, args[i].value, f));
        }
    }
}

/// One of the arguments of a call, positional or named, answers the question.
pub open spec fn asks_args<'a>(t: Traversal, args: CallArgs, f: spec_fn(Node<'a>) -> bool) -> bool {
    match args {
        CallArgs::Unnamed(exprs) => exists|i: int|
            0 <= i < exprs@.len() && asks(t, #[trigger] exprs@[i], f),
        CallArgs::Named(named) => exists|i: int|
            0 <= i < named@.len() && asks(t, (#[trigger] named@[i]).value, f),
    }
}

/// One of the call options answers the question.
pub open spec fn asks_opts<'a>(
    t: Traversal,
    opts: Option<Vec<NamedArg>>,
    f: spec_fn(Node<'a>) -> bool,
) -> bool {
    &&& opts matches Some(opts)
    &&& exists|i: int| 0 <= i < opts@.len() && asks(t, (#[trigger] opts@[i]).value, f)
}

/// The expression is there and answers the question.
pub open spec fn asks_opt<'a>(
    t: Traversal,
    expr: Option<Box<Expr>>,
    f: spec_fn(Node<'a>) -> bool,
) -> bool {
    expr matches Some(expr) && asks(t, *expr, f)
}

proof fn lemma_opt_expr<'a>(t: Traversal, expr: Option<Box<Expr>>, f: spec_fn(Node<'a>) -> bool)
    ensures
        some(walk::opt_expr_walk(t, expr), f) == asks_opt(t, expr, f),
{
}

proof fn lemma_args<'a>(t: Traversal, args: CallArgs, f: spec_fn(Node<'a>) -> bool)
    ensures
        some(walk::call_args_walk(t, args), f) == asks_args(t, args, f),
{
    match args {
        CallArgs::Unnamed(exprs) => lemma_exprs(t, exprs@, f),
        CallArgs::Named(named) => lemma_named_args(t, named@, f),
    }
}

/// One of the expressions inside the type answers the question: the size of an array, at any
/// depth, or what a declaration of a function type holds.
pub open spec fn asks_type<'a>(t: Traversal, ty: Type, f: spec_fn(Node<'a>) -> bool) -> bool {
    some(walk::type_walk(t, ty), f)
}

/// The declaration answers the question, by its type or by its initializer.
pub open spec fn asks_decl<'a>(t: Traversal, decl: VarDecl, f: spec_fn(Node<'a>) -> bool) -> bool {
    asks_type(t, decl.ty, f) || asks_opt(t, decl.initializer, f)
}

proof fn lemma_decl<'a>(t: Traversal, decl: VarDecl, f: spec_fn(Node<'a>) -> bool)
    ensures
        some(walk::decl_walk(t, decl), f) == asks_decl(t, decl, f),
{
    broadcast use lemma_some_add;

    lemma_opt_expr(t, decl.initializer, f);
}

proof fn lemma_decls<'a>(t: Traversal, decls: Seq<VarDecl>, f: spec_fn(Node<'a>) -> bool)
    ensures
        some(walk::decls_walk(t, decls), f) <==> exists|i: int|
            0 <= i < decls.len() && asks_decl(t, #[trigger] decls[i], f),
    decreases decls.len(),
{
    broadcast use lemma_some_add;

    if decls.len() > 0 {
        let rest = decls.drop_last();
        lemma_decls(t, rest, f);
        lemma_decl(t, decls.last(), f);
        assert(decls[decls.len() - 1] == decls.last());
        assert forall|i: int| 0 <= i < rest.len() implies rest[i] == #[trigger] decls[i] by {}
        if exists|i: int| 0 <= i < rest.len() && asks_decl(t, #[trigger] rest[i], f) {
            let i = choose|i: int| 0 <= i < rest.len() && asks_decl(t, #[trigger] rest[i], f);
            assert(asks_decl(t, decls[i], f));
        }
    }
}

proof fn lemma_opt_decls<'a>(
    t: Traversal,
    decls: Seq<Option<VarDecl>>,
    f: spec_fn(Node<'a>) -> bool,
)
    ensures
        some(walk::opt_decls_walk(t, decls), f) <==> exists|i: int|
            0 <= i < decls.len() && #[trigger] decls[i] is Some && asks_decl(t, decls[i]->0, f),
    decreases decls.len(),
{
    broadcast use lemma_some_add;

    if decls.len() > 0 {
        let rest = decls.drop_last();
        lemma_opt_decls(t, rest, f);
        if let Some(decl) = decls.last() {
            lemma_decl(t, decl, f);
        }
        assert(decls[decls.len() - 1] == decls.last());
        assert forall|i: int| 0 <= i < rest.len() implies rest[i] == #[trigger] decls[i] by {}
        if exists|i: int|
            0 <= i < rest.len() && #[trigger] rest[i] is Some && asks_decl(t, rest[i]->0, f) {
            let i = choose|i: int|
                0 <= i < rest.len() && #[trigger] rest[i] is Some && asks_decl(t, rest[i]->0, f);
            assert(decls[i] is Some && asks_decl(t, decls[i]->0, f));
        }
    }
}

/// What stands inside a type: array sizes at any depth, and what the declarations of a function
/// type hold, its parameters and its returns alike.
pub proof fn law_types<'a>(t: Traversal, ty: Type, f: spec_fn(Node<'a>) -> bool)
    ensures
        asks_type(t, ty, f) <==> match ty {
            Type::Elementary => false,
            Type::Array(element, size) => asks_type(t, *element, f) || asks_opt(t, size, f),
            Type::Function(params, results) => {
                ||| exists|i: int| 0 <= i < params@.len() && asks_decl(t, #[trigger] params@[i], f)
                ||| exists|i: int|
                    0 <= i < results@.len() && asks_decl(t, #[trigger] results@[i], f)
            },
            Type::Mapping(key, value) => asks_type(t, *key, f) || asks_type(t, *value, f),
            Type::Custom => false,
            Type::Invalid => false,
        },
{
    broadcast use lemma_some_add;

    match ty {
        Type::Array(_, size) => lemma_opt_expr(t, size, f),
        Type::Function(params, results) => {
            lemma_decls(t, params@, f);
            lemma_decls(t, results@, f);
        },
        _ => {},
    }
}

/// Calls the lemmas on the lists and options below an expression.
proof fn lemma_below<'a>(t: Traversal, expr: Expr, f: spec_fn(Node<'a>) -> bool)
    ensures
        some(seq![Node::Expr(&expr)], f) == f(Node::Expr(&expr)),
        match expr.kind {
            ExprKind::Array(exprs) => some(walk::exprs_walk(t, exprs@), f) <==> exists|i: int|
                0 <= i < exprs@.len() && asks(t, #[trigger] exprs@[i], f),
            ExprKind::Call(_, args, opts) => {
                &&& some(walk::call_args_walk(t, args), f) == asks_args(t, args, f)
                &&& opts is Some ==> some(walk::named_args_walk(t, opts->0@), f) == asks_opts(
                    t,
                    opts,
                    f,
                )
            },
            ExprKind::Index(_, index) => some(walk::opt_expr_walk(t, index), f) == asks_opt(
                t,
                index,
                f,
            ),
            ExprKind::Slice(_, start, end) => {
                &&& some(walk::opt_expr_walk(t, start), f) == asks_opt(t, start, f)
                &&& some(walk::opt_expr_walk(t, end), f) == asks_opt(t, end, f)
            },
            ExprKind::Tuple(exprs) => some(walk::opt_exprs_walk(t, exprs@), f) <==> exists|i: int|
                0 <= i < exprs@.len() && #[trigger] exprs@[i] is Some && asks(t, exprs@[i]->0, f),
            _ => true,
        },
{
    lemma_some_one(Node::Expr(&expr), f);
    match expr.kind {
        ExprKind::Array(exprs) => lemma_exprs(t, exprs@, f),
        ExprKind::Call(_, args, opts) => {
            lemma_args(t, args, f);
            if let Some(opts) = opts {
                lemma_named_args(t, opts@, f);
            }
        },
        ExprKind::Tuple(exprs) => lemma_opt_exprs(t, exprs@, f),
        _ => {},
    }
}

/// A walk that reads values answers a question by the expression itself or by one of its
/// operands: all of them, the positional and the named arguments and the options of a call
/// among them; but what stands inside a type is no value.
pub proof fn law_values<'a>(expr: Expr, f: spec_fn(Node<'a>) -> bool)
    ensures
        ({
            let t = Traversal::Values;
            asks(t, expr, f) <==> f(Node::Expr(&expr)) || match expr.kind {
                ExprKind::Array(exprs) => exists|i: int|
                    0 <= i < exprs@.len() && asks(t, #[trigger] exprs@[i], f),
                ExprKind::Assign(lhs, _, rhs) => asks(t, *lhs, f) || asks(t, *rhs, f),
                ExprKind::Binary(lhs, _, rhs) => asks(t, *lhs, f) || asks(t, *rhs, f),
                ExprKind::Call(callee, args, opts) => asks(t, *callee, f) || asks_args(t, args, f)
                    || asks_opts(t, opts, f),
                ExprKind::Delete(inner) => asks(t, *inner, f),
                ExprKind::Ident(_) => false,
                ExprKind::Index(base, index) => asks(t, *base, f) || asks_opt(t, index, f),
                ExprKind::Slice(base, start, end) => asks(t, *base, f) || asks_opt(t, start, f)
                    || asks_opt(t, end, f),
                ExprKind::Lit => false,
                ExprKind::Member(inner, _) => asks(t, *inner, f),
                ExprKind::New(_) => false,
                ExprKind::Payable(inner) => asks(t, *inner, f),
                ExprKind::Ternary(cond, then, other) => asks(t, *cond, f) || asks(t, *then, f)
                    || asks(t, *other, f),
                ExprKind::Tuple(exprs) => exists|i: int|
                    0 <= i < exprs@.len() && #[trigger] exprs@[i] is Some && asks(
                        t,
                        exprs@[i]->0,
                        f,
                    ),
                ExprKind::TypeCall(_) => false,
                ExprKind::Type(_) => false,
                ExprKind::Unary(_, inner) => asks(t, *inner, f),
                ExprKind::Invalid => false,
            }
        }),
{
    broadcast use lemma_some_add;

    lemma_below(Traversal::Values, expr, f);
}

/// A walk that follows where a value comes from enters what a walk over values enters, but for
/// the target of an assignment.
pub proof fn law_flow<'a>(expr: Expr, f: spec_fn(Node<'a>) -> bool)
    ensures
        ({
            let t = Traversal::Flow;
            asks(t, expr, f) <==> f(Node::Expr(&expr)) || match expr.kind {
                ExprKind::Array(exprs) => exists|i: int|
                    0 <= i < exprs@.len() && asks(t, #[trigger] exprs@[i], f),
                ExprKind::Assign(lhs, op, rhs) => asks(t, *rhs, f),
                ExprKind::Binary(lhs, _, rhs) => asks(t, *lhs, f) || asks(t, *rhs, f),
                ExprKind::Call(callee, args, opts) => asks(t, *callee, f) || asks_args(t, args, f)
                    || asks_opts(t, opts, f),
                ExprKind::Delete(inner) => asks(t, *inner, f),
                ExprKind::Ident(_) => false,
                ExprKind::Index(base, index) => asks(t, *base, f) || asks_opt(t, index, f),
                ExprKind::Slice(base, start, end) => asks(t, *base, f) || asks_opt(t, start, f)
                    || asks_opt(t, end, f),
                ExprKind::Lit => false,
                ExprKind::Member(inner, _) => asks(t, *inner, f),
                ExprKind::New(ty) => false,
                ExprKind::Payable(inner) => asks(t, *inner, f),
                ExprKind::Ternary(cond, then, other) => asks(t, *cond, f) || asks(t, *then, f)
                    || asks(t, *other, f),
                ExprKind::Tuple(exprs) => exists|i: int|
                    0 <= i < exprs@.len() && #[trigger] exprs@[i] is Some && asks(
                        t,
                        exprs@[i]->0,
                        f,
                    ),
                ExprKind::TypeCall(ty) => false,
                ExprKind::Type(ty) => false,
                ExprKind::Unary(_, inner) => asks(t, *inner, f),
                ExprKind::Invalid => false,
            }
        }),
{
    broadcast use lemma_some_add;

    lemma_below(Traversal::Flow, expr, f);
}

/// A walk over the places that a target names enters what it indexes, slices, selects from or
/// applies an operator to, and every element of a tuple; an index, an argument or an operand
/// names no place.
pub proof fn law_targets<'a>(expr: Expr, f: spec_fn(Node<'a>) -> bool)
    ensures
        ({
            let t = Traversal::Targets;
            asks(t, expr, f) <==> f(Node::Expr(&expr)) || match expr.kind {
                ExprKind::Array(exprs) => false,
                ExprKind::Assign(lhs, op, rhs) => false,
                ExprKind::Binary(lhs, _, rhs) => false,
                ExprKind::Call(callee, args, opts) => false,
                ExprKind::Delete(inner) => asks(t, *inner, f),
                ExprKind::Ident(_) => false,
                ExprKind::Index(base, index) => asks(t, *base, f),
                ExprKind::Slice(base, start, end) => asks(t, *base, f),
                ExprKind::Lit => false,
                ExprKind::Member(inner, _) => asks(t, *inner, f),
                ExprKind::New(ty) => false,
                ExprKind::Payable(inner) => asks(t, *inner, f),
                ExprKind::Ternary(cond, then, other) => false,
                ExprKind::Tuple(exprs) => exists|i: int|
                    0 <= i < exprs@.len() && #[trigger] exprs@[i] is Some && asks(
                        t,
                        exprs@[i]->0,
                        f,
                    ),
                ExprKind::TypeCall(ty) => false,
                ExprKind::Type(ty) => false,
                ExprKind::Unary(_, inner) => asks(t, *inner, f),
                ExprKind::Invalid => false,
            }
        }),
{
    broadcast use lemma_some_add;

    lemma_below(Traversal::Targets, expr, f);
}

/// The full walk enters every part of an expression, what stands inside types included.
pub proof fn law_everything<'a>(expr: Expr, f: spec_fn(Node<'a>) -> bool)
    ensures
        ({
            let t = Traversal::Everything;
            asks(t, expr, f) <==> f(Node::Expr(&expr)) || match expr.kind {
                ExprKind::Array(exprs) => exists|i: int|
                    0 <= i < exprs@.len() && asks(t, #[trigger] exprs@[i], f),
                ExprKind::Assign(lhs, op, rhs) => asks(t, *lhs, f) || asks(t, *rhs, f),
                ExprKind::Binary(lhs, _, rhs) => asks(t, *lhs, f) || asks(t, *rhs, f),
                ExprKind::Call(callee, args, opts) => asks(t, *callee, f) || asks_args(t, args, f)
                    || asks_opts(t, opts, f),
                ExprKind::Delete(inner) => asks(t, *inner, f),
                ExprKind::Ident(_) => false,
                ExprKind::Index(base, index) => asks(t, *base, f) || asks_opt(t, index, f),
                ExprKind::Slice(base, start, end) => asks(t, *base, f) || asks_opt(t, start, f)
                    || asks_opt(t, end, f),
                ExprKind::Lit => false,
                ExprKind::Member(inner, _) => asks(t, *inner, f),
                ExprKind::New(ty) => asks_type(t, ty, f),
                ExprKind::Payable(inner) => asks(t, *inner, f),
                ExprKind::Ternary(cond, then, other) => asks(t, *cond, f) || asks(t, *then, f)
                    || asks(t, *other, f),
                ExprKind::Tuple(exprs) => exists|i: int|
                    0 <= i < exprs@.len() && #[trigger] exprs@[i] is Some && asks(
                        t,
                        exprs@[i]->0,
                        f,
                    ),
                ExprKind::TypeCall(ty) => asks_type(t, ty, f),
                ExprKind::Type(ty) => asks_type(t, ty, f),
                ExprKind::Unary(_, inner) => asks(t, *inner, f),
                ExprKind::Invalid => false,
            }
        }),
{
    broadcast use lemma_some_add;

    lemma_below(Traversal::Everything, expr, f);
}

/// A walk that looks for guards enters everything but what `require` and `assert` calls hold,
/// what is deleted, and the target of a plain assignment.
pub proof fn law_guards<'a>(expr: Expr, f: spec_fn(Node<'a>) -> bool)
    ensures
        ({
            let t = Traversal::Guards;
            asks(t, expr, f) <==> f(Node::Expr(&expr)) || match expr.kind {
                ExprKind::Array(exprs) => exists|i: int|
                    0 <= i < exprs@.len() && asks(t, #[trigger] exprs@[i], f),
                ExprKind::Assign(lhs, op, rhs) => (op is Some && asks(t, *lhs, f))
                    || asks(t, *rhs, f),
                ExprKind::Binary(lhs, _, rhs) => asks(t, *lhs, f) || asks(t, *rhs, f),
                ExprKind::Call(callee, args, opts) => !names::names_guard_builtin(*callee) && (asks(
                    t,
                    *callee,
                    f,
                ) || asks_args(t, args, f) || asks_opts(t, opts, f)),
                ExprKind::Delete(inner) => false,
                ExprKind::Ident(_) => false,
                ExprKind::Index(base, index) => asks(t, *base, f) || asks_opt(t, index, f),
                ExprKind::Slice(base, start, end) => asks(t, *base, f) || asks_opt(t, start, f)
                    || asks_opt(t, end, f),
                ExprKind::Lit => false,
                ExprKind::Member(inner, _) => asks(t, *inner, f),
                ExprKind::New(ty) => asks_type(t, ty, f),
                ExprKind::Payable(inner) => asks(t, *inner, f),
                ExprKind::Ternary(cond, then, other) => asks(t, *cond, f) || asks(t, *then, f)
                    || asks(t, *other, f),
                ExprKind::Tuple(exprs) => exists|i: int|
                    0 <= i < exprs@.len() && #[trigger] exprs@[i] is Some && asks(
                        t,
                        exprs@[i]->0,
                        f,
                    ),
                ExprKind::TypeCall(ty) => asks_type(t, ty, f),
                ExprKind::Type(ty) => asks_type(t, ty, f),
                ExprKind::Unary(_, inner) => asks(t, *inner, f),
                ExprKind::Invalid => false,
            }
        }),
{
    broadcast use lemma_some_add;

    lemma_below(Traversal::Guards, expr, f);
}

/// One of the statements answers the question.
pub open spec fn asks_stmts<'a>(
    t: Traversal,
    stmts: Seq<Stmt>,
    f: spec_fn(Node<'a>) -> bool,
) -> bool {
    exists|i: int| 0 <= i < stmts.len() && asks_stmt(t, #[trigger] stmts[i], f)
}

/// A walk over a list of statements meets what the walk over any one of them meets.
pub proof fn law_statements<'a>(t: Traversal, stmts: Seq<Stmt>, f: spec_fn(Node<'a>) -> bool)
    ensures
        some(walk::stmts_walk(t, stmts), f) == asks_stmts(t, stmts, f),
    decreases stmts.len(),
{
    broadcast use lemma_some_add;

    if stmts.len() > 0 {
        let rest = stmts.drop_last();
        law_statements(t, rest, f);
        assert(stmts[stmts.len() - 1] == stmts.last());
        assert forall|i: int| 0 <= i < rest.len() implies rest[i] == #[trigger] stmts[i] by {}
        if asks_stmts(t, rest, f) {
            let i = choose|i: int| 0 <= i < rest.len() && asks_stmt(t, #[trigger] rest[i], f);
            assert(asks_stmt(t, stmts[i], f));
        }
    }
}

/// The clause answers the question, by a declaration or by a statement of its block.
pub open spec fn asks_clause<'a>(
    t: Traversal,
    clause: TryCatchClause,
    f: spec_fn(Node<'a>) -> bool,
) -> bool {
    ||| exists|i: int| 0 <= i < clause.args@.len() && asks_decl(t, #[trigger] clause.args@[i], f)
    ||| asks_stmts(t, clause.block.stmts@, f)
}

proof fn lemma_clauses<'a>(
    t: Traversal,
    clauses: Seq<TryCatchClause>,
    f: spec_fn(Node<'a>) -> bool,
)
    ensures
        some(walk::clauses_walk(t, clauses), f) <==> exists|i: int|
            0 <= i < clauses.len() && asks_clause(t, #[trigger] clauses[i], f),
    decreases clauses.len(),
{
    broadcast use lemma_some_add;

    if clauses.len() > 0 {
        let rest = clauses.drop_last();
        lemma_clauses(t, rest, f);
        lemma_decls(t, clauses.last().args@, f);
        law_statements(t, clauses.last().block.stmts@, f);
        assert(clauses[clauses.len() - 1] == clauses.last());
        assert forall|i: int| 0 <= i < rest.len() implies rest[i] == #[trigger] clauses[i] by {}
        if exists|i: int| 0 <= i < rest.len() && asks_clause(t, #[trigger] rest[i], f) {
            let i = choose|i: int| 0 <= i < rest.len() && asks_clause(t, #[trigger] rest[i], f);
            assert(asks_clause(t, clauses[i], f));
        }
    }
}

/// A walk answers a question by the statement itself or by what stands in it, at any depth: in
/// blocks and loops, in both branches of an `if`, in every clause of a `try`. Only a walk that
/// looks for guards passes over the condition of an `if`.
pub proof fn law_statement<'a>(t: Traversal, stmt: Stmt, f: spec_fn(Node<'a>) -> bool)
    ensures
        asks_stmt(t, stmt, f) <==> f(Node::Stmt(&stmt)) || match stmt {
            Stmt::DeclSingle(decl) => asks_decl(t, decl, f),
            Stmt::DeclMulti(decls, value) => {
                ||| exists|i: int|
                    0 <= i < decls@.len() && #[trigger] decls@[i] is Some && asks_decl(
                        t,
                        decls@[i]->0,
                        f,
                    )
                ||| asks(t, *value, f)
            },
            Stmt::Block(block) => asks_stmts(t, block.stmts@, f),
            Stmt::UncheckedBlock(block) => asks_stmts(t, block.stmts@, f),
            Stmt::Emit(expr) => asks(t, *expr, f),
            Stmt::Revert(expr) => asks(t, *expr, f),
            Stmt::Return(expr) => asks_opt(t, expr, f),
            Stmt::Break => false,
            Stmt::Continue => false,
            Stmt::Loop(block) => asks_stmts(t, block.stmts@, f),
            Stmt::If(cond, then, other) => {
                ||| !(t is Guards) && asks(t, *cond, f)
                ||| asks_stmt(t, *then, f)
                ||| other is Some && asks_stmt(t, *other->0, f)
            },
            Stmt::Try(expr, clauses) => {
                ||| asks(t, *expr, f)
                ||| exists|i: int|
                    0 <= i < clauses@.len() && asks_clause(t, #[trigger] clauses@[i], f)
            },
            Stmt::Expr(expr) => asks(t, *expr, f),
            Stmt::Placeholder => false,
            Stmt::Invalid => false,
        },
{
    broadcast use lemma_some_add;

    lemma_some_one(Node::Stmt(&stmt), f);
    match stmt {
        Stmt::DeclSingle(decl) => lemma_decl(t, decl, f),
        Stmt::DeclMulti(decls, _) => lemma_opt_decls(t, decls@, f),
        Stmt::Block(block) => law_statements(t, block.stmts@, f),
        Stmt::UncheckedBlock(block) => law_statements(t, block.stmts@, f),
        Stmt::Loop(block) => law_statements(t, block.stmts@, f),
        Stmt::Return(expr) => lemma_opt_expr(t, expr, f),
        Stmt::Try(_, clauses) => lemma_clauses(t, clauses@, f),
        _ => {},
    }
}

} // verus!
