//! In what order the analysis meets a program, and what it holds of modifier parameters.

use vstd::prelude::*;

use crate::analyzer::{self, Analysis, Scope};
use crate::arguments;
use crate::hir::{
    Block, CallArgs, Expr, ExprKind, Function, FunctionId, ItemId, Modifier, NamedArg, Res,
    Stmt, TryCatchClause, Type, VarDecl, VariableId,
};
use crate::laws;
use crate::report;
use crate::walk::{self, Node, Traversal};

verus! {

/// The analysis after an expression.
pub open spec fn seen(scope: Scope, st: Analysis, expr: Expr) -> Analysis {
    analyzer::run(scope, st, walk::expr_walk(Traversal::Everything, &expr))
}

/// The analysis after an expression that may be missing.
pub open spec fn seen_opt(scope: Scope, st: Analysis, expr: Option<Box<Expr>>) -> Analysis {
    match expr {
        Some(expr) => seen(scope, st, *expr),
        None => st,
    }
}

/// The analysis after the expressions, from the first to the last.
pub open spec fn seen_all(scope: Scope, st: Analysis, exprs: Seq<Expr>) -> Analysis {
    exprs.fold_left(st, |st: Analysis, expr: Expr| seen(scope, st, expr))
}

/// The analysis after the elements that are there, from the first to the last.
pub open spec fn seen_elements(scope: Scope, st: Analysis, exprs: Seq<Option<Expr>>) -> Analysis {
    exprs.fold_left(
        st,
        |st: Analysis, expr: Option<Expr>|
            match expr {
                Some(expr) => seen(scope, st, expr),
                None => st,
            },
    )
}

/// The analysis after the values of the arguments, from the first to the last.
pub open spec fn seen_args(scope: Scope, st: Analysis, args: Seq<NamedArg>) -> Analysis {
    args.fold_left(st, |st: Analysis, arg: NamedArg| seen(scope, st, arg.value))
}

/// The analysis after a statement.
pub open spec fn seen_stmt(scope: Scope, st: Analysis, stmt: Stmt) -> Analysis {
    analyzer::run(scope, st, walk::stmt_walk(Traversal::Everything, &stmt))
}

/// The analysis after the statements, from the first to the last.
pub open spec fn seen_stmts(scope: Scope, st: Analysis, stmts: Seq<Stmt>) -> Analysis {
    stmts.fold_left(st, |st: Analysis, stmt: Stmt| seen_stmt(scope, st, stmt))
}

/// The analysis after what stands inside a type.
pub open spec fn seen_type(scope: Scope, st: Analysis, ty: Type) -> Analysis {
    analyzer::run(scope, st, walk::type_walk(Traversal::Everything, ty))
}

/// The analysis after a declaration: its type, then its initializer.
pub open spec fn seen_decl(scope: Scope, st: Analysis, decl: VarDecl) -> Analysis {
    seen_opt(scope, seen_type(scope, st, decl.ty), decl.initializer)
}

/// The analysis after the declarations, from the first to the last.
pub open spec fn seen_decls(scope: Scope, st: Analysis, decls: Seq<VarDecl>) -> Analysis {
    decls.fold_left(st, |st: Analysis, decl: VarDecl| seen_decl(scope, st, decl))
}

/// The analysis after the declarations that are there, from the first to the last.
pub open spec fn seen_opt_decls(
    scope: Scope,
    st: Analysis,
    decls: Seq<Option<VarDecl>>,
) -> Analysis {
    decls.fold_left(
        st,
        |st: Analysis, decl: Option<VarDecl>|
            match decl {
                Some(decl) => seen_decl(scope, st, decl),
                None => st,
            },
    )
}

/// The analysis after the clauses of a `try`, from the first to the last: of each the
/// declarations, then the block.
pub open spec fn seen_clauses(
    scope: Scope,
    st: Analysis,
    clauses: Seq<TryCatchClause>,
) -> Analysis {
    clauses.fold_left(
        st,
        |st: Analysis, clause: TryCatchClause|
            seen_stmts(scope, seen_decls(scope, st, clause.args@), clause.block.stmts@),
    )
}

proof fn lemma_decl(scope: Scope, st: Analysis, decl: VarDecl)
    ensures
        analyzer::run(scope, st, walk::decl_walk(Traversal::Everything, decl)) == seen_decl(
            scope,
            st,
            decl,
        ),
{
    let t = Traversal::Everything;
    let typed = seen_type(scope, st, decl.ty);
    analyzer::lemma_run_add(
        scope,
        st,
        walk::type_walk(t, decl.ty),
        walk::opt_expr_walk(t, decl.initializer),
    );
    lemma_nothing(scope, typed);
}

proof fn lemma_decls(scope: Scope, st: Analysis, decls: Seq<VarDecl>)
    ensures
        analyzer::run(scope, st, walk::decls_walk(Traversal::Everything, decls)) == seen_decls(
            scope,
            st,
            decls,
        ),
    decreases decls.len(),
{
    reveal_with_fuel(Seq::fold_left, 2);
    if decls.len() > 0 {
        let before = walk::decls_walk(Traversal::Everything, decls.drop_last());
        lemma_decls(scope, st, decls.drop_last());
        analyzer::lemma_run_add(
            scope,
            st,
            before,
            walk::decl_walk(Traversal::Everything, decls.last()),
        );
        lemma_decl(scope, analyzer::run(scope, st, before), decls.last());
    }
}

proof fn lemma_opt_decls(scope: Scope, st: Analysis, decls: Seq<Option<VarDecl>>)
    ensures
        analyzer::run(scope, st, walk::opt_decls_walk(Traversal::Everything, decls))
            == seen_opt_decls(scope, st, decls),
    decreases decls.len(),
{
    reveal_with_fuel(Seq::fold_left, 2);
    if decls.len() > 0 {
        let before = walk::opt_decls_walk(Traversal::Everything, decls.drop_last());
        lemma_opt_decls(scope, st, decls.drop_last());
        match decls.last() {
            Some(decl) => {
                analyzer::lemma_run_add(
                    scope,
                    st,
                    before,
                    walk::decl_walk(Traversal::Everything, decl),
                );
                lemma_decl(scope, analyzer::run(scope, st, before), decl);
            },
            None => {
                assert(walk::opt_decls_walk(Traversal::Everything, decls) == before);
            },
        }
    }
}

proof fn lemma_clauses(scope: Scope, st: Analysis, clauses: Seq<TryCatchClause>)
    ensures
        analyzer::run(scope, st, walk::clauses_walk(Traversal::Everything, clauses))
            == seen_clauses(scope, st, clauses),
    decreases clauses.len(),
{
    reveal_with_fuel(Seq::fold_left, 2);
    if clauses.len() > 0 {
        let t = Traversal::Everything;
        let before = walk::clauses_walk(t, clauses.drop_last());
        let args = walk::decls_walk(t, clauses.last().args@);
        let st_before = analyzer::run(scope, st, before);
        lemma_clauses(scope, st, clauses.drop_last());
        analyzer::lemma_run_add(
            scope,
            st,
            before + args,
            walk::stmts_walk(t, clauses.last().block.stmts@),
        );
        analyzer::lemma_run_add(scope, st, before, args);
        lemma_decls(scope, st_before, clauses.last().args@);
        lemma_stmts(
            scope,
            seen_decls(scope, st_before, clauses.last().args@),
            clauses.last().block.stmts@,
        );
    }
}

/// What stands inside a type is analyzed in order: the element type before the size, the key
/// before the value, parameters before returns.
pub proof fn law_type_order(scope: Scope, st: Analysis, ty: Type)
    ensures
        match ty {
            Type::Array(element, size) => seen_type(scope, st, ty) == seen_opt(
                scope,
                seen_type(scope, st, *element),
                size,
            ),
            Type::Function(params, results) => seen_type(scope, st, ty) == seen_decls(
                scope,
                seen_decls(scope, st, params@),
                results@,
            ),
            Type::Mapping(key, value) => seen_type(scope, st, ty) == seen_type(
                scope,
                seen_type(scope, st, *key),
                *value,
            ),
            _ => seen_type(scope, st, ty) == st,
        },
{
    broadcast use lemma_portions;

    let t = Traversal::Everything;
    lemma_nothing(scope, st);
    match ty {
        Type::Array(element, size) => {
            lemma_nothing(scope, seen_type(scope, st, *element));
            assert(walk::opt_expr_walk(t, size) == match size {
                Some(size) => walk::expr_walk(t, &size),
                None => seq![],
            });
        },
        Type::Function(params, results) => {
            lemma_decls(scope, st, params@);
            lemma_decls(scope, seen_decls(scope, st, params@), results@);
        },
        _ => {},
    }
}

proof fn lemma_all(scope: Scope, st: Analysis, exprs: Seq<Expr>)
    ensures
        analyzer::run(scope, st, walk::exprs_walk(Traversal::Everything, exprs)) == seen_all(
            scope,
            st,
            exprs,
        ),
    decreases exprs.len(),
{
    reveal_with_fuel(Seq::fold_left, 2);
    if exprs.len() > 0 {
        lemma_all(scope, st, exprs.drop_last());
        analyzer::lemma_run_add(
            scope,
            st,
            walk::exprs_walk(Traversal::Everything, exprs.drop_last()),
            walk::expr_walk(Traversal::Everything, &exprs.last()),
        );
    }
}

proof fn lemma_elements(scope: Scope, st: Analysis, exprs: Seq<Option<Expr>>)
    ensures
        analyzer::run(scope, st, walk::opt_exprs_walk(Traversal::Everything, exprs))
            == seen_elements(scope, st, exprs),
    decreases exprs.len(),
{
    reveal_with_fuel(Seq::fold_left, 2);
    if exprs.len() > 0 {
        let before = walk::opt_exprs_walk(Traversal::Everything, exprs.drop_last());
        lemma_elements(scope, st, exprs.drop_last());
        match exprs.last() {
            Some(expr) => analyzer::lemma_run_add(
                scope,
                st,
                before,
                walk::expr_walk(Traversal::Everything, &expr),
            ),
            None => {
                assert(walk::opt_exprs_walk(Traversal::Everything, exprs) == before);
            },
        }
    }
}

proof fn lemma_args(scope: Scope, st: Analysis, args: Seq<NamedArg>)
    ensures
        analyzer::run(scope, st, walk::named_args_walk(Traversal::Everything, args)) == seen_args(
            scope,
            st,
            args,
        ),
    decreases args.len(),
{
    reveal_with_fuel(Seq::fold_left, 2);
    if args.len() > 0 {
        lemma_args(scope, st, args.drop_last());
        analyzer::lemma_run_add(
            scope,
            st,
            walk::named_args_walk(Traversal::Everything, args.drop_last()),
            walk::expr_walk(Traversal::Everything, &args.last().value),
        );
    }
}

/// A block is analyzed statement by statement, from the first to the last.
pub proof fn law_statement_order(scope: Scope, st: Analysis, block: Block)
    ensures
        analyzer::run_block(scope, st, block) == seen_stmts(scope, st, block.stmts@),
{
    lemma_stmts(scope, st, block.stmts@);
}

proof fn lemma_stmts(scope: Scope, st: Analysis, stmts: Seq<Stmt>)
    ensures
        analyzer::run(scope, st, walk::stmts_walk(Traversal::Everything, stmts)) == seen_stmts(
            scope,
            st,
            stmts,
        ),
    decreases stmts.len(),
{
    reveal_with_fuel(Seq::fold_left, 2);
    if stmts.len() > 0 {
        lemma_stmts(scope, st, stmts.drop_last());
        analyzer::lemma_run_add(
            scope,
            st,
            walk::stmts_walk(Traversal::Everything, stmts.drop_last()),
            walk::stmt_walk(Traversal::Everything, &stmts.last()),
        );
    }
}

proof fn lemma_one(scope: Scope, st: Analysis, node: Node)
    ensures
        analyzer::run(scope, st, seq![node]) == analyzer::step(scope, st, node),
{
    let one = seq![node];
    assert(one.drop_last() == Seq::<Node>::empty());
    assert(one.last() == node);
    assert(analyzer::run(scope, st, Seq::<Node>::empty()) == st);
}

proof fn lemma_nothing(scope: Scope, st: Analysis)
    ensures
        analyzer::run(scope, st, Seq::<Node>::empty()) == st,
{
}

/// Running two portions, as a rewriting rule.
broadcast proof fn lemma_portions(scope: Scope, st: Analysis, a: Seq<Node>, b: Seq<Node>)
    ensures
        #[trigger] analyzer::run(scope, st, a + b) == analyzer::run(
            scope,
            analyzer::run(scope, st, a),
            b,
        ),
{
    analyzer::lemma_run_add(scope, st, a, b);
}

/// An expression takes effect before its operands, and these from left to right: the target of
/// an assignment before the value, the callee before the options and these before the arguments.
pub proof fn law_operand_order(scope: Scope, st: Analysis, expr: Expr)
    ensures
        ({
            let first = analyzer::step(scope, st, Node::Expr(&expr));
            match expr.kind {
                ExprKind::Array(exprs) => seen(scope, st, expr) == seen_all(scope, first, exprs@),
                ExprKind::Assign(lhs, _, rhs) => seen(scope, st, expr) == seen(
                    scope,
                    seen(scope, first, *lhs),
                    *rhs,
                ),
                ExprKind::Binary(lhs, _, rhs) => seen(scope, st, expr) == seen(
                    scope,
                    seen(scope, first, *lhs),
                    *rhs,
                ),
                ExprKind::Call(callee, args, opts) => {
                    let called = seen(scope, first, *callee);
                    let opted = match opts {
                        Some(opts) => seen_args(scope, called, opts@),
                        None => called,
                    };
                    seen(scope, st, expr) == match args {
                        CallArgs::Unnamed(exprs) => seen_all(scope, opted, exprs@),
                        CallArgs::Named(named) => seen_args(scope, opted, named@),
                    }
                },
                ExprKind::Delete(inner) => seen(scope, st, expr) == seen(scope, first, *inner),
                ExprKind::Index(base, index) => seen(scope, st, expr) == seen_opt(
                    scope,
                    seen(scope, first, *base),
                    index,
                ),
                ExprKind::Slice(base, start, end) => seen(scope, st, expr) == seen_opt(
                    scope,
                    seen_opt(scope, seen(scope, first, *base), start),
                    end,
                ),
                ExprKind::Member(inner, _) => seen(scope, st, expr) == seen(scope, first, *inner),
                ExprKind::Payable(inner) => seen(scope, st, expr) == seen(scope, first, *inner),
                ExprKind::Unary(_, inner) => seen(scope, st, expr) == seen(scope, first, *inner),
                ExprKind::Ternary(cond, then, other) => seen(scope, st, expr) == seen(
                    scope,
                    seen(scope, seen(scope, first, *cond), *then),
                    *other,
                ),
                ExprKind::Tuple(exprs) => seen(scope, st, expr) == seen_elements(
                    scope,
                    first,
                    exprs@,
                ),
                ExprKind::Ident(_) => seen(scope, st, expr) == st,
                ExprKind::Lit => seen(scope, st, expr) == st,
                ExprKind::New(ty) => seen(scope, st, expr) == seen_type(scope, st, ty),
                ExprKind::TypeCall(ty) => seen(scope, st, expr) == seen_type(scope, st, ty),
                ExprKind::Type(ty) => seen(scope, st, expr) == seen_type(scope, st, ty),
                ExprKind::Invalid => seen(scope, st, expr) == st,
            }
        }),
{
    broadcast use lemma_portions;

    let t = Traversal::Everything;
    let first = analyzer::step(scope, st, Node::Expr(&expr));
    lemma_one(scope, st, Node::Expr(&expr));
    match expr.kind {
        ExprKind::Array(exprs) => lemma_all(scope, first, exprs@),
        ExprKind::Call(callee, args, opts) => {
            let called = seen(scope, first, *callee);
            lemma_nothing(scope, called);
            let opted = match opts {
                Some(opts) => seen_args(scope, called, opts@),
                None => called,
            };
            if let Some(opts) = opts {
                lemma_args(scope, called, opts@);
            }
            match args {
                CallArgs::Unnamed(exprs) => {
                    lemma_all(scope, opted, exprs@);
                    assert(walk::call_args_walk(t, args) == walk::exprs_walk(t, exprs@));
                },
                CallArgs::Named(named) => {
                    lemma_args(scope, opted, named@);
                    assert(walk::call_args_walk(t, args) == walk::named_args_walk(t, named@));
                },
            }
        },
        ExprKind::Index(base, index) => {
            lemma_nothing(scope, seen(scope, first, *base));
            assert(walk::opt_expr_walk(t, index) == match index {
                Some(index) => walk::expr_walk(t, &index),
                None => seq![],
            });
        },
        ExprKind::Slice(base, start, end) => {
            lemma_nothing(scope, seen(scope, first, *base));
            lemma_nothing(scope, seen_opt(scope, seen(scope, first, *base), start));
            assert(walk::opt_expr_walk(t, start) == match start {
                Some(start) => walk::expr_walk(t, &start),
                None => seq![],
            });
            assert(walk::opt_expr_walk(t, end) == match end {
                Some(end) => walk::expr_walk(t, &end),
                None => seq![],
            });
        },
        ExprKind::Tuple(exprs) => lemma_elements(scope, first, exprs@),
        _ => {
            lemma_nothing(scope, first);
        },
    }
}

/// A statement takes effect before what it holds: the condition of an `if` before its branches,
/// the first branch before the second; a declaration by its initializer, which is looked at
/// after the declaration took effect.
pub proof fn law_substatement_order(scope: Scope, st: Analysis, stmt: Stmt)
    ensures
        match stmt {
            Stmt::Block(block) => seen_stmt(scope, st, stmt) == seen_stmts(
                scope,
                st,
                block.stmts@,
            ),
            Stmt::UncheckedBlock(block) => seen_stmt(scope, st, stmt) == seen_stmts(
                scope,
                st,
                block.stmts@,
            ),
            Stmt::Loop(block) => seen_stmt(scope, st, stmt) == seen_stmts(scope, st, block.stmts@),
            Stmt::Emit(expr) => seen_stmt(scope, st, stmt) == seen(scope, st, *expr),
            Stmt::Revert(expr) => seen_stmt(scope, st, stmt) == seen(scope, st, *expr),
            Stmt::Expr(expr) => seen_stmt(scope, st, stmt) == seen(scope, st, *expr),
            Stmt::Return(expr) => seen_stmt(scope, st, stmt) == seen_opt(scope, st, expr),
            Stmt::If(cond, then, other) => {
                let branched = seen_stmt(scope, seen(scope, st, *cond), *then);
                seen_stmt(scope, st, stmt) == match other {
                    Some(other) => seen_stmt(scope, branched, *other),
                    None => branched,
                }
            },
            Stmt::Break => seen_stmt(scope, st, stmt) == st,
            Stmt::Continue => seen_stmt(scope, st, stmt) == st,
            Stmt::Placeholder => seen_stmt(scope, st, stmt) == st,
            Stmt::Invalid => seen_stmt(scope, st, stmt) == st,
            Stmt::DeclSingle(decl) => seen_stmt(scope, st, stmt) == seen_decl(
                scope,
                analyzer::step(scope, st, Node::Stmt(&stmt)),
                decl,
            ),
            Stmt::DeclMulti(decls, value) => seen_stmt(scope, st, stmt) == seen(
                scope,
                seen_opt_decls(scope, st, decls@),
                *value,
            ),
            Stmt::Try(expr, clauses) => seen_stmt(scope, st, stmt) == seen_clauses(
                scope,
                seen(scope, st, *expr),
                clauses@,
            ),
        },
{
    broadcast use lemma_portions;

    let t = Traversal::Everything;
    lemma_one(scope, st, Node::Stmt(&stmt));
    lemma_nothing(scope, st);
    match stmt {
        Stmt::Block(block) => lemma_stmts(scope, st, block.stmts@),
        Stmt::UncheckedBlock(block) => lemma_stmts(scope, st, block.stmts@),
        Stmt::Loop(block) => lemma_stmts(scope, st, block.stmts@),
        Stmt::Return(expr) => {
            assert(walk::opt_expr_walk(t, expr) == match expr {
                Some(expr) => walk::expr_walk(t, &expr),
                None => seq![],
            });
        },
        Stmt::DeclSingle(decl) => {
            lemma_decl(scope, analyzer::step(scope, st, Node::Stmt(&stmt)), decl);
        },
        Stmt::DeclMulti(decls, _) => lemma_opt_decls(scope, st, decls@),
        Stmt::Try(expr, clauses) => lemma_clauses(scope, seen(scope, st, *expr), clauses@),
        Stmt::If(cond, then, _) => {
            lemma_nothing(scope, seen_stmt(scope, seen(scope, st, *cond), *then));
        },
        _ => {},
    }
}

/// The value that an invocation passes for each parameter of the modifier, at whatever position,
/// decides what is held of the parameter; a parameter that gets no value is clean; what is held
/// of other variables stays.
pub proof fn law_bound_parameters(
    scope: Scope,
    st: Analysis,
    modifier: Function,
    invocation: Modifier,
    var: VariableId,
)
    requires
        modifier.parameters@.no_duplicates(),
    ensures
        ({
            let params = modifier.parameters@;
            let held = analyzer::bound(
                scope,
                st,
                modifier,
                invocation,
                params.len(),
            ).modifier_param_taint;
            &&& params.contains(var) ==> held.contains_key(var)
            &&& params.contains(var) && arguments::argument(scope.hir, modifier, invocation, var)
                is None ==> !held[var]
            &&& params.contains(var) && arguments::argument(scope.hir, modifier, invocation, var)
                is Some && unrelated(
                modifier,
                arguments::argument(scope.hir, modifier, invocation, var)->0,
            ) ==> held[var] == analyzer::tainted(
                scope,
                st,
                arguments::argument(scope.hir, modifier, invocation, var)->0,
            )
            &&& !params.contains(var) ==> analyzer::entry_of(held, var) == analyzer::entry_of(
                st.modifier_param_taint,
                var,
            )
        }),
{
    let params = modifier.parameters@;
    if params.contains(var) {
        let i = choose|i: int| 0 <= i < params.len() && params[i] == var;
        lemma_bound_at(scope, st, modifier, invocation, i, params.len());
        if arguments::argument(scope.hir, modifier, invocation, var) is Some {
            let arg = arguments::argument(scope.hir, modifier, invocation, var)->0;
            if unrelated(modifier, arg) {
                lemma_unrelated(scope, st, modifier, invocation, i as nat, arg);
            }
        }
    } else {
        laws::lemma_bound_entry(scope, st, modifier, invocation, params.len(), var);
    }
}

/// The value names no parameter of the modifier.
pub open spec fn unrelated(modifier: Function, arg: Expr) -> bool {
    let nodes = walk::expr_walk(Traversal::Flow, &arg);
    forall|i: int, j: int|
        0 <= i < nodes.len() && nodes[i] is Expr && nodes[i]->Expr_0.kind is Ident && 0 <= j
            < nodes[i]->Expr_0.kind->Ident_0@.len()
            && #[trigger] nodes[i]->Expr_0.kind->Ident_0@[j] is Item
            && nodes[i]->Expr_0.kind->Ident_0@[j]->Item_0 is Variable
            ==> !modifier.parameters@.contains(
            nodes[i]->Expr_0.kind->Ident_0@[j]->Item_0->Variable_0,
        )
}

proof fn lemma_bound_at(
    scope: Scope,
    st: Analysis,
    modifier: Function,
    invocation: Modifier,
    i: int,
    count: nat,
)
    requires
        modifier.parameters@.no_duplicates(),
        0 <= i < count <= modifier.parameters@.len(),
    ensures
        analyzer::entry_of(
            analyzer::bound(scope, st, modifier, invocation, count).modifier_param_taint,
            modifier.parameters@[i],
        ) == Some(
            arguments::argument(
                scope.hir,
                modifier,
                invocation,
                modifier.parameters@[i],
            ) is Some && analyzer::tainted(
                scope,
                analyzer::bound(scope, st, modifier, invocation, i as nat),
                arguments::argument(scope.hir, modifier, invocation, modifier.parameters@[i])->0,
            ),
        ),
    decreases count,
{
    if i < count - 1 {
        lemma_bound_at(scope, st, modifier, invocation, i, (count - 1) as nat);
        assert(modifier.parameters@[count - 1] != modifier.parameters@[i]);
    }
}

proof fn lemma_bound_taint(
    scope: Scope,
    st: Analysis,
    modifier: Function,
    invocation: Modifier,
    count: nat,
)
    ensures
        analyzer::bound(scope, st, modifier, invocation, count).taint == st.taint,
    decreases count,
{
    if count > 0 {
        lemma_bound_taint(scope, st, modifier, invocation, (count - 1) as nat);
    }
}

proof fn lemma_unrelated(
    scope: Scope,
    st: Analysis,
    modifier: Function,
    invocation: Modifier,
    count: nat,
    arg: Expr,
)
    requires
        unrelated(modifier, arg),
        count <= modifier.parameters@.len(),
    ensures
        analyzer::tainted(
            scope,
            analyzer::bound(scope, st, modifier, invocation, count),
            arg,
        ) == analyzer::tainted(scope, st, arg),
{
    let inside = analyzer::bound(scope, st, modifier, invocation, count);
    let nodes = walk::expr_walk(Traversal::Flow, &arg);
    lemma_bound_taint(scope, st, modifier, invocation, count);
    assert forall|i: int| 0 <= i < nodes.len() implies analyzer::is_source(
        scope,
        inside,
        #[trigger] nodes[i],
    ) == analyzer::is_source(scope, st, nodes[i]) by {
        if let Node::Expr(part) = nodes[i] {
            if let ExprKind::Ident(reses) = part.kind {
                assert forall|j: int| 0 <= j < reses@.len() implies analyzer::res_tainted(
                    scope,
                    inside,
                    #[trigger] reses@[j],
                ) == analyzer::res_tainted(scope, st, reses@[j]) by {
                    if let Res::Item(ItemId::Variable(var)) = reses@[j] {
                        assert(nodes[i]->Expr_0.kind->Ident_0@[j] is Item);
                        assert(!modifier.parameters@.contains(var));
                        laws::lemma_bound_entry(scope, st, modifier, invocation, count, var);
                    }
                }
            }
        }
    }
}

/// A modifier invocation has the effect of the modifier's body with its parameters bound, on the
/// taint of locals and on the reports alike; one without a body, or of no modifier at all, has
/// none.
pub proof fn law_invoked_bodies(scope: Scope, st: Analysis, invocation: Modifier)
    ensures
        match invocation.id {
            ItemId::Function(function) => {
                let modifier = scope.hir.functions@[function as int];
                let after = analyzer::run_invocation(scope, st, invocation);
                match modifier.body {
                    Some(body) => {
                        let inside = seen_stmts(
                            scope,
                            analyzer::bound(
                                scope,
                                st,
                                modifier,
                                invocation,
                                modifier.parameters@.len(),
                            ),
                            body.stmts@,
                        );
                        &&& after.taint == inside.taint
                        &&& after.findings == inside.findings
                        &&& after.emitted_vars == inside.emitted_vars
                    },
                    None => after == st,
                }
            },
            _ => analyzer::run_invocation(scope, st, invocation) == st,
        },
{
    if let ItemId::Function(function) = invocation.id {
        let modifier = scope.hir.functions@[function as int];
        if let Some(body) = modifier.body {
            law_statement_order(
                scope,
                analyzer::bound(scope, st, modifier, invocation, modifier.parameters@.len()),
                body,
            );
        }
    }
}

/// Parameters are bound one after the other, each to the taint of what is passed for it in the
/// light of those bound before, and binding changes nothing else.
pub proof fn law_binding_order(
    scope: Scope,
    st: Analysis,
    modifier: Function,
    invocation: Modifier,
    i: int,
)
    requires
        0 <= i < modifier.parameters@.len(),
    ensures
        analyzer::bound(scope, st, modifier, invocation, 0) == st,
        ({
            let before = analyzer::bound(scope, st, modifier, invocation, i as nat);
            let param = modifier.parameters@[i];
            let arg = arguments::argument(scope.hir, modifier, invocation, param);
            analyzer::bound(scope, st, modifier, invocation, (i + 1) as nat) == (Analysis {
                modifier_param_taint: before.modifier_param_taint.insert(
                    param,
                    arg is Some && analyzer::tainted(scope, before, arg->0),
                ),
                ..before
            })
        }),
{
}

proof fn lemma_last_restored(
    map: Map<VariableId, bool>,
    list: Seq<(VariableId, Option<bool>)>,
    k: int,
)
    requires
        0 <= k < list.len(),
        forall|j: int| k < j < list.len() ==> (#[trigger] list[j]).0 != list[k].0,
    ensures
        analyzer::entry_of(analyzer::restored(map, list), list[k].0) == list[k].1,
    decreases list.len(),
{
    if k < list.len() - 1 {
        assert(list[list.len() - 1].0 != list[k].0);
        assert forall|j: int| k < j < list.drop_last().len() implies (
        #[trigger] list.drop_last()[j]).0 != list.drop_last()[k].0 by {
            assert(list[j].0 != list[k].0);
        }
        lemma_last_restored(map, list.drop_last(), k);
    }
}

proof fn lemma_none_restored(
    map: Map<VariableId, bool>,
    list: Seq<(VariableId, Option<bool>)>,
    var: VariableId,
)
    requires
        forall|j: int| 0 <= j < list.len() ==> (#[trigger] list[j]).0 != var,
    ensures
        analyzer::entry_of(analyzer::restored(map, list), var) == analyzer::entry_of(map, var),
    decreases list.len(),
{
    if list.len() > 0 {
        assert(list[list.len() - 1].0 != var);
        lemma_none_restored(map, list.drop_last(), var);
    }
}

/// After an invocation, what is held of a parameter is what was held when it was bound for the
/// last time, whether or not it is declared twice; what is held of other variables stays.
pub proof fn law_restored_parameters(
    scope: Scope,
    st: Analysis,
    invocation: Modifier,
    function: FunctionId,
    var: VariableId,
)
    requires
        invocation.id == ItemId::Function(function),
        scope.hir.functions@[function as int].body is Some,
    ensures
        ({
            let modifier = scope.hir.functions@[function as int];
            let params = modifier.parameters@;
            let held = analyzer::run_invocation(scope, st, invocation).modifier_param_taint;
            &&& forall|k: int|
                #![trigger modifier.parameters@[k]]
                0 <= k < params.len() && params[k] == var && (forall|j: int|
                    k < j < params.len() ==> #[trigger] params[j] != var) ==> analyzer::entry_of(
                    held,
                    var,
                ) == analyzer::entry_of(
                    analyzer::bound(
                        scope,
                        st,
                        modifier,
                        invocation,
                        k as nat,
                    ).modifier_param_taint,
                    var,
                )
            &&& !params.contains(var) ==> analyzer::entry_of(held, var) == analyzer::entry_of(
                st.modifier_param_taint,
                var,
            )
        }),
{
    let modifier = scope.hir.functions@[function as int];
    let params = modifier.parameters@;
    let count = params.len();
    let body = modifier.body->0;
    let inside = analyzer::bound(scope, st, modifier, invocation, count);
    let list = analyzer::saved(scope, st, modifier, invocation, count);
    let held = analyzer::run_invocation(scope, st, invocation).modifier_param_taint;
    report::lemma_run(
        scope,
        inside,
        walk::stmts_walk(Traversal::Everything, body.stmts@),
    );
    assert(held == analyzer::restored(inside.modifier_param_taint, list));
    assert forall|k: int|
        #![trigger modifier.parameters@[k]]
        0 <= k < params.len() && params[k] == var && (forall|j: int|
            k < j < params.len() ==> #[trigger] params[j] != var) implies analyzer::entry_of(
        held,
        var,
    ) == analyzer::entry_of(
        analyzer::bound(scope, st, modifier, invocation, k as nat).modifier_param_taint,
        var,
    ) by {
        assert(list[k].0 == var);
        assert forall|j: int| k < j < list.len() implies (#[trigger] list[j]).0 != list[k].0 by {
            assert(params[j] != var);
        }
        lemma_last_restored(inside.modifier_param_taint, list, k);
    }
    if !params.contains(var) {
        assert forall|j: int| 0 <= j < list.len() implies (#[trigger] list[j]).0 != var by {
            assert(params.contains(params[j]));
        }
        lemma_none_restored(inside.modifier_param_taint, list, var);
        laws::lemma_bound_entry(scope, st, modifier, invocation, count, var);
    }
}

} // verus!
