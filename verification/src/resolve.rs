//! Well-formed programs: every position that the lint looks up is inside its table.

use vstd::prelude::*;

use crate::hir::{
    Block, CallArgs, Contract, Expr, ExprKind, Function, Hir, ItemId, Modifier, NamedArg, Res, Stmt,
    TryCatchClause, Type, VarDecl,
};
use crate::walk::{self, walk_expr, walk_stmts, Node, Traversal};

verus! {

/// The argument values of a call, in order.
pub open spec fn call_args(args: CallArgs) -> Seq<Expr> {
    match args {
        CallArgs::Unnamed(exprs) => exprs@,
        CallArgs::Named(args) => args@.map_values(|arg: NamedArg| arg.value),
    }
}

/// The variables that the results of a name resolution refer to are in the table.
pub open spec fn reses_resolve(hir: Hir, reses: Seq<Res>) -> bool {
    forall|i: int|
        0 <= i < reses.len() ==> (#[trigger] reses[i] matches Res::Item(ItemId::Variable(var))
            ==> var < hir.variables@.len())
}

/// The variables that the node itself mentions or declares are in the table.
pub open spec fn node_resolves(hir: Hir, node: Node) -> bool {
    match node {
        Node::Expr(expr) => expr.kind matches ExprKind::Ident(reses) ==> reses_resolve(hir, reses@),
        Node::Stmt(stmt) => stmt matches Stmt::DeclSingle(decl) ==> decl.var < hir.variables@.len(),
    }
}

/// Every node of the list resolves.
pub open spec fn nodes_resolve(hir: Hir, nodes: Seq<Node>) -> bool {
    forall|i: int| 0 <= i < nodes.len() ==> node_resolves(hir, #[trigger] nodes[i])
}

/// Every node of the expression resolves.
pub open spec fn expr_resolves(hir: Hir, expr: Expr) -> bool {
    nodes_resolve(hir, walk::expr_walk(Traversal::Everything, &expr))
}

/// Every node of the statements resolves.
pub open spec fn stmts_resolve(hir: Hir, stmts: Seq<Stmt>) -> bool {
    nodes_resolve(hir, walk::stmts_walk(Traversal::Everything, stmts))
}

/// The modifier is in the table of functions, and its arguments resolve.
pub open spec fn modifier_resolves(hir: Hir, modifier: Modifier) -> bool {
    &&& modifier.id matches ItemId::Function(function) ==> function < hir.functions@.len()
    &&& forall|i: int|
        0 <= i < call_args(modifier.args).len() ==> expr_resolves(
            hir,
            #[trigger] call_args(modifier.args)[i],
        )
}

/// Everything that the function refers to is in the tables.
pub open spec fn function_resolves(hir: Hir, func: Function) -> bool {
    &&& func.contract matches Some(contract) ==> contract < hir.contracts@.len()
    &&& forall|i: int|
        0 <= i < func.parameters@.len() ==> #[trigger] func.parameters@[i] < hir.variables@.len()
    &&& forall|i: int|
        0 <= i < func.modifiers@.len() ==> modifier_resolves(hir, #[trigger] func.modifiers@[i])
    &&& func.body matches Some(body) ==> stmts_resolve(hir, body.stmts@)
}

/// The bases and the functions of the contract are in the tables.
pub open spec fn contract_resolves(hir: Hir, contract: Contract) -> bool {
    &&& forall|i: int|
        0 <= i < contract.linearized_bases@.len() ==> #[trigger] contract.linearized_bases@[i]
            < hir.contracts@.len()
    &&& forall|i: int|
        0 <= i < contract.items@.len() ==> (#[trigger] contract.items@[i] matches ItemId::Function(
            function,
        ) ==> function < hir.functions@.len())
}

impl Hir {
    /// Every contract and every function refers only to what is in the tables.
    pub open spec fn well_formed(self) -> bool {
        &&& forall|i: int|
            0 <= i < self.contracts@.len() ==> contract_resolves(
                self,
                #[trigger] self.contracts@[i],
            )
        &&& forall|i: int|
            0 <= i < self.functions@.len() ==> function_resolves(
                self,
                #[trigger] self.functions@[i],
            )
    }
}

/// The node and all below it resolve.
pub open spec fn node_deeply_resolves(hir: Hir, node: Node) -> bool {
    match node {
        Node::Expr(expr) => expr_resolves(hir, *expr),
        Node::Stmt(stmt) => nodes_resolve(
            hir,
            walk::stmt_walk(Traversal::Everything, stmt),
        ),
    }
}

/// Every node of the list resolves, with all below it.
pub open spec fn nodes_deeply_resolve(hir: Hir, nodes: Seq<Node>) -> bool {
    forall|i: int| 0 <= i < nodes.len() ==> node_deeply_resolves(hir, #[trigger] nodes[i])
}

broadcast proof fn lemma_split(hir: Hir, a: Seq<Node>, b: Seq<Node>)
    requires
        #[trigger] nodes_resolve(hir, a + b),
    ensures
        nodes_resolve(hir, a),
        nodes_resolve(hir, b),
{
    assert forall|i: int| 0 <= i < a.len() implies node_resolves(hir, #[trigger] a[i]) by {
        assert(a[i] == (a + b)[i]);
    }
    assert forall|i: int| 0 <= i < b.len() implies node_resolves(hir, #[trigger] b[i]) by {
        assert(b[i] == (a + b)[a.len() + i]);
    }
}

/// A walk of any kind over a tree that resolves meets only nodes that resolve, with all below
/// them.
pub proof fn lemma_expr_nodes_resolve(hir: Hir, t: Traversal, expr: Expr)
    requires
        expr_resolves(hir, expr),
    ensures
        nodes_deeply_resolve(hir, walk::expr_walk(t, &expr)),
    decreases expr,
{
    broadcast use lemma_split;

    match expr.kind {
        ExprKind::Array(exprs) => {
            lemma_exprs_nodes_resolve(hir, t, exprs@);
        },
        ExprKind::Assign(lhs, _, rhs) => {
            lemma_expr_nodes_resolve(hir, t, *lhs);
            lemma_expr_nodes_resolve(hir, t, *rhs);
        },
        ExprKind::Binary(lhs, _, rhs) => {
            lemma_expr_nodes_resolve(hir, t, *lhs);
            lemma_expr_nodes_resolve(hir, t, *rhs);
        },
        ExprKind::Call(callee, args, opts) => {
            lemma_expr_nodes_resolve(hir, t, *callee);
            lemma_call_args_nodes_resolve(hir, t, args);
            if let Some(opts) = opts {
                lemma_named_args_nodes_resolve(hir, t, opts@);
            }
        },
        ExprKind::Delete(inner) => {
            lemma_expr_nodes_resolve(hir, t, *inner);
        },
        ExprKind::Index(base, index) => {
            lemma_expr_nodes_resolve(hir, t, *base);
            lemma_opt_expr_nodes_resolve(hir, t, index);
        },
        ExprKind::Slice(base, start, end) => {
            lemma_expr_nodes_resolve(hir, t, *base);
            lemma_opt_expr_nodes_resolve(hir, t, start);
            lemma_opt_expr_nodes_resolve(hir, t, end);
        },
        ExprKind::Member(inner, _) => {
            lemma_expr_nodes_resolve(hir, t, *inner);
        },
        ExprKind::Payable(inner) => {
            lemma_expr_nodes_resolve(hir, t, *inner);
        },
        ExprKind::Unary(_, inner) => {
            lemma_expr_nodes_resolve(hir, t, *inner);
        },
        ExprKind::Ternary(cond, then, other) => {
            lemma_expr_nodes_resolve(hir, t, *cond);
            lemma_expr_nodes_resolve(hir, t, *then);
            lemma_expr_nodes_resolve(hir, t, *other);
        },
        ExprKind::Tuple(exprs) => {
            lemma_opt_exprs_nodes_resolve(hir, t, exprs@);
        },
        ExprKind::New(ty) => {
            lemma_type_nodes_resolve(hir, t, ty);
        },
        ExprKind::TypeCall(ty) => {
            lemma_type_nodes_resolve(hir, t, ty);
        },
        ExprKind::Type(ty) => {
            lemma_type_nodes_resolve(hir, t, ty);
        },
        ExprKind::Ident(_) | ExprKind::Lit | ExprKind::Invalid => {},
    }
}

proof fn lemma_opt_expr_nodes_resolve(hir: Hir, t: Traversal, expr: Option<Box<Expr>>)
    requires
        nodes_resolve(hir, walk::opt_expr_walk(Traversal::Everything, expr)),
    ensures
        nodes_deeply_resolve(hir, walk::opt_expr_walk(t, expr)),
    decreases expr,
{
    if let Some(expr) = expr {
        lemma_expr_nodes_resolve(hir, t, *expr);
    }
}

proof fn lemma_exprs_nodes_resolve(hir: Hir, t: Traversal, exprs: Seq<Expr>)
    requires
        nodes_resolve(hir, walk::exprs_walk(Traversal::Everything, exprs)),
    ensures
        nodes_deeply_resolve(hir, walk::exprs_walk(t, exprs)),
    decreases exprs,
{
    broadcast use lemma_split;

    if exprs.len() > 0 {
        lemma_exprs_nodes_resolve(hir, t, exprs.drop_last());
        lemma_expr_nodes_resolve(hir, t, exprs.last());
    }
}

proof fn lemma_opt_exprs_nodes_resolve(hir: Hir, t: Traversal, exprs: Seq<Option<Expr>>)
    requires
        nodes_resolve(hir, walk::opt_exprs_walk(Traversal::Everything, exprs)),
    ensures
        nodes_deeply_resolve(hir, walk::opt_exprs_walk(t, exprs)),
    decreases exprs,
{
    broadcast use lemma_split;

    if exprs.len() > 0 {
        lemma_opt_exprs_nodes_resolve(hir, t, exprs.drop_last());
        if let Some(expr) = exprs.last() {
            lemma_expr_nodes_resolve(hir, t, expr);
        }
    }
}

proof fn lemma_named_args_nodes_resolve(hir: Hir, t: Traversal, args: Seq<NamedArg>)
    requires
        nodes_resolve(hir, walk::named_args_walk(Traversal::Everything, args)),
    ensures
        nodes_deeply_resolve(hir, walk::named_args_walk(t, args)),
    decreases args,
{
    broadcast use lemma_split;

    if args.len() > 0 {
        lemma_named_args_nodes_resolve(hir, t, args.drop_last());
        lemma_expr_nodes_resolve(hir, t, args.last().value);
    }
}

proof fn lemma_call_args_nodes_resolve(hir: Hir, t: Traversal, args: CallArgs)
    requires
        nodes_resolve(hir, walk::call_args_walk(Traversal::Everything, args)),
    ensures
        nodes_deeply_resolve(hir, walk::call_args_walk(t, args)),
    decreases args,
{
    match args {
        CallArgs::Unnamed(exprs) => lemma_exprs_nodes_resolve(hir, t, exprs@),
        CallArgs::Named(args) => lemma_named_args_nodes_resolve(hir, t, args@),
    }
}

proof fn lemma_type_nodes_resolve(hir: Hir, t: Traversal, ty: Type)
    requires
        nodes_resolve(hir, walk::type_walk(Traversal::Everything, ty)),
    ensures
        nodes_deeply_resolve(hir, walk::type_walk(t, ty)),
    decreases ty,
{
    broadcast use lemma_split;

    match ty {
        Type::Array(element, size) => {
            lemma_type_nodes_resolve(hir, t, *element);
            lemma_opt_expr_nodes_resolve(hir, t, size);
        },
        Type::Function(params, results) => {
            lemma_decls_nodes_resolve(hir, t, params@);
            lemma_decls_nodes_resolve(hir, t, results@);
        },
        Type::Mapping(key, value) => {
            lemma_type_nodes_resolve(hir, t, *key);
            lemma_type_nodes_resolve(hir, t, *value);
        },
        Type::Elementary | Type::Custom | Type::Invalid => {},
    }
}

proof fn lemma_decl_nodes_resolve(hir: Hir, t: Traversal, decl: VarDecl)
    requires
        nodes_resolve(hir, walk::decl_walk(Traversal::Everything, decl)),
    ensures
        nodes_deeply_resolve(hir, walk::decl_walk(t, decl)),
    decreases decl,
{
    broadcast use lemma_split;

    lemma_type_nodes_resolve(hir, t, decl.ty);
    lemma_opt_expr_nodes_resolve(hir, t, decl.initializer);
}

proof fn lemma_decls_nodes_resolve(hir: Hir, t: Traversal, decls: Seq<VarDecl>)
    requires
        nodes_resolve(hir, walk::decls_walk(Traversal::Everything, decls)),
    ensures
        nodes_deeply_resolve(hir, walk::decls_walk(t, decls)),
    decreases decls,
{
    broadcast use lemma_split;

    if decls.len() > 0 {
        lemma_decls_nodes_resolve(hir, t, decls.drop_last());
        lemma_decl_nodes_resolve(hir, t, decls.last());
    }
}

proof fn lemma_opt_decls_nodes_resolve(hir: Hir, t: Traversal, decls: Seq<Option<VarDecl>>)
    requires
        nodes_resolve(hir, walk::opt_decls_walk(Traversal::Everything, decls)),
    ensures
        nodes_deeply_resolve(hir, walk::opt_decls_walk(t, decls)),
    decreases decls,
{
    broadcast use lemma_split;

    if decls.len() > 0 {
        lemma_opt_decls_nodes_resolve(hir, t, decls.drop_last());
        if let Some(decl) = decls.last() {
            lemma_decl_nodes_resolve(hir, t, decl);
        }
    }
}

/// See [`lemma_expr_nodes_resolve`]: the same of a statement.
pub proof fn lemma_stmt_nodes_resolve(hir: Hir, t: Traversal, stmt: Stmt)
    requires
        nodes_resolve(hir, walk::stmt_walk(Traversal::Everything, &stmt)),
    ensures
        nodes_deeply_resolve(hir, walk::stmt_walk(t, &stmt)),
    decreases stmt,
{
    broadcast use lemma_split;

    match stmt {
        Stmt::DeclSingle(decl) => {
            lemma_decl_nodes_resolve(hir, t, decl);
        },
        Stmt::DeclMulti(decls, expr) => {
            lemma_opt_decls_nodes_resolve(hir, t, decls@);
            lemma_expr_nodes_resolve(hir, t, *expr);
        },
        Stmt::Block(block) => {
            lemma_stmts_nodes_resolve(hir, t, block.stmts@);
        },
        Stmt::UncheckedBlock(block) => {
            lemma_stmts_nodes_resolve(hir, t, block.stmts@);
        },
        Stmt::Loop(block) => {
            lemma_stmts_nodes_resolve(hir, t, block.stmts@);
        },
        Stmt::Emit(expr) => {
            lemma_expr_nodes_resolve(hir, t, *expr);
        },
        Stmt::Revert(expr) => {
            lemma_expr_nodes_resolve(hir, t, *expr);
        },
        Stmt::Expr(expr) => {
            lemma_expr_nodes_resolve(hir, t, *expr);
        },
        Stmt::Return(expr) => {
            lemma_opt_expr_nodes_resolve(hir, t, expr);
        },
        Stmt::If(cond, then, other) => {
            lemma_expr_nodes_resolve(hir, t, *cond);
            lemma_stmt_nodes_resolve(hir, t, *then);
            if let Some(other) = other {
                lemma_stmt_nodes_resolve(hir, t, *other);
            }
        },
        Stmt::Try(expr, clauses) => {
            lemma_expr_nodes_resolve(hir, t, *expr);
            lemma_clauses_nodes_resolve(hir, t, clauses@);
        },
        Stmt::Break | Stmt::Continue | Stmt::Placeholder | Stmt::Invalid => {},
    }
}

/// See [`lemma_expr_nodes_resolve`]: the same of statements.
pub proof fn lemma_stmts_nodes_resolve(hir: Hir, t: Traversal, stmts: Seq<Stmt>)
    requires
        nodes_resolve(hir, walk::stmts_walk(Traversal::Everything, stmts)),
    ensures
        nodes_deeply_resolve(hir, walk::stmts_walk(t, stmts)),
    decreases stmts,
{
    broadcast use lemma_split;

    if stmts.len() > 0 {
        lemma_stmts_nodes_resolve(hir, t, stmts.drop_last());
        lemma_stmt_nodes_resolve(hir, t, stmts.last());
    }
}

proof fn lemma_clauses_nodes_resolve(hir: Hir, t: Traversal, clauses: Seq<TryCatchClause>)
    requires
        nodes_resolve(hir, walk::clauses_walk(Traversal::Everything, clauses)),
    ensures
        nodes_deeply_resolve(hir, walk::clauses_walk(t, clauses)),
    decreases clauses,
{
    broadcast use lemma_split;

    if clauses.len() > 0 {
        lemma_clauses_nodes_resolve(hir, t, clauses.drop_last());
        lemma_decls_nodes_resolve(hir, t, clauses.last().args@);
        lemma_stmts_nodes_resolve(hir, t, clauses.last().block.stmts@);
    }
}

proof fn lemma_exprs_resolve(hir: Hir, exprs: Seq<Expr>)
    requires
        nodes_resolve(hir, walk::exprs_walk(Traversal::Everything, exprs)),
    ensures
        forall|i: int| 0 <= i < exprs.len() ==> expr_resolves(hir, #[trigger] exprs[i]),
    decreases exprs.len(),
{
    broadcast use lemma_split;

    if exprs.len() > 0 {
        lemma_exprs_resolve(hir, exprs.drop_last());
        assert forall|i: int| 0 <= i < exprs.len() implies expr_resolves(
            hir,
            #[trigger] exprs[i],
        ) by {
            if i < exprs.len() - 1 {
                assert(exprs[i] == exprs.drop_last()[i]);
            }
        }
    }
}

proof fn lemma_opt_exprs_resolve(hir: Hir, exprs: Seq<Option<Expr>>)
    requires
        nodes_resolve(hir, walk::opt_exprs_walk(Traversal::Everything, exprs)),
    ensures
        forall|i: int|
            0 <= i < exprs.len() ==> (#[trigger] exprs[i] matches Some(expr) ==> expr_resolves(
                hir,
                expr,
            )),
    decreases exprs.len(),
{
    broadcast use lemma_split;

    if exprs.len() > 0 {
        lemma_opt_exprs_resolve(hir, exprs.drop_last());
        assert forall|i: int| 0 <= i < exprs.len() implies (#[trigger] exprs[i] matches Some(expr)
            ==> expr_resolves(hir, expr)) by {
            if i < exprs.len() - 1 {
                assert(exprs[i] == exprs.drop_last()[i]);
            }
        }
    }
}

proof fn lemma_named_args_resolve(hir: Hir, args: Seq<NamedArg>)
    requires
        nodes_resolve(hir, walk::named_args_walk(Traversal::Everything, args)),
    ensures
        forall|i: int| 0 <= i < args.len() ==> expr_resolves(hir, (#[trigger] args[i]).value),
    decreases args.len(),
{
    broadcast use lemma_split;

    if args.len() > 0 {
        lemma_named_args_resolve(hir, args.drop_last());
        assert forall|i: int| 0 <= i < args.len() implies expr_resolves(
            hir,
            (#[trigger] args[i]).value,
        ) by {
            if i < args.len() - 1 {
                assert(args[i] == args.drop_last()[i]);
            }
        }
    }
}

/// The parts of an expression that resolves resolve.
pub proof fn lemma_parts_resolve(hir: Hir, expr: Expr)
    requires
        expr_resolves(hir, expr),
    ensures
        match expr.kind {
            ExprKind::Assign(lhs, _, rhs) => expr_resolves(hir, *lhs) && expr_resolves(hir, *rhs),
            ExprKind::Binary(lhs, _, rhs) => expr_resolves(hir, *lhs) && expr_resolves(hir, *rhs),
            ExprKind::Call(callee, args, _) => expr_resolves(hir, *callee) && forall|i: int|
                0 <= i < call_args(args).len() ==> expr_resolves(
                    hir,
                    #[trigger] call_args(args)[i],
                ),
            ExprKind::Index(base, _) => expr_resolves(hir, *base),
            ExprKind::Delete(inner) => expr_resolves(hir, *inner),
            ExprKind::Member(inner, _) => expr_resolves(hir, *inner),
            ExprKind::Payable(inner) => expr_resolves(hir, *inner),
            ExprKind::Unary(_, inner) => expr_resolves(hir, *inner),
            ExprKind::Ident(reses) => reses_resolve(hir, reses@),
            ExprKind::Tuple(exprs) => forall|i: int|
                0 <= i < exprs@.len() ==> (#[trigger] exprs@[i] matches Some(inner)
                    ==> expr_resolves(hir, inner)),
            _ => true,
        },
{
    broadcast use lemma_split;

    assert(walk::expr_walk(Traversal::Everything, &expr)[0] == Node::Expr(&expr));
    match expr.kind {
        ExprKind::Call(_, args, _) => {
            assert(nodes_resolve(hir, walk::call_args_walk(Traversal::Everything, args)));
            match args {
                CallArgs::Unnamed(exprs) => lemma_exprs_resolve(hir, exprs@),
                CallArgs::Named(args) => lemma_named_args_resolve(hir, args@),
            }
        },
        ExprKind::Tuple(exprs) => {
            lemma_opt_exprs_resolve(hir, exprs@);
        },
        _ => {},
    }
}

/// The condition of an `if` statement that resolves resolves.
pub proof fn lemma_if_condition_resolves(hir: Hir, stmt: Stmt)
    requires
        node_deeply_resolves(hir, Node::Stmt(&stmt)),
    ensures
        stmt matches Stmt::If(cond, _, _) ==> expr_resolves(hir, *cond),
{
    broadcast use lemma_split;

}

/// Each of a list of statements that resolve resolves.
pub proof fn lemma_each_stmt_resolves(hir: Hir, stmts: Seq<Stmt>)
    requires
        stmts_resolve(hir, stmts),
    ensures
        forall|i: int|
            0 <= i < stmts.len() ==> node_deeply_resolves(hir, Node::Stmt(&#[trigger] stmts[i])),
    decreases stmts.len(),
{
    broadcast use lemma_split;

    if stmts.len() > 0 {
        lemma_each_stmt_resolves(hir, stmts.drop_last());
        assert forall|i: int| 0 <= i < stmts.len() implies node_deeply_resolves(
            hir,
            Node::Stmt(&#[trigger] stmts[i]),
        ) by {
            if i < stmts.len() - 1 {
                assert(stmts[i] == stmts.drop_last()[i]);
            }
        }
    }
}

/// The variable and the initializer of a declaration that resolves resolve.
pub proof fn lemma_decl_resolves(hir: Hir, stmt: Stmt)
    requires
        node_deeply_resolves(hir, Node::Stmt(&stmt)),
    ensures
        stmt matches Stmt::DeclSingle(decl) ==> decl.var < hir.variables@.len() && (
        decl.initializer matches Some(init) ==> expr_resolves(hir, *init)),
{
    broadcast use lemma_split;

    assert(walk::stmt_walk(Traversal::Everything, &stmt)[0] == Node::Stmt(&stmt));
    if let Stmt::DeclSingle(decl) = stmt {
        assert(nodes_resolve(hir, walk::opt_expr_walk(Traversal::Everything, decl.initializer)));
    }
}

fn check_reses(hir: &Hir, reses: &Vec<Res>) -> (ok: bool)
    ensures
        ok == reses_resolve(*hir, reses@),
{
    for i in 0..reses.len()
        invariant
            reses_resolve(*hir, reses@.take(i as int)),
    {
        if let Res::Item(ItemId::Variable(var)) = &reses[i] {
            if *var >= hir.variables.len() {
                assert(reses@[i as int] == Res::Item(ItemId::Variable(*var)));
                return false;
            }
        }
        assert(reses@.take(i + 1) == reses@.take(i as int).push(reses@[i as int]));
    }
    assert(reses@.take(reses@.len() as int) == reses@);
    true
}

fn check_nodes(hir: &Hir, nodes: &Vec<Node>) -> (ok: bool)
    ensures
        ok == nodes_resolve(*hir, nodes@),
{
    for i in 0..nodes.len()
        invariant
            forall|j: int| 0 <= j < i ==> node_resolves(*hir, #[trigger] nodes@[j]),
    {
        let ok = match nodes[i] {
            Node::Expr(expr) => match &expr.kind {
                ExprKind::Ident(reses) => check_reses(hir, reses),
                _ => true,
            },
            Node::Stmt(stmt) => match stmt {
                Stmt::DeclSingle(decl) => decl.var < hir.variables.len(),
                _ => true,
            },
        };
        if !ok {
            assert(!node_resolves(*hir, nodes@[i as int]));
            return false;
        }
    }
    true
}

fn check_expr(hir: &Hir, expr: &Expr) -> (ok: bool)
    ensures
        ok == expr_resolves(*hir, *expr),
{
    let mut nodes: Vec<Node> = Vec::new();
    walk_expr(Traversal::Everything, expr, &mut nodes);
    assert(nodes@ == walk::expr_walk(Traversal::Everything, expr));
    check_nodes(hir, &nodes)
}

fn check_block(hir: &Hir, block: &Block) -> (ok: bool)
    ensures
        ok == stmts_resolve(*hir, block.stmts@),
{
    let mut nodes: Vec<Node> = Vec::new();
    walk_stmts(Traversal::Everything, &block.stmts, &mut nodes);
    assert(nodes@ == walk::stmts_walk(Traversal::Everything, block.stmts@));
    check_nodes(hir, &nodes)
}

fn check_modifier(hir: &Hir, modifier: &Modifier) -> (ok: bool)
    ensures
        ok == modifier_resolves(*hir, *modifier),
{
    if let ItemId::Function(function) = modifier.id {
        if function >= hir.functions.len() {
            return false;
        }
    }
    let ghost args = call_args(modifier.args);
    match &modifier.args {
        CallArgs::Unnamed(exprs) => {
            for i in 0..exprs.len()
                invariant
                    args == exprs@,
                    args == call_args(modifier.args),
                    forall|j: int| 0 <= j < i ==> expr_resolves(*hir, #[trigger] args[j]),
            {
                if !check_expr(hir, &exprs[i]) {
                    assert(!expr_resolves(*hir, call_args(modifier.args)[i as int]));
                    return false;
                }
            }
        },
        CallArgs::Named(named) => {
            for i in 0..named.len()
                invariant
                    args == named@.map_values(|arg: NamedArg| arg.value),
                    args == call_args(modifier.args),
                    forall|j: int| 0 <= j < i ==> expr_resolves(*hir, #[trigger] args[j]),
            {
                assert(args[i as int] == named@[i as int].value);
                if !check_expr(hir, &named[i].value) {
                    assert(!expr_resolves(*hir, call_args(modifier.args)[i as int]));
                    return false;
                }
            }
        },
    }
    true
}

fn check_function(hir: &Hir, func: &Function) -> (ok: bool)
    ensures
        ok == function_resolves(*hir, *func),
{
    if let Some(contract) = func.contract {
        if contract >= hir.contracts.len() {
            return false;
        }
    }
    for i in 0..func.parameters.len()
        invariant
            forall|j: int|
                0 <= j < i ==> #[trigger] func.parameters@[j] < hir.variables@.len(),
    {
        if func.parameters[i] >= hir.variables.len() {
            return false;
        }
    }
    for i in 0..func.modifiers.len()
        invariant
            forall|j: int| 0 <= j < i ==> modifier_resolves(*hir, #[trigger] func.modifiers@[j]),
    {
        if !check_modifier(hir, &func.modifiers[i]) {
            return false;
        }
    }
    match &func.body {
        Some(body) => check_block(hir, body),
        None => true,
    }
}

fn check_contract(hir: &Hir, contract: &Contract) -> (ok: bool)
    ensures
        ok == contract_resolves(*hir, *contract),
{
    for i in 0..contract.linearized_bases.len()
        invariant
            forall|j: int|
                0 <= j < i ==> #[trigger] contract.linearized_bases@[j] < hir.contracts@.len(),
    {
        if contract.linearized_bases[i] >= hir.contracts.len() {
            return false;
        }
    }
    for i in 0..contract.items.len()
        invariant
            forall|j: int|
                0 <= j < i ==> (#[trigger] contract.items@[j] matches ItemId::Function(function)
                    ==> function < hir.functions@.len()),
    {
        if let ItemId::Function(function) = contract.items[i] {
            if function >= hir.functions.len() {
                assert(contract.items@[i as int] == ItemId::Function(function));
                return false;
            }
        }
    }
    true
}

impl Hir {
    /// Whether every contract and every function refers only to what is in the tables.
    pub fn is_well_formed(&self) -> (ok: bool)
        ensures
            ok == self.well_formed(),
    {
        for i in 0..self.contracts.len()
            invariant
                forall|j: int|
                    0 <= j < i ==> contract_resolves(*self, #[trigger] self.contracts@[j]),
        {
            if !check_contract(self, &self.contracts[i]) {
                return false;
            }
        }
        for i in 0..self.functions.len()
            invariant
                forall|j: int|
                    0 <= j < i ==> function_resolves(*self, #[trigger] self.functions@[j]),
        {
            if !check_function(self, &self.functions[i]) {
                return false;
            }
        }
        true
    }
}

} // verus!
