//! Taint, written variables, modifier arguments, walks and well-formed programs.

use std::collections::HashSet;

use forge_lint::analyzer::Analyzer;
use forge_lint::arguments::invocation_arg_for_param;
use forge_lint::hir::{
    BinOpKind, Block, CallArgs, Contract, Expr, ExprKind, Function, FunctionKind, Hir, ItemId,
    Modifier, NamedArg, Res, Span, StateMutability, Stmt, TryCatchClause, Type, TypeForm,
    UnOpKind, VarDecl, VarKind, Variable, Visibility,
};
use forge_lint::walk::{walk_expr, walk_stmt, Node, Traversal};
use forge_lint::writes::{lhs_local_var, state_write_lhs_vars};

const OWNER: usize = 0;
const ADMIN: usize = 1;
const PARAM: usize = 2;
const LOCAL: usize = 3;
const CAUGHT: usize = 4;
const NUMBER: usize = 5;

fn variables() -> Vec<Variable> {
    let named = |kind: VarKind, ty: TypeForm, name: &str| Variable {
        kind,
        ty,
        name: Some(name.to_string()),
    };
    vec![
        named(VarKind::State, TypeForm::Address, "owner"),
        named(VarKind::State, TypeForm::Address, "admin"),
        named(VarKind::FunctionParam, TypeForm::Address, "who"),
        named(VarKind::Statement, TypeForm::Address, "local"),
        named(VarKind::TryCatch, TypeForm::Address, "caught"),
        Variable { kind: VarKind::FunctionParam, ty: TypeForm::Elementary, name: None },
    ]
}

fn program(functions: Vec<Function>) -> Hir {
    Hir { contracts: vec![], functions, variables: variables() }
}

fn expr_at(kind: ExprKind, lo: u32) -> Expr {
    Expr { kind, span: Span { lo, hi: lo } }
}

fn expr(kind: ExprKind) -> Expr {
    expr_at(kind, 0)
}

fn name_at(var: usize, lo: u32) -> Expr {
    expr_at(ExprKind::Ident(vec![Res::Item(ItemId::Variable(var))]), lo)
}

fn name(var: usize) -> Expr {
    name_at(var, 0)
}

fn builtin(text: &str) -> Expr {
    expr(ExprKind::Ident(vec![Res::Builtin(text.to_string())]))
}

fn lit() -> Expr {
    expr(ExprKind::Lit)
}

fn paren(inner: Expr) -> Expr {
    expr(ExprKind::Tuple(vec![Some(inner)]))
}

fn assign(lhs: Expr, rhs: Expr) -> Expr {
    expr(ExprKind::Assign(Box::new(lhs), None, Box::new(rhs)))
}

fn run(e: Expr) -> Stmt {
    Stmt::Expr(Box::new(e))
}

fn declare(var: usize, value: Option<Expr>) -> Stmt {
    Stmt::DeclSingle(VarDecl {
        var,
        ty: Type::Elementary,
        initializer: value.map(Box::new),
    })
}

fn modifier(parameters: Vec<usize>, stmts: Vec<Stmt>) -> Function {
    Function {
        contract: None,
        kind: FunctionKind::Modifier,
        visibility: Visibility::Internal,
        state_mutability: StateMutability::NonPayable,
        modifiers: vec![],
        parameters,
        body: Some(Block { stmts }),
    }
}

fn named_arg(text: &str, value: Expr) -> NamedArg {
    NamedArg { name: text.to_string(), value }
}

#[test]
fn sources_of_taint() {
    let hir = program(vec![]);
    let authorities: HashSet<usize> = HashSet::new();
    let params: Vec<usize> = vec![PARAM];
    let analyzer = Analyzer::new(&hir, &authorities, &params);
    let tainted = vec![
        name(PARAM),
        name(CAUGHT),
        builtin("block"),
        expr(ExprKind::New(Type::Custom)),
        paren(name(PARAM)),
        assign(name(OWNER), name(PARAM)),
        expr(ExprKind::Delete(Box::new(name(PARAM)))),
        expr(ExprKind::Payable(Box::new(name(PARAM)))),
        expr(ExprKind::Unary(UnOpKind::Neg, Box::new(name(PARAM)))),
        expr(ExprKind::Member(Box::new(name(PARAM)), "x".to_string())),
        expr(ExprKind::Binary(Box::new(lit()), BinOpKind::Add, Box::new(name(PARAM)))),
        expr(ExprKind::Index(Box::new(name(OWNER)), Some(Box::new(name(PARAM))))),
        expr(ExprKind::Index(Box::new(name(PARAM)), None)),
        expr(ExprKind::Slice(Box::new(lit()), Some(Box::new(name(PARAM))), None)),
        expr(ExprKind::Ternary(Box::new(name(PARAM)), Box::new(lit()), Box::new(lit()))),
        expr(ExprKind::Array(vec![lit(), name(PARAM)])),
        expr(ExprKind::Call(Box::new(lit()), CallArgs::Unnamed(vec![name(PARAM)]), None)),
        expr(ExprKind::Call(
            Box::new(lit()),
            CallArgs::Unnamed(vec![]),
            Some(vec![named_arg("value", name(PARAM))]),
        )),
    ];
    for e in &tainted {
        assert!(analyzer.is_tainted(e), "{:?}", e);
    }
    let clean = vec![
        lit(),
        name(OWNER),
        name(LOCAL),
        name(NUMBER),
        assign(name(PARAM), lit()),
        expr(ExprKind::TypeCall(Type::Elementary)),
        expr(ExprKind::Ident(vec![Res::Item(ItemId::Function(0)), Res::Invalid])),
        expr(ExprKind::Invalid),
    ];
    for e in &clean {
        assert!(!analyzer.is_tainted(e), "{:?}", e);
    }
    assert!(analyzer.param_taint(PARAM));
    assert!(!analyzer.param_taint(NUMBER));
}

#[test]
fn last_assignment_decides() {
    let hir = program(vec![]);
    let authorities: HashSet<usize> = HashSet::new();
    let params: Vec<usize> = vec![PARAM];
    let mut analyzer = Analyzer::new(&hir, &authorities, &params);
    analyzer.visit_stmt(&declare(LOCAL, Some(name(PARAM))));
    assert!(analyzer.is_tainted(&name(LOCAL)));
    analyzer.visit_stmt(&run(assign(name(PARAM), lit())));
    assert!(!analyzer.is_tainted(&name(PARAM)));
    assert!(analyzer.is_tainted(&name(LOCAL)));
    analyzer.visit_stmt(&run(assign(name(LOCAL), name(PARAM))));
    assert!(!analyzer.is_tainted(&name(LOCAL)));
    analyzer.visit_stmt(&run(assign(name(PARAM), builtin("msg"))));
    assert!(analyzer.is_tainted(&name(PARAM)));
    analyzer.visit_stmt(&run(assign(name(CAUGHT), lit())));
    assert!(analyzer.is_tainted(&name(CAUGHT)));
}

#[test]
fn declaration_without_initializer_keeps_the_taint() {
    let hir = program(vec![]);
    let authorities: HashSet<usize> = HashSet::new();
    let params: Vec<usize> = vec![PARAM];
    let mut analyzer = Analyzer::new(&hir, &authorities, &params);
    analyzer.visit_stmt(&run(assign(name(LOCAL), name(PARAM))));
    analyzer.visit_stmt(&declare(LOCAL, None));
    assert!(analyzer.is_tainted(&name(LOCAL)));
}

#[test]
fn tainted_writes_are_recorded_once() {
    let hir = program(vec![]);
    let authorities: HashSet<usize> = [OWNER].into_iter().collect();
    let params: Vec<usize> = vec![PARAM];
    let mut analyzer = Analyzer::new(&hir, &authorities, &params);
    analyzer.record_write(&name_at(OWNER, 1), Some(&lit()));
    assert!(analyzer.findings.is_empty());
    analyzer.record_write(&name_at(ADMIN, 2), Some(&name(PARAM)));
    assert!(analyzer.findings.is_empty());
    analyzer.record_write(&name_at(OWNER, 3), None);
    analyzer.record_write(&name_at(OWNER, 4), Some(&name(PARAM)));
    assert_eq!(analyzer.findings, vec![Span { lo: 3, hi: 3 }]);
    assert_eq!(analyzer.emitted_vars, authorities);
}

#[test]
fn bindings_are_restored_after_the_modifier() {
    let hir = program(vec![modifier(
        vec![PARAM],
        vec![run(assign(name_at(OWNER, 6), name(PARAM)))],
    )]);
    let authorities: HashSet<usize> = [OWNER].into_iter().collect();
    let params: Vec<usize> = vec![];
    let mut analyzer = Analyzer::new(&hir, &authorities, &params);
    analyzer.modifier_param_taint.insert(NUMBER, true);
    let before = analyzer.modifier_param_taint.clone();
    analyzer.visit_modifier_invocation(&Modifier {
        id: ItemId::Function(0),
        args: CallArgs::Unnamed(vec![builtin("msg")]),
    });
    assert_eq!(analyzer.modifier_param_taint, before);
    assert_eq!(analyzer.findings, vec![Span { lo: 6, hi: 6 }]);
    analyzer.modifier_param_taint.insert(PARAM, true);
    let before = analyzer.modifier_param_taint.clone();
    analyzer.visit_modifier_invocation(&Modifier {
        id: ItemId::Function(0),
        args: CallArgs::Unnamed(vec![lit()]),
    });
    assert_eq!(analyzer.modifier_param_taint, before);
}

#[test]
fn written_variables_are_distinct_and_in_order() {
    let hir = program(vec![]);
    let target = expr(ExprKind::Tuple(vec![
        Some(expr(ExprKind::Index(Box::new(name_at(ADMIN, 1)), Some(Box::new(name(OWNER)))))),
        None,
        Some(name_at(LOCAL, 2)),
        Some(expr(ExprKind::Member(Box::new(name_at(OWNER, 3)), "x".to_string()))),
        Some(name_at(ADMIN, 4)),
    ]));
    assert_eq!(
        state_write_lhs_vars(&hir, &target),
        vec![(ADMIN, Span { lo: 1, hi: 1 }), (OWNER, Span { lo: 3, hi: 3 })],
    );
    let call = expr(ExprKind::Call(
        Box::new(name(OWNER)),
        CallArgs::Unnamed(vec![name(ADMIN)]),
        None,
    ));
    assert!(state_write_lhs_vars(&hir, &call).is_empty());
    let sum = expr(ExprKind::Binary(Box::new(name(OWNER)), BinOpKind::Add, Box::new(lit())));
    assert!(state_write_lhs_vars(&hir, &sum).is_empty());
    assert_eq!(
        state_write_lhs_vars(&hir, &paren(name_at(OWNER, 9))),
        state_write_lhs_vars(&hir, &name_at(OWNER, 9)),
    );
}

#[test]
fn only_a_bare_name_is_a_local_target() {
    let hir = program(vec![]);
    assert_eq!(lhs_local_var(&hir, &name(LOCAL)), Some(LOCAL));
    assert_eq!(lhs_local_var(&hir, &name(PARAM)), Some(PARAM));
    assert_eq!(lhs_local_var(&hir, &name(OWNER)), None);
    assert_eq!(lhs_local_var(&hir, &name(NUMBER)), None);
    assert_eq!(lhs_local_var(&hir, &paren(name(LOCAL))), None);
    let overloaded = expr(ExprKind::Ident(vec![
        Res::Item(ItemId::Variable(OWNER)),
        Res::Item(ItemId::Variable(LOCAL)),
        Res::Item(ItemId::Variable(PARAM)),
    ]));
    assert_eq!(lhs_local_var(&hir, &overloaded), Some(LOCAL));
}

#[test]
fn arguments_by_position_and_by_name() {
    let hir = program(vec![modifier(vec![NUMBER, PARAM], vec![])]);
    let with = |args: CallArgs| Modifier { id: ItemId::Function(0), args };
    let spot = |invocation: &Modifier, param: usize| -> Option<u32> {
        invocation_arg_for_param(&hir, &hir.functions[0], invocation, param).map(|e| e.span.lo)
    };
    let positional = with(CallArgs::Unnamed(vec![name_at(OWNER, 1), name_at(ADMIN, 2)]));
    assert_eq!(spot(&positional, NUMBER), Some(1));
    assert_eq!(spot(&positional, PARAM), Some(2));
    assert_eq!(spot(&positional, LOCAL), None);
    let short = with(CallArgs::Unnamed(vec![name_at(OWNER, 1)]));
    assert_eq!(spot(&short, PARAM), None);
    let named = with(CallArgs::Named(vec![
        named_arg("other", name_at(OWNER, 1)),
        named_arg("who", name_at(ADMIN, 2)),
        named_arg("who", name_at(ADMIN, 3)),
    ]));
    assert_eq!(spot(&named, PARAM), Some(2));
    assert_eq!(spot(&named, NUMBER), None);
    let unmatched = with(CallArgs::Named(vec![named_arg("other", name_at(OWNER, 1))]));
    assert_eq!(spot(&unmatched, PARAM), None);
}

fn spots(nodes: &Vec<Node>) -> Vec<u32> {
    let mut spots: Vec<u32> = Vec::new();
    for node in nodes {
        if let Node::Expr(part) = node {
            spots.push(part.span.lo);
        }
    }
    spots
}

#[test]
fn walks_enter_what_they_should() {
    let target = expr_at(
        ExprKind::Index(Box::new(name_at(OWNER, 3)), Some(Box::new(name_at(PARAM, 4)))),
        2,
    );
    let value = expr_at(
        ExprKind::Call(
            Box::new(name_at(ADMIN, 6)),
            CallArgs::Unnamed(vec![name_at(LOCAL, 8)]),
            Some(vec![named_arg("gas", name_at(PARAM, 7))]),
        ),
        5,
    );
    let e = expr_at(ExprKind::Assign(Box::new(target), None, Box::new(value)), 1);
    let walk = |t: Traversal, e: &Expr| -> Vec<u32> {
        let mut nodes: Vec<Node> = Vec::new();
        walk_expr(t, e, &mut nodes);
        spots(&nodes)
    };
    assert_eq!(walk(Traversal::Everything, &e), vec![1, 2, 3, 4, 5, 6, 7, 8]);
    assert_eq!(walk(Traversal::Values, &e), vec![1, 2, 3, 4, 5, 6, 7, 8]);
    assert_eq!(walk(Traversal::Flow, &e), vec![1, 5, 6, 7, 8]);
    assert_eq!(walk(Traversal::Guards, &e), vec![1, 5, 6, 7, 8]);
    assert_eq!(walk(Traversal::Targets, &e), vec![1]);
    let ExprKind::Assign(target, _, _) = &e.kind else { panic!("an assignment") };
    assert_eq!(walk(Traversal::Targets, target), vec![2, 3]);
    let sized = expr_at(
        ExprKind::New(Type::Array(Box::new(Type::Elementary), Some(Box::new(name_at(OWNER, 2))))),
        1,
    );
    assert_eq!(walk(Traversal::Everything, &sized), vec![1, 2]);
    assert_eq!(walk(Traversal::Guards, &sized), vec![1, 2]);
    assert_eq!(walk(Traversal::Values, &sized), vec![1]);
}

#[test]
fn statement_walk_goes_in_source_order() {
    let clause = TryCatchClause {
        args: vec![VarDecl { var: CAUGHT, ty: Type::Elementary, initializer: None }],
        block: Block { stmts: vec![run(name_at(LOCAL, 5))] },
    };
    let stmt = Stmt::If(
        Box::new(name_at(OWNER, 1)),
        Box::new(declare(LOCAL, Some(name_at(PARAM, 2)))),
        Some(Box::new(Stmt::Try(Box::new(name_at(ADMIN, 4)), vec![clause]))),
    );
    let mut nodes: Vec<Node> = Vec::new();
    walk_stmt(Traversal::Everything, &stmt, &mut nodes);
    assert_eq!(spots(&nodes), vec![1, 2, 4, 5]);
    assert_eq!(nodes.len(), 8);
    let mut nodes: Vec<Node> = Vec::new();
    walk_stmt(Traversal::Guards, &stmt, &mut nodes);
    assert_eq!(spots(&nodes), vec![2, 4, 5]);
}

#[test]
fn well_formed_programs_name_what_they_have() {
    let good = program(vec![modifier(vec![PARAM], vec![run(assign(name(OWNER), name(PARAM)))])]);
    assert!(good.is_well_formed());

    let unknown_name = program(vec![modifier(vec![], vec![run(name(99))])]);
    assert!(!unknown_name.is_well_formed());

    let unknown_declaration = program(vec![modifier(vec![], vec![declare(99, None)])]);
    assert!(!unknown_declaration.is_well_formed());

    let unknown_parameter = program(vec![modifier(vec![99], vec![])]);
    assert!(!unknown_parameter.is_well_formed());

    let mut unknown_modifier = program(vec![modifier(vec![], vec![])]);
    unknown_modifier.functions[0].modifiers =
        vec![Modifier { id: ItemId::Function(1), args: CallArgs::Unnamed(vec![]) }];
    assert!(!unknown_modifier.is_well_formed());

    let mut unknown_contract = program(vec![modifier(vec![], vec![])]);
    unknown_contract.functions[0].contract = Some(0);
    assert!(!unknown_contract.is_well_formed());

    let mut unknown_base = program(vec![]);
    unknown_base.contracts = vec![Contract { linearized_bases: vec![1], items: vec![] }];
    assert!(!unknown_base.is_well_formed());

    let mut unknown_item = program(vec![]);
    unknown_item.contracts =
        vec![Contract { linearized_bases: vec![0], items: vec![ItemId::Function(0)] }];
    assert!(!unknown_item.is_well_formed());
}
