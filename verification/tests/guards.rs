//! Names, conditions and guards, and the authorities that they test.

use std::collections::HashSet;

use forge_lint::authority::{
    access_control_state_vars, collect_body_access_control_state_vars,
    collect_invocation_access_control_vars, contract_items, is_access_control_modifier,
};
use forge_lint::events::{contains_event, modifiers_contain_event};
use forge_lint::gate::{
    body_has_msg_sender_gate, condition_has_access_control_value, first_arg, is_protected,
    msg_sender_if_gates_execution,
};
use forge_lint::hir::{
    BinOpKind, Block, CallArgs, Contract, Expr, ExprKind, Function, FunctionKind, Hir, ItemId,
    Modifier, NamedArg, Res, Span, StateMutability, Stmt, Type, TypeForm, UnOpKind, VarDecl,
    VarKind, Variable, Visibility,
};
use forge_lint::names::{is_msg_sender, is_require_or_assert};
use forge_lint::reads::{collect_state_vars, AccessControlReadCollector};
use forge_lint::sender::{block_exits, contains_msg_sender, sender_condition_allows, stmt_exits};
use forge_lint::vars::{is_address_local, is_address_state_var};

const OWNER: usize = 0;
const COUNT: usize = 1;
const PARAM: usize = 2;
const LOCAL: usize = 3;
const WARDS: usize = 4;

fn variable(kind: VarKind, ty: TypeForm) -> Variable {
    Variable { kind, ty, name: None }
}

fn program(functions: Vec<Function>) -> Hir {
    Hir {
        contracts: vec![],
        functions,
        variables: vec![
            variable(VarKind::State, TypeForm::Address),
            variable(VarKind::State, TypeForm::Elementary),
            variable(VarKind::FunctionParam, TypeForm::Address),
            variable(VarKind::Statement, TypeForm::Address),
            variable(VarKind::State, TypeForm::Mapping),
        ],
    }
}

fn expr(kind: ExprKind) -> Expr {
    Expr { kind, span: Span { lo: 0, hi: 0 } }
}

fn name(var: usize) -> Expr {
    expr(ExprKind::Ident(vec![Res::Item(ItemId::Variable(var))]))
}

fn builtin(text: &str) -> Expr {
    expr(ExprKind::Ident(vec![Res::Builtin(text.to_string())]))
}

fn member(inner: Expr, text: &str) -> Expr {
    expr(ExprKind::Member(Box::new(inner), text.to_string()))
}

fn sender() -> Expr {
    member(builtin("msg"), "sender")
}

fn binary(lhs: Expr, op: BinOpKind, rhs: Expr) -> Expr {
    expr(ExprKind::Binary(Box::new(lhs), op, Box::new(rhs)))
}

fn eq(lhs: Expr, rhs: Expr) -> Expr {
    binary(lhs, BinOpKind::Eq, rhs)
}

fn ne(lhs: Expr, rhs: Expr) -> Expr {
    binary(lhs, BinOpKind::Ne, rhs)
}

fn not(inner: Expr) -> Expr {
    expr(ExprKind::Unary(UnOpKind::Not, Box::new(inner)))
}

fn paren(inner: Expr) -> Expr {
    expr(ExprKind::Tuple(vec![Some(inner)]))
}

fn index(base: Expr, key: Expr) -> Expr {
    expr(ExprKind::Index(Box::new(base), Some(Box::new(key))))
}

fn call(callee: Expr, args: Vec<Expr>) -> Expr {
    expr(ExprKind::Call(Box::new(callee), CallArgs::Unnamed(args), None))
}

fn lit() -> Expr {
    expr(ExprKind::Lit)
}

fn run(e: Expr) -> Stmt {
    Stmt::Expr(Box::new(e))
}

fn require(cond: Expr) -> Stmt {
    run(call(builtin("require"), vec![cond]))
}

fn block(stmts: Vec<Stmt>) -> Block {
    Block { stmts }
}

fn leave() -> Stmt {
    Stmt::Return(None)
}

fn branch(cond: Expr, then: Stmt, other: Option<Stmt>) -> Stmt {
    Stmt::If(Box::new(cond), Box::new(then), other.map(Box::new))
}

fn function(kind: FunctionKind, modifiers: Vec<Modifier>, stmts: Vec<Stmt>) -> Function {
    Function {
        contract: None,
        kind,
        visibility: Visibility::Public,
        state_mutability: StateMutability::NonPayable,
        modifiers,
        parameters: vec![],
        body: Some(block(stmts)),
    }
}

fn modifier(stmts: Vec<Stmt>) -> Function {
    function(FunctionKind::Modifier, vec![], stmts)
}

fn invoke(callee: usize, args: Vec<Expr>) -> Modifier {
    Modifier { id: ItemId::Function(callee), args: CallArgs::Unnamed(args) }
}

fn set_of(vars: &[usize]) -> HashSet<usize> {
    vars.iter().copied().collect()
}

#[test]
fn guard_builtins() {
    assert!(is_require_or_assert(&builtin("require")));
    assert!(is_require_or_assert(&builtin("assert")));
    assert!(!is_require_or_assert(&builtin("revert")));
    assert!(!is_require_or_assert(&name(OWNER)));
    assert!(!is_require_or_assert(&paren(builtin("require"))));
    let overloaded = expr(ExprKind::Ident(vec![
        Res::Item(ItemId::Function(0)),
        Res::Builtin("assert".to_string()),
    ]));
    assert!(is_require_or_assert(&overloaded));
}

#[test]
fn message_sender_is_matched_exactly() {
    assert!(is_msg_sender(&sender()));
    assert!(!is_msg_sender(&member(builtin("msg"), "value")));
    assert!(!is_msg_sender(&member(builtin("tx"), "sender")));
    assert!(!is_msg_sender(&member(name(OWNER), "sender")));
    assert!(!is_msg_sender(&paren(sender())));
}

#[test]
fn message_sender_is_found_in_every_value_position() {
    let boxed = |e: Expr| Box::new(e);
    let found = vec![
        sender(),
        paren(sender()),
        eq(lit(), sender()),
        not(sender()),
        member(sender(), "balance"),
        index(name(WARDS), sender()),
        index(sender(), lit()),
        call(sender(), vec![]),
        call(name(COUNT), vec![lit(), sender()]),
        expr(ExprKind::Payable(boxed(sender()))),
        expr(ExprKind::Delete(boxed(sender()))),
        expr(ExprKind::Assign(boxed(sender()), None, boxed(lit()))),
        expr(ExprKind::Array(vec![lit(), sender()])),
        expr(ExprKind::Ternary(boxed(lit()), boxed(lit()), boxed(sender()))),
        expr(ExprKind::Slice(boxed(lit()), None, Some(boxed(sender())))),
        expr(ExprKind::Call(
            boxed(name(COUNT)),
            CallArgs::Named(vec![NamedArg { name: "a".to_string(), value: sender() }]),
            None,
        )),
        expr(ExprKind::Call(
            boxed(name(COUNT)),
            CallArgs::Unnamed(vec![]),
            Some(vec![NamedArg { name: "gas".to_string(), value: sender() }]),
        )),
    ];
    for e in &found {
        assert!(contains_msg_sender(e), "{:?}", e);
    }
    let sized = Type::Array(Box::new(Type::Elementary), Some(Box::new(sender())));
    assert!(!contains_msg_sender(&expr(ExprKind::New(sized))));
    assert!(!contains_msg_sender(&name(OWNER)));
    assert!(!contains_msg_sender(&builtin("msg")));
}

#[test]
fn reading_of_conditions() {
    assert_eq!(sender_condition_allows(&eq(sender(), name(OWNER))), Some(true));
    assert_eq!(sender_condition_allows(&eq(name(OWNER), sender())), Some(true));
    assert_eq!(sender_condition_allows(&ne(sender(), name(OWNER))), Some(false));
    assert_eq!(sender_condition_allows(&eq(name(OWNER), name(PARAM))), None);
    let both = binary(eq(sender(), name(OWNER)), BinOpKind::And, lit());
    assert_eq!(sender_condition_allows(&both), None);
    assert_eq!(sender_condition_allows(&index(name(WARDS), sender())), Some(true));
    assert_eq!(sender_condition_allows(&call(name(WARDS), vec![sender()])), Some(true));
    assert_eq!(sender_condition_allows(&index(name(WARDS), name(PARAM))), None);
    assert_eq!(sender_condition_allows(&sender()), None);
}

#[test]
fn parentheses_change_nothing() {
    let conditions: Vec<fn() -> Expr> = vec![
        || eq(sender(), name(OWNER)),
        || ne(sender(), name(OWNER)),
        || index(name(WARDS), sender()),
        || not(eq(sender(), name(OWNER))),
        || name(OWNER),
    ];
    let hir = program(vec![]);
    for make in conditions {
        let bare = make();
        let wrapped = paren(paren(make()));
        assert_eq!(sender_condition_allows(&wrapped), sender_condition_allows(&bare));
        assert_eq!(contains_msg_sender(&wrapped), contains_msg_sender(&bare));
        assert_eq!(
            condition_has_access_control_value(&hir, &wrapped, false),
            condition_has_access_control_value(&hir, &bare, false),
        );
    }
}

#[test]
fn negation_turns_the_reading_round() {
    let equal = || eq(sender(), name(OWNER));
    assert_eq!(sender_condition_allows(&not(equal())), Some(false));
    assert_eq!(sender_condition_allows(&not(not(equal()))), Some(true));
    assert_eq!(sender_condition_allows(&not(ne(sender(), name(OWNER)))), Some(true));
    assert_eq!(sender_condition_allows(&not(sender())), Some(false));
    assert_eq!(sender_condition_allows(&not(name(OWNER))), None);
    let negative = expr(ExprKind::Unary(UnOpKind::BitNot, Box::new(equal())));
    assert_eq!(sender_condition_allows(&negative), None);
}

#[test]
fn statements_that_exit() {
    assert!(stmt_exits(&leave()));
    assert!(stmt_exits(&Stmt::Revert(Box::new(lit()))));
    assert!(!stmt_exits(&run(lit())));
    assert!(stmt_exits(&Stmt::Block(block(vec![run(lit()), leave()]))));
    assert!(stmt_exits(&Stmt::UncheckedBlock(block(vec![leave()]))));
    assert!(!stmt_exits(&Stmt::Block(block(vec![leave(), run(lit())]))));
    assert!(!stmt_exits(&Stmt::Loop(block(vec![leave()]))));
    assert!(stmt_exits(&branch(lit(), leave(), Some(leave()))));
    assert!(!stmt_exits(&branch(lit(), leave(), None)));
    assert!(!stmt_exits(&branch(lit(), leave(), Some(run(lit())))));
    assert!(!block_exits(&block(vec![])));
    assert!(block_exits(&block(vec![leave()])));
}

#[test]
fn mentioned_variables() {
    let mut found: HashSet<usize> = HashSet::new();
    let e = call(index(name(WARDS), name(PARAM)), vec![paren(name(OWNER)), lit()]);
    collect_state_vars(&e, &mut found);
    assert_eq!(found, set_of(&[WARDS, PARAM, OWNER]));
    collect_state_vars(&member(name(LOCAL), "x"), &mut found);
    assert_eq!(found, set_of(&[WARDS, PARAM, OWNER, LOCAL]));
}

#[test]
fn non_sender_variables_are_sorted_by_kind() {
    let hir = program(vec![]);
    let mut collector = AccessControlReadCollector::new(&hir);
    let e = binary(name(OWNER), BinOpKind::Add, index(name(PARAM), name(LOCAL)));
    collector.collect_non_sender_vars(&e);
    assert_eq!(collector.state_vars, set_of(&[OWNER]));
    assert_eq!(collector.params, set_of(&[PARAM]));
}

#[test]
fn access_variables_stand_opposite_the_sender() {
    let hir = program(vec![]);
    let collect = |cond: Expr| -> (HashSet<usize>, HashSet<usize>) {
        let mut collector = AccessControlReadCollector::new(&hir);
        collector.collect_access_vars(&cond);
        (collector.state_vars, collector.params)
    };
    assert_eq!(collect(eq(sender(), name(OWNER))), (set_of(&[OWNER]), set_of(&[])));
    assert_eq!(collect(ne(name(PARAM), sender())), (set_of(&[]), set_of(&[PARAM])));
    assert_eq!(collect(eq(name(OWNER), name(COUNT))), (set_of(&[]), set_of(&[])));
    let either = binary(
        eq(sender(), name(OWNER)),
        BinOpKind::Or,
        not(paren(eq(sender(), name(PARAM)))),
    );
    assert_eq!(collect(either), (set_of(&[OWNER]), set_of(&[PARAM])));
    let lookup = call(index(name(WARDS), sender()), vec![eq(sender(), name(COUNT))]);
    assert_eq!(collect(lookup), (set_of(&[WARDS, COUNT]), set_of(&[])));
    assert_eq!(collect(index(name(WARDS), sender())), (set_of(&[]), set_of(&[])));
    let less = binary(sender(), BinOpKind::Lt, name(OWNER));
    assert_eq!(collect(less), (set_of(&[]), set_of(&[])));
    let keyed = eq(index(name(WARDS), sender()), name(OWNER));
    assert_eq!(collect(keyed), (set_of(&[OWNER]), set_of(&[])));
}

#[test]
fn address_variables() {
    let hir = program(vec![]);
    assert!(is_address_state_var(&hir, OWNER));
    assert!(!is_address_state_var(&hir, COUNT));
    assert!(!is_address_state_var(&hir, PARAM));
    assert!(is_address_local(&hir, PARAM));
    assert!(is_address_local(&hir, LOCAL));
    assert!(!is_address_local(&hir, OWNER));
    assert!(matches!(hir.variable(WARDS).ty, TypeForm::Mapping));
}

#[test]
fn parameters_count_only_where_allowed() {
    let hir = program(vec![]);
    let by_param = eq(sender(), name(PARAM));
    assert!(condition_has_access_control_value(&hir, &by_param, true));
    assert!(!condition_has_access_control_value(&hir, &by_param, false));
    let by_state = eq(sender(), name(OWNER));
    assert!(condition_has_access_control_value(&hir, &by_state, true));
    assert!(condition_has_access_control_value(&hir, &by_state, false));
    let by_count = eq(sender(), name(COUNT));
    assert!(!condition_has_access_control_value(&hir, &by_count, true));
    let by_local = eq(sender(), name(LOCAL));
    assert!(!condition_has_access_control_value(&hir, &by_local, true));

    let body = block(vec![require(eq(sender(), name(OWNER)))]);
    assert!(body_has_msg_sender_gate(&hir, &body, false));
    assert!(body_has_msg_sender_gate(&hir, &body, true));
    let body = block(vec![require(eq(sender(), name(PARAM)))]);
    assert!(!body_has_msg_sender_gate(&hir, &body, false));
    assert!(body_has_msg_sender_gate(&hir, &body, true));
    assert!(is_access_control_modifier(&hir, &body));
}

#[test]
fn if_statements_guard_by_the_branch_that_exits() {
    let hir = program(vec![]);
    let gates = |cond: Expr, then: Stmt, other: Option<Stmt>| -> bool {
        msg_sender_if_gates_execution(&hir, &cond, &then, &other.map(Box::new), false)
    };
    assert!(gates(ne(sender(), name(OWNER)), leave(), None));
    assert!(!gates(eq(sender(), name(OWNER)), leave(), None));
    assert!(gates(eq(sender(), name(OWNER)), run(lit()), Some(leave())));
    assert!(!gates(eq(sender(), name(OWNER)), run(lit()), Some(run(lit()))));
    assert!(!gates(ne(sender(), name(COUNT)), leave(), None));
    let both = binary(ne(sender(), name(OWNER)), BinOpKind::And, lit());
    assert!(!gates(both, leave(), None));
}

#[test]
fn guards_are_found_anywhere_in_a_body() {
    let hir = program(vec![]);
    let guard = || require(eq(sender(), name(OWNER)));
    let bodies = vec![
        block(vec![run(lit()), guard()]),
        block(vec![Stmt::Loop(block(vec![Stmt::UncheckedBlock(block(vec![guard()]))]))]),
        block(vec![branch(lit(), run(lit()), Some(guard()))]),
        block(vec![Stmt::DeclSingle(VarDecl {
            var: LOCAL,
            ty: Type::Elementary,
            initializer: Some(Box::new(call(
                builtin("assert"),
                vec![eq(sender(), name(OWNER))],
            ))),
        })]),
    ];
    for body in &bodies {
        assert!(body_has_msg_sender_gate(&hir, body, false), "{:?}", body);
    }
    let lookalike = block(vec![run(call(name(COUNT), vec![eq(sender(), name(OWNER))]))]);
    assert!(!body_has_msg_sender_gate(&hir, &lookalike, false));
    let second = block(vec![run(call(
        builtin("require"),
        vec![lit(), eq(sender(), name(OWNER))],
    ))]);
    assert!(!body_has_msg_sender_gate(&hir, &second, false));
}

#[test]
fn first_argument_of_a_call() {
    assert!(first_arg(&CallArgs::Unnamed(vec![])).is_none());
    assert!(first_arg(&CallArgs::Named(vec![])).is_none());
    let args = CallArgs::Unnamed(vec![name(OWNER), lit()]);
    assert!(matches!(first_arg(&args), Some(Expr { kind: ExprKind::Ident(_), .. })));
    let args = CallArgs::Named(vec![NamedArg { name: "c".to_string(), value: lit() }]);
    assert!(matches!(first_arg(&args), Some(Expr { kind: ExprKind::Lit, .. })));
}

#[test]
fn protection_by_body_or_modifier() {
    let hir = program(vec![
        modifier(vec![require(eq(sender(), name(PARAM)))]),
        modifier(vec![Stmt::Placeholder]),
    ]);
    let by_modifier =
        function(FunctionKind::Function, vec![invoke(1, vec![]), invoke(0, vec![])], vec![]);
    assert!(is_protected(&hir, &by_modifier));
    let by_body = function(
        FunctionKind::Function,
        vec![],
        vec![require(eq(sender(), name(OWNER)))],
    );
    assert!(is_protected(&hir, &by_body));
    let own_param = function(
        FunctionKind::Function,
        vec![],
        vec![require(eq(sender(), name(PARAM)))],
    );
    assert!(!is_protected(&hir, &own_param));
    let open = function(FunctionKind::Function, vec![invoke(1, vec![])], vec![]);
    assert!(!is_protected(&hir, &open));
}

#[test]
fn events_in_bodies_and_modifiers() {
    let emit = || Stmt::Emit(Box::new(lit()));
    assert!(contains_event(&block(vec![emit()])));
    assert!(contains_event(&block(vec![branch(lit(), Stmt::Block(block(vec![emit()])), None)])));
    assert!(!contains_event(&block(vec![run(lit()), leave()])));
    let hir = program(vec![modifier(vec![emit()]), modifier(vec![])]);
    let loud = function(FunctionKind::Function, vec![invoke(1, vec![]), invoke(0, vec![])], vec![]);
    assert!(modifiers_contain_event(&hir, &loud));
    let quiet = function(FunctionKind::Function, vec![invoke(1, vec![])], vec![emit()]);
    assert!(!modifiers_contain_event(&hir, &quiet));
}

#[test]
fn body_authorities_come_from_guards_only() {
    let hir = program(vec![]);
    let mut found: HashSet<usize> = HashSet::new();
    let read = eq(sender(), name(OWNER));
    let body = block(vec![
        run(read),
        require(eq(sender(), name(COUNT))),
        branch(eq(sender(), name(OWNER)), leave(), None),
    ]);
    collect_body_access_control_state_vars(&hir, &body, &mut found);
    assert!(found.is_empty());
    let nested = branch(lit(), require(eq(sender(), name(OWNER))), None);
    collect_body_access_control_state_vars(&hir, &block(vec![nested]), &mut found);
    assert_eq!(found, set_of(&[OWNER]));
}

#[test]
fn guards_in_conditions_and_targets_name_no_authority() {
    let hir = program(vec![]);
    let check = || call(builtin("require"), vec![eq(sender(), name(OWNER))]);
    let collect = |stmt: Stmt| -> HashSet<usize> {
        let mut found: HashSet<usize> = HashSet::new();
        collect_body_access_control_state_vars(&hir, &block(vec![stmt]), &mut found);
        found
    };
    let assign = |op: Option<BinOpKind>| {
        run(expr(ExprKind::Assign(Box::new(check()), op, Box::new(lit()))))
    };
    assert!(collect(branch(check(), run(lit()), None)).is_empty());
    assert!(collect(assign(None)).is_empty());
    assert_eq!(collect(assign(Some(BinOpKind::Add))), set_of(&[OWNER]));
    assert!(collect(run(expr(ExprKind::Delete(Box::new(check()))))).is_empty());
    let value = run(expr(ExprKind::Assign(Box::new(lit()), None, Box::new(check()))));
    assert_eq!(collect(value), set_of(&[OWNER]));
}

#[test]
fn invocation_maps_parameters_to_arguments() {
    let mut only = modifier(vec![require(eq(sender(), name(PARAM)))]);
    only.parameters = vec![PARAM];
    let hir = program(vec![only, modifier(vec![])]);
    let collect = |invocation: Modifier| -> HashSet<usize> {
        let mut found: HashSet<usize> = HashSet::new();
        collect_invocation_access_control_vars(&hir, &invocation, &mut found);
        found
    };
    assert_eq!(collect(invoke(0, vec![name(OWNER)])), set_of(&[OWNER]));
    assert_eq!(collect(invoke(0, vec![paren(name(COUNT))])), set_of(&[]));
    assert_eq!(collect(invoke(0, vec![])), set_of(&[]));
    assert_eq!(collect(invoke(1, vec![name(OWNER)])), set_of(&[]));
    let base = Modifier { id: ItemId::Contract(0), args: CallArgs::Unnamed(vec![name(OWNER)]) };
    assert_eq!(collect(base), set_of(&[]));
}

#[test]
fn authorities_are_address_state_of_the_contract() {
    let mut only = modifier(vec![require(eq(sender(), name(PARAM)))]);
    only.parameters = vec![PARAM];
    let compares_count = modifier(vec![require(binary(
        eq(sender(), name(OWNER)),
        BinOpKind::Or,
        eq(sender(), name(COUNT)),
    ))]);
    let mut user =
        function(FunctionKind::Function, vec![invoke(0, vec![name(OWNER)])], vec![]);
    user.contract = Some(0);
    let mut hir = program(vec![only, user, compares_count]);
    hir.contracts = vec![Contract {
        linearized_bases: vec![0],
        items: vec![ItemId::Function(0), ItemId::Function(1), ItemId::Variable(OWNER)],
    }];
    assert!(hir.is_well_formed());
    assert_eq!(access_control_state_vars(&hir, &hir.functions[1]), set_of(&[OWNER]));
    hir.contracts[0].items = vec![ItemId::Function(0), ItemId::Function(2)];
    assert_eq!(access_control_state_vars(&hir, &hir.functions[1]), set_of(&[OWNER]));
    hir.contracts[0].items = vec![ItemId::Function(0)];
    assert_eq!(access_control_state_vars(&hir, &hir.functions[1]), set_of(&[]));
}

#[test]
fn contract_items_include_inherited_ones() {
    let mut hir = program(vec![modifier(vec![]), modifier(vec![])]);
    hir.contracts = vec![
        Contract { linearized_bases: vec![0, 1], items: vec![ItemId::Function(1)] },
        Contract {
            linearized_bases: vec![1],
            items: vec![ItemId::Variable(OWNER), ItemId::Function(0)],
        },
    ];
    assert_eq!(
        contract_items(&hir, 0),
        vec![ItemId::Function(1), ItemId::Variable(OWNER), ItemId::Function(0)],
    );
    assert_eq!(contract_items(&hir, 1), vec![ItemId::Variable(OWNER), ItemId::Function(0)]);
}

#[test]
fn own_guard_that_names_an_authority_protects() {
    let hir = program(vec![]);
    let nested = || branch(lit(), require(eq(sender(), name(OWNER))), None);
    let mut found: HashSet<usize> = HashSet::new();
    collect_body_access_control_state_vars(&hir, &block(vec![nested()]), &mut found);
    assert_eq!(found, set_of(&[OWNER]));
    assert!(is_protected(&hir, &function(FunctionKind::Function, vec![], vec![nested()])));
}
