//! Whole functions, as the lint sees them.

use forge_lint::hir::{
    BinOpKind, Block, CallArgs, Contract, Expr, ExprKind, Function, FunctionKind, Hir, ItemId,
    Modifier, NamedArg, Res, Span, StateMutability, Stmt, Type, TypeForm, UnOpKind, VarDecl,
    VarKind, Variable, Visibility,
};
use forge_lint::lint::{is_entry_point, MissingEventsAccessControl, DESCRIPTION, ID, SEVERITY};

const OWNER: usize = 0;
const ADMIN: usize = 1;
const COUNT: usize = 2;
const NEW_OWNER: usize = 3;
const WHO: usize = 4;
const LOCAL: usize = 5;
const CAUGHT: usize = 6;
const WARDS: usize = 7;
const STRANGER: usize = 8;

/// The table of variables that all the programs below share.
fn variables() -> Vec<Variable> {
    vec![
        variable(VarKind::State, TypeForm::Address, "owner"),
        variable(VarKind::State, TypeForm::Address, "admin"),
        variable(VarKind::State, TypeForm::Elementary, "count"),
        variable(VarKind::FunctionParam, TypeForm::Address, "newOwner"),
        variable(VarKind::FunctionParam, TypeForm::Address, "who"),
        variable(VarKind::Statement, TypeForm::Address, "local"),
        variable(VarKind::TryCatch, TypeForm::Address, "caught"),
        variable(VarKind::State, TypeForm::Mapping, "wards"),
        variable(VarKind::State, TypeForm::Address, "stranger"),
    ]
}

fn variable(kind: VarKind, ty: TypeForm, name: &str) -> Variable {
    Variable { kind, ty, name: Some(name.to_string()) }
}

fn at(lo: u32) -> Span {
    Span { lo, hi: lo + 1 }
}

fn expr(kind: ExprKind) -> Expr {
    Expr { kind, span: at(0) }
}

fn name(var: usize) -> Expr {
    name_at(var, 0)
}

fn name_at(var: usize, lo: u32) -> Expr {
    Expr { kind: ExprKind::Ident(vec![Res::Item(ItemId::Variable(var))]), span: at(lo) }
}

fn builtin(text: &str) -> Expr {
    expr(ExprKind::Ident(vec![Res::Builtin(text.to_string())]))
}

fn sender() -> Expr {
    expr(ExprKind::Member(Box::new(builtin("msg")), "sender".to_string()))
}

fn binary(lhs: Expr, op: BinOpKind, rhs: Expr) -> Expr {
    expr(ExprKind::Binary(Box::new(lhs), op, Box::new(rhs)))
}

fn sender_is(var: usize) -> Expr {
    binary(sender(), BinOpKind::Eq, name(var))
}

fn sender_is_not(var: usize) -> Expr {
    binary(sender(), BinOpKind::Ne, name(var))
}

fn call(callee: Expr, args: Vec<Expr>) -> Expr {
    expr(ExprKind::Call(Box::new(callee), CallArgs::Unnamed(args), None))
}

fn run(e: Expr) -> Stmt {
    Stmt::Expr(Box::new(e))
}

fn require(cond: Expr) -> Stmt {
    run(call(builtin("require"), vec![cond]))
}

fn set(lhs: Expr, rhs: Expr) -> Stmt {
    run(expr(ExprKind::Assign(Box::new(lhs), None, Box::new(rhs))))
}

/// `address(0)`
fn zero() -> Expr {
    call(expr(ExprKind::Type(Type::Elementary)), vec![expr(ExprKind::Lit)])
}

fn emit() -> Stmt {
    Stmt::Emit(Box::new(call(
        expr(ExprKind::Ident(vec![Res::Item(ItemId::Event(0))])),
        vec![name(OWNER), name(NEW_OWNER)],
    )))
}

fn block(stmts: Vec<Stmt>) -> Block {
    Block { stmts }
}

fn modifier(parameters: Vec<usize>, stmts: Vec<Stmt>) -> Function {
    Function {
        contract: Some(0),
        kind: FunctionKind::Modifier,
        visibility: Visibility::Internal,
        state_mutability: StateMutability::NonPayable,
        modifiers: vec![],
        parameters,
        body: Some(block(stmts)),
    }
}

fn external(parameters: Vec<usize>, modifiers: Vec<Modifier>, stmts: Vec<Stmt>) -> Function {
    Function {
        contract: Some(0),
        kind: FunctionKind::Function,
        visibility: Visibility::External,
        state_mutability: StateMutability::NonPayable,
        modifiers,
        parameters,
        body: Some(block(stmts)),
    }
}

fn invoke(function: usize, args: Vec<Expr>) -> Modifier {
    Modifier { id: ItemId::Function(function), args: CallArgs::Unnamed(args) }
}

/// `modifier onlyOwner() { require(msg.sender == owner); _; }`
fn only_owner() -> Function {
    modifier(vec![], vec![require(sender_is(OWNER)), Stmt::Placeholder])
}

/// One contract that declares all the functions.
fn program(functions: Vec<Function>) -> Hir {
    let items: Vec<ItemId> = (0..functions.len()).map(ItemId::Function).collect();
    Hir {
        contracts: vec![Contract { linearized_bases: vec![0], items }],
        functions,
        variables: variables(),
    }
}

/// What the lint reports of the last function.
fn check(functions: Vec<Function>) -> Vec<Span> {
    check_last(&program(functions))
}

fn check_last(hir: &Hir) -> Vec<Span> {
    assert!(hir.is_well_formed());
    let func: &Function = &hir.functions[hir.functions.len() - 1];
    MissingEventsAccessControl.check_function(hir, func)
}

#[test]
fn lint_metadata() {
    assert_eq!(ID, "missing-events-access-control");
    assert_eq!(SEVERITY, "Low");
    assert_eq!(DESCRIPTION, "access control state change should emit an event");
}

#[test]
fn bad_example_is_flagged() {
    let func = external(
        vec![NEW_OWNER],
        vec![invoke(0, vec![])],
        vec![set(name_at(OWNER, 7), name(NEW_OWNER))],
    );
    assert_eq!(check(vec![only_owner(), func]), vec![at(7)]);
}

#[test]
fn good_example_is_clean() {
    let func = external(
        vec![NEW_OWNER],
        vec![invoke(0, vec![])],
        vec![emit(), set(name_at(OWNER, 7), name(NEW_OWNER))],
    );
    assert!(check(vec![only_owner(), func]).is_empty());
}

#[test]
fn event_after_the_write_counts() {
    let func = external(
        vec![NEW_OWNER],
        vec![invoke(0, vec![])],
        vec![set(name(OWNER), name(NEW_OWNER)), Stmt::Block(block(vec![emit()]))],
    );
    assert!(check(vec![only_owner(), func]).is_empty());
}

#[test]
fn event_in_the_modifier_counts() {
    let announcing =
        modifier(vec![], vec![require(sender_is(OWNER)), emit(), Stmt::Placeholder]);
    let func = external(
        vec![NEW_OWNER],
        vec![invoke(0, vec![])],
        vec![set(name(OWNER), name(NEW_OWNER))],
    );
    assert!(check(vec![announcing, func]).is_empty());
}

#[test]
fn unprotected_function_is_clean() {
    let func = external(vec![NEW_OWNER], vec![], vec![set(name(OWNER), name(NEW_OWNER))]);
    assert!(check(vec![only_owner(), func]).is_empty());
}

#[test]
fn inline_require_protects() {
    let func = external(
        vec![NEW_OWNER],
        vec![],
        vec![require(sender_is(OWNER)), set(name_at(OWNER, 3), name(NEW_OWNER))],
    );
    assert_eq!(check(vec![func]), vec![at(3)]);
}

#[test]
fn inline_if_revert_protects() {
    let guard = Stmt::If(
        Box::new(sender_is_not(OWNER)),
        Box::new(Stmt::Revert(Box::new(call(
            expr(ExprKind::Ident(vec![Res::Item(ItemId::Error(0))])),
            vec![],
        )))),
        None,
    );
    let func = external(
        vec![NEW_OWNER],
        vec![],
        vec![guard, set(name_at(OWNER, 3), name(NEW_OWNER))],
    );
    assert_eq!(check(vec![func]), vec![at(3)]);
}

#[test]
fn inline_if_that_falls_through_does_not_protect() {
    let guard = Stmt::If(
        Box::new(sender_is_not(OWNER)),
        Box::new(Stmt::Block(block(vec![]))),
        None,
    );
    let func =
        external(vec![NEW_OWNER], vec![], vec![guard, set(name(OWNER), name(NEW_OWNER))]);
    assert!(check(vec![func]).is_empty());
}

#[test]
fn free_function_has_its_own_authorities_only() {
    let mut func = external(
        vec![NEW_OWNER],
        vec![],
        vec![
            require(sender_is(OWNER)),
            set(name_at(ADMIN, 3), name(NEW_OWNER)),
            set(name_at(OWNER, 5), name(NEW_OWNER)),
        ],
    );
    func.contract = None;
    let admin_guard = modifier(vec![], vec![require(sender_is(ADMIN)), Stmt::Placeholder]);
    assert_eq!(check(vec![admin_guard, func]), vec![at(5)]);
}

#[test]
fn state_read_by_another_modifier_is_an_authority() {
    let admin_guard = modifier(vec![], vec![require(sender_is(ADMIN)), Stmt::Placeholder]);
    let func = external(
        vec![NEW_OWNER],
        vec![invoke(0, vec![])],
        vec![set(name_at(ADMIN, 9), name(NEW_OWNER))],
    );
    assert_eq!(check(vec![only_owner(), admin_guard, func]), vec![at(9)]);
}

#[test]
fn state_that_no_guard_reads_is_no_authority() {
    let func = external(
        vec![NEW_OWNER],
        vec![invoke(0, vec![])],
        vec![set(name(STRANGER), name(NEW_OWNER)), set(name(COUNT), name(NEW_OWNER))],
    );
    assert!(check(vec![only_owner(), func]).is_empty());
}

#[test]
fn parameterized_modifier_takes_its_authority_from_the_invocation() {
    let only = modifier(vec![WHO], vec![require(sender_is(WHO)), Stmt::Placeholder]);
    let func = external(
        vec![NEW_OWNER],
        vec![invoke(0, vec![name(ADMIN)])],
        vec![set(name_at(ADMIN, 4), name(NEW_OWNER)), set(name_at(OWNER, 8), name(NEW_OWNER))],
    );
    assert_eq!(check(vec![only, func]), vec![at(4)]);
}

#[test]
fn named_modifier_argument_is_matched_by_name() {
    let only = modifier(
        vec![NEW_OWNER, WHO],
        vec![require(sender_is(WHO)), Stmt::Placeholder],
    );
    let invocation = Modifier {
        id: ItemId::Function(0),
        args: CallArgs::Named(vec![
            NamedArg { name: "who".to_string(), value: name(ADMIN) },
            NamedArg { name: "newOwner".to_string(), value: name(OWNER) },
        ]),
    };
    let func = external(
        vec![],
        vec![invocation],
        vec![
            set(name_at(OWNER, 4), builtin("tx")),
            set(name_at(ADMIN, 8), builtin("tx")),
        ],
    );
    assert_eq!(check(vec![only, func]), vec![at(8)]);
}

#[test]
fn each_authority_is_reported_once_at_its_first_tainted_write() {
    let admin_guard = modifier(vec![], vec![require(sender_is(ADMIN)), Stmt::Placeholder]);
    let func = external(
        vec![NEW_OWNER],
        vec![invoke(0, vec![])],
        vec![
            set(name_at(OWNER, 1), zero()),
            set(name_at(OWNER, 2), name(NEW_OWNER)),
            set(name_at(ADMIN, 3), name(NEW_OWNER)),
            set(name_at(OWNER, 4), name(NEW_OWNER)),
        ],
    );
    assert_eq!(check(vec![only_owner(), admin_guard, func]), vec![at(2), at(3)]);
}

#[test]
fn untainted_write_is_clean_and_delete_is_not() {
    let clean = external(vec![], vec![invoke(0, vec![])], vec![set(name(OWNER), zero())]);
    assert!(check(vec![only_owner(), clean]).is_empty());
    let flagged = external(
        vec![],
        vec![invoke(0, vec![])],
        vec![run(expr(ExprKind::Delete(Box::new(name_at(OWNER, 6)))))],
    );
    assert_eq!(check(vec![only_owner(), flagged]), vec![at(6)]);
}

#[test]
fn taint_flows_through_locals() {
    let declare = Stmt::DeclSingle(VarDecl {
        var: LOCAL,
        ty: Type::Elementary,
        initializer: Some(Box::new(name(NEW_OWNER))),
    });
    let func = external(
        vec![NEW_OWNER],
        vec![invoke(0, vec![])],
        vec![declare, set(name_at(OWNER, 2), name(LOCAL))],
    );
    assert_eq!(check(vec![only_owner(), func]), vec![at(2)]);
}

#[test]
fn reassigned_parameter_is_no_longer_tainted() {
    let func = external(
        vec![NEW_OWNER],
        vec![invoke(0, vec![])],
        vec![set(name(NEW_OWNER), zero()), set(name(OWNER), name(NEW_OWNER))],
    );
    assert!(check(vec![only_owner(), func]).is_empty());
}

#[test]
fn parameter_of_another_function_is_not_tainted() {
    let func = external(
        vec![],
        vec![invoke(0, vec![])],
        vec![set(name(OWNER), name(NEW_OWNER))],
    );
    assert!(check(vec![only_owner(), func]).is_empty());
}

#[test]
fn builtins_allocations_and_caught_values_are_tainted() {
    for value in [builtin("tx"), expr(ExprKind::New(Type::Custom)), name(CAUGHT), sender()] {
        let func =
            external(vec![], vec![invoke(0, vec![])], vec![set(name_at(OWNER, 5), value)]);
        assert_eq!(check(vec![only_owner(), func]), vec![at(5)]);
    }
}

#[test]
fn write_in_the_modifier_is_reported() {
    let handing_over = modifier(
        vec![WHO],
        vec![
            require(sender_is(OWNER)),
            Stmt::Placeholder,
            set(name_at(OWNER, 12), name(WHO)),
        ],
    );
    let func = external(vec![NEW_OWNER], vec![invoke(0, vec![name(NEW_OWNER)])], vec![]);
    assert_eq!(check(vec![handing_over, func]), vec![at(12)]);
}

#[test]
fn write_of_an_untainted_modifier_argument_is_clean() {
    let handing_over = modifier(
        vec![WHO],
        vec![require(sender_is(OWNER)), Stmt::Placeholder, set(name(OWNER), name(WHO))],
    );
    let func = external(vec![NEW_OWNER], vec![invoke(0, vec![zero()])], vec![]);
    assert!(check(vec![handing_over, func]).is_empty());
}

#[test]
fn modifier_bindings_end_with_the_invocation() {
    let handing_over = modifier(
        vec![WHO],
        vec![require(sender_is(OWNER)), Stmt::Placeholder],
    );
    let late = modifier(vec![], vec![Stmt::Placeholder, set(name(OWNER), name(WHO))]);
    let func = external(
        vec![NEW_OWNER],
        vec![invoke(0, vec![name(NEW_OWNER)]), invoke(1, vec![])],
        vec![],
    );
    assert!(check(vec![handing_over, late, func]).is_empty());
}

#[test]
fn tuple_target_reports_every_authority() {
    let admin_guard = modifier(vec![], vec![require(sender_is(ADMIN)), Stmt::Placeholder]);
    let target = expr(ExprKind::Tuple(vec![
        Some(name_at(ADMIN, 1)),
        None,
        Some(name_at(OWNER, 2)),
    ]));
    let func = external(
        vec![NEW_OWNER],
        vec![invoke(0, vec![])],
        vec![set(target, call(name(COUNT), vec![name(NEW_OWNER)]))],
    );
    assert_eq!(check(vec![only_owner(), admin_guard, func]), vec![at(1), at(2)]);
}

#[test]
fn inherited_modifier_counts() {
    let admin_guard = modifier(vec![], vec![require(sender_is(ADMIN)), Stmt::Placeholder]);
    let functions = vec![
        only_owner(),
        admin_guard,
        external(
            vec![NEW_OWNER],
            vec![invoke(0, vec![])],
            vec![set(name_at(ADMIN, 2), name(NEW_OWNER))],
        ),
    ];
    let derived = |linearized_bases: Vec<usize>| -> Vec<Contract> {
        vec![
            Contract { linearized_bases, items: vec![ItemId::Function(0), ItemId::Function(2)] },
            Contract { linearized_bases: vec![1], items: vec![ItemId::Function(1)] },
        ]
    };
    let mut hir = Hir { contracts: derived(vec![0]), functions, variables: variables() };
    assert!(check_last(&hir).is_empty());
    hir.contracts = derived(vec![0, 1]);
    assert_eq!(check_last(&hir), vec![at(2)]);
}

#[test]
fn only_entry_points_are_checked() {
    let make = || {
        external(
            vec![NEW_OWNER],
            vec![invoke(0, vec![])],
            vec![set(name_at(OWNER, 7), name(NEW_OWNER))],
        )
    };
    let mut func = make();
    func.visibility = Visibility::Public;
    func.state_mutability = StateMutability::Payable;
    assert!(is_entry_point(&func));
    assert_eq!(check(vec![only_owner(), func]), vec![at(7)]);
    for visibility in [Visibility::Internal, Visibility::Private] {
        let mut func = make();
        func.visibility = visibility;
        assert!(!is_entry_point(&func));
        assert!(check(vec![only_owner(), func]).is_empty());
    }
    for mutability in [StateMutability::View, StateMutability::Pure] {
        let mut func = make();
        func.state_mutability = mutability;
        assert!(!is_entry_point(&func));
        assert!(check(vec![only_owner(), func]).is_empty());
    }
    for kind in [
        FunctionKind::Constructor,
        FunctionKind::Fallback,
        FunctionKind::Receive,
        FunctionKind::Modifier,
    ] {
        let mut func = make();
        func.kind = kind;
        assert!(!is_entry_point(&func));
        assert!(check(vec![only_owner(), func]).is_empty());
    }
}

#[test]
fn function_without_a_body_is_clean() {
    let mut func = external(vec![NEW_OWNER], vec![invoke(0, vec![])], vec![]);
    func.body = None;
    assert!(check(vec![only_owner(), func]).is_empty());
}

#[test]
fn base_call_is_no_modifier() {
    let func = external(
        vec![NEW_OWNER],
        vec![Modifier { id: ItemId::Contract(0), args: CallArgs::Unnamed(vec![]) }],
        vec![set(name(OWNER), name(NEW_OWNER))],
    );
    assert!(check(vec![only_owner(), func]).is_empty());
}

#[test]
fn membership_guard_protects_but_names_no_address_authority() {
    let ward = call(
        expr(ExprKind::Index(Box::new(name(WARDS)), Some(Box::new(sender())))),
        vec![],
    );
    let guard = modifier(vec![], vec![require(ward), Stmt::Placeholder]);
    let func = external(
        vec![NEW_OWNER],
        vec![invoke(0, vec![])],
        vec![set(name(OWNER), name(NEW_OWNER))],
    );
    assert!(check(vec![guard, func]).is_empty());
}

#[test]
fn negated_guard_with_an_exit_protects() {
    let cond = expr(ExprKind::Unary(
        UnOpKind::Not,
        Box::new(expr(ExprKind::Tuple(vec![Some(sender_is(OWNER))]))),
    ));
    let guard = Stmt::If(Box::new(cond), Box::new(Stmt::Return(None)), None);
    let func = external(
        vec![NEW_OWNER],
        vec![],
        vec![guard, set(name_at(OWNER, 3), name(NEW_OWNER))],
    );
    assert_eq!(check(vec![func]), vec![at(3)]);
}
