//! What holds of modifier arguments and of authorities.

use vstd::prelude::*;

use crate::arguments;
use crate::authority;
use crate::gate;
use crate::hir::{
    Block, CallArgs, Expr, Function, FunctionId, FunctionKind, Hir, ItemId, Modifier, NamedArg,
    Stmt, TypeForm, VarKind, VariableId,
};
use crate::laws;
use crate::parts;
use crate::reads;
use crate::vars;
use crate::walk::{self, Node, Traversal};

verus! {

proof fn lemma_first_position(params: Seq<VariableId>, param: VariableId, i: int)
    requires
        0 <= i < params.len(),
        params[i] == param,
        forall|j: int| 0 <= j < i ==> #[trigger] params[j] != param,
    ensures
        arguments::position(params, param) == Some(i),
    decreases params.len(),
{
    if i < params.len() - 1 {
        lemma_first_position(params.drop_last(), param, i);
    } else {
        lemma_no_position(params.drop_last(), param);
    }
}

proof fn lemma_no_position(params: Seq<VariableId>, param: VariableId)
    requires
        forall|j: int| 0 <= j < params.len() ==> #[trigger] params[j] != param,
    ensures
        arguments::position(params, param) is None,
    decreases params.len(),
{
    if params.len() > 0 {
        assert(params[params.len() - 1] != param);
        lemma_no_position(params.drop_last(), param);
    }
}

proof fn lemma_first_called(args: Seq<NamedArg>, name: Seq<char>, i: int)
    requires
        0 <= i < args.len(),
        args[i].name@ == name,
        forall|j: int| 0 <= j < i ==> (#[trigger] args[j]).name@ != name,
    ensures
        arguments::argument_called(args, name) == Some(args[i].value),
    decreases args.len(),
{
    if i < args.len() - 1 {
        lemma_first_called(args.drop_last(), name, i);
    } else {
        lemma_none_called(args.drop_last(), name);
    }
}

proof fn lemma_none_called(args: Seq<NamedArg>, name: Seq<char>)
    requires
        forall|j: int| 0 <= j < args.len() ==> (#[trigger] args[j]).name@ != name,
    ensures
        arguments::argument_called(args, name) is None,
    decreases args.len(),
{
    if args.len() > 0 {
        assert(args[args.len() - 1].name@ != name);
        lemma_none_called(args.drop_last(), name);
    }
}

/// Positional arguments go to the parameters in order: the one at every position goes to the
/// parameter there, a parameter past the end of the list gets none, and what is no parameter
/// gets none.
pub proof fn law_positional_arguments(
    hir: Hir,
    modifier: Function,
    invocation: Modifier,
    values: Vec<Expr>,
    param: VariableId,
)
    requires
        invocation.args == CallArgs::Unnamed(values),
    ensures
        forall|i: int|
            #![trigger modifier.parameters@[i]]
            0 <= i < modifier.parameters@.len() && modifier.parameters@[i] == param && (forall|
                j: int,
            |
                0 <= j < i ==> #[trigger] modifier.parameters@[j] != param)
                ==> arguments::argument(hir, modifier, invocation, param) == (if i
                < values@.len() {
                Some(values@[i])
            } else {
                None::<Expr>
            }),
        !modifier.parameters@.contains(param) ==> arguments::argument(
            hir,
            modifier,
            invocation,
            param,
        ) is None,
{
    let params = modifier.parameters@;
    assert forall|i: int|
        #![trigger modifier.parameters@[i]]
        0 <= i < params.len() && params[i] == param && (forall|j: int|
            0 <= j < i ==> #[trigger] params[j] != param) implies arguments::argument(
        hir,
        modifier,
        invocation,
        param,
    ) == (if i < values@.len() {
        Some(values@[i])
    } else {
        None::<Expr>
    }) by {
        lemma_first_position(params, param, i);
    }
    if !params.contains(param) {
        lemma_no_position(params, param);
    }
}

/// A named argument goes to the parameter of that name, wherever it stands among the arguments;
/// a parameter that no argument names gets none.
pub proof fn law_named_arguments(
    hir: Hir,
    modifier: Function,
    invocation: Modifier,
    values: Vec<NamedArg>,
    param: VariableId,
    name: String,
)
    requires
        invocation.args == CallArgs::Named(values),
        modifier.parameters@.contains(param),
        hir.variables@[param as int].name == Some(name),
    ensures
        forall|i: int|
            #![trigger values@[i]]
            0 <= i < values@.len() && values@[i].name@ == name@ && (forall|j: int|
                0 <= j < i ==> (#[trigger] values@[j]).name@ != name@) ==> arguments::argument(
                hir,
                modifier,
                invocation,
                param,
            ) == Some(values@[i].value),
        (forall|i: int| 0 <= i < values@.len() ==> (#[trigger] values@[i]).name@ != name@)
            ==> arguments::argument(hir, modifier, invocation, param) is None,
{
    let first = lemma_some_position(modifier.parameters@, param);
    assert forall|i: int|
        #![trigger values@[i]]
        0 <= i < values@.len() && values@[i].name@ == name@ && (forall|j: int|
            0 <= j < i ==> (#[trigger] values@[j]).name@ != name@) implies arguments::argument(
        hir,
        modifier,
        invocation,
        param,
    ) == Some(values@[i].value) by {
        lemma_first_called(values@, name@, i);
    }
    if forall|i: int| 0 <= i < values@.len() ==> (#[trigger] values@[i]).name@ != name@ {
        lemma_none_called(values@, name@);
    }
}

proof fn lemma_some_position(params: Seq<VariableId>, param: VariableId) -> (i: int)
    requires
        params.contains(param),
    ensures
        arguments::position(params, param) == Some(i),
    decreases params.len(),
{
    let k = choose|k: int| 0 <= k < params.len() && params[k] == param;
    if k < params.len() - 1 {
        assert(params.drop_last()[k] == param);
        lemma_some_position(params.drop_last(), param)
    } else if params.drop_last().contains(param) {
        lemma_some_position(params.drop_last(), param)
    } else {
        lemma_no_position(params.drop_last(), param);
        params.len() - 1
    }
}

/// A parameter without a name gets no named argument, and neither does what is no parameter.
pub proof fn law_nameless_parameters(
    hir: Hir,
    modifier: Function,
    invocation: Modifier,
    param: VariableId,
)
    requires
        invocation.args is Named,
        hir.variables@[param as int].name is None || !modifier.parameters@.contains(param),
    ensures
        arguments::argument(hir, modifier, invocation, param) is None,
{
    if !modifier.parameters@.contains(param) {
        lemma_no_position(modifier.parameters@, param);
    }
}

/// The guards of a block compare the sender with a variable exactly when a guard in one of its
/// statements does, at any depth that the search for guards enters.
pub proof fn law_guarding_blocks(hir: Hir, block: Block, var: VariableId)
    ensures
        authority::block_guarding_vars(hir, block).contains(var) <==> exists|i: int|
            0 <= i < block.stmts@.len() && parts::asks_stmt(
                Traversal::Guards,
                #[trigger] block.stmts@[i],
                |node: Node| authority::node_guards_by(hir, node, var),
            ),
{
    let f = |node: Node| authority::node_guards_by(hir, node, var);
    let nodes = walk::stmts_walk(Traversal::Guards, block.stmts@);
    parts::law_statements(Traversal::Guards, block.stmts@, f);
    if authority::block_guarding_vars(hir, block).contains(var) {
        let i = choose|i: int|
            0 <= i < nodes.len() && authority::node_guards_by(hir, #[trigger] nodes[i], var);
        assert(f(nodes[i]));
        assert(parts::some(nodes, f));
    }
    if parts::some(nodes, f) {
        let i = choose|i: int| 0 <= i < nodes.len() && f(#[trigger] nodes[i]);
        assert(authority::node_guards_by(hir, nodes[i], var));
    }
}

/// A statement of a block, wherever it stands, that is an `if` guard or a guard call makes the
/// guards of the block compare the sender with all that its condition does.
pub proof fn law_guarding_statements(hir: Hir, block: Block, i: int, var: VariableId)
    requires
        0 <= i < block.stmts@.len(),
        authority::node_guards_by(hir, Node::Stmt(&block.stmts@[i]), var) || (
        block.stmts@[i] matches Stmt::Expr(expr) && authority::node_guards_by(
            hir,
            Node::Expr(&*expr),
            var,
        )),
    ensures
        authority::block_guarding_vars(hir, block).contains(var),
{
    let f = |node: Node| authority::node_guards_by(hir, node, var);
    law_guarding_blocks(hir, block, var);
    parts::law_statement(Traversal::Guards, block.stmts@[i], f);
    if let Stmt::Expr(expr) = block.stmts@[i] {
        parts::law_guards(*expr, f);
    }
    assert(parts::asks_stmt(Traversal::Guards, block.stmts@[i], f));
}

/// An invocation tests an address state variable exactly when it names a modifier whose body has
/// a guard, and the guards there compare the sender with the variable itself, or with a
/// parameter for which the invocation passes something that mentions it.
pub proof fn law_tested_by_invocation(hir: Hir, invocation: Modifier, var: VariableId)
    ensures
        authority::invocation_authorities(hir, invocation).contains(var) <==> {
            &&& hir.variables@[var as int].ty == TypeForm::Address
            &&& hir.variables@[var as int].kind == VarKind::State
            &&& invocation.id matches ItemId::Function(function)
            &&& hir.functions@[function as int].body matches Some(body)
            &&& gate::block_gates(hir, body, true)
            &&& {
                ||| authority::block_guarding_vars(hir, body).contains(var)
                ||| exists|param: VariableId|
                    #[trigger] authority::block_guarding_vars(hir, body).contains(param)
                        && hir.variables@[param as int].kind == VarKind::FunctionParam
                        && arguments::argument(
                        hir,
                        hir.functions@[function as int],
                        invocation,
                        param,
                    ) is Some && reads::mentions(
                        arguments::argument(
                            hir,
                            hir.functions@[function as int],
                            invocation,
                            param,
                        )->0,
                        var,
                    )
            }
        },
{
    if let ItemId::Function(function) = invocation.id {
        let modifier = hir.functions@[function as int];
        if let Some(body) = modifier.body {
            let tested = authority::block_guarding_vars(hir, body);
            let passed = authority::passed_vars(hir, modifier, invocation, tested);
            if exists|param: VariableId| #[trigger]
                tested.contains(param) && hir.variables@[param as int].kind
                    == VarKind::FunctionParam && arguments::argument(
                    hir,
                    modifier,
                    invocation,
                    param,
                ) is Some && reads::mentions(
                    arguments::argument(hir, modifier, invocation, param)->0,
                    var,
                ) {
                let param = choose|param: VariableId| #[trigger]
                    tested.contains(param) && hir.variables@[param as int].kind
                        == VarKind::FunctionParam && arguments::argument(
                        hir,
                        modifier,
                        invocation,
                        param,
                    ) is Some && reads::mentions(
                        arguments::argument(hir, modifier, invocation, param)->0,
                        var,
                    );
                assert(vars::kind_of(hir, param) is FunctionParam);
                assert(authority::passes(hir, modifier, invocation, param, var));
                assert(passed.contains(var));
            }
            if passed.contains(var) {
                let param = choose|param: VariableId| #[trigger]
                    tested.contains(param) && vars::kind_of(hir, param) is FunctionParam
                        && authority::passes(hir, modifier, invocation, param, var);
                assert(hir.variables@[param as int].kind == VarKind::FunctionParam);
            }
        }
    }
}

/// A variable is an authority for a function exactly when it is state of an address type and a
/// guard in the function's own body compares the sender with it, or a guard in a modifier that a
/// contract of the linearization declares, or some invocation, whichever, by some function that
/// such a contract declares tests it.
pub proof fn law_authorities(hir: Hir, func: Function, var: VariableId)
    ensures
        authority::is_authority(hir, func, var) <==> {
            &&& hir.variables@[var as int].ty == TypeForm::Address
            &&& hir.variables@[var as int].kind == VarKind::State
            &&& {
                ||| func.body is Some && authority::block_guarding_vars(
                    hir,
                    func.body->0,
                ).contains(var)
                ||| func.contract is Some && exists|function: FunctionId|
                    #[trigger] declared_for(hir, func, function) && {
                        ||| guards_as_modifier(hir, function, var)
                        ||| exists|i: int|
                            0 <= i < hir.functions@[function as int].modifiers@.len()
                                && authority::invocation_authorities(
                                hir,
                                #[trigger] hir.functions@[function as int].modifiers@[i],
                            ).contains(var)
                    }
            }
        },
{
    if let Some(contract) = func.contract {
        let items = authority::contract_items_of(hir, contract);
        if exists|i: int|
            0 <= i < items.len() && authority::item_tests(hir, #[trigger] items[i], var) {
            let i = choose|i: int|
                0 <= i < items.len() && authority::item_tests(hir, #[trigger] items[i], var);
            let function = items[i]->Function_0;
            assert(items.contains(items[i]));
            laws::law_inherited_items(hir, contract, items[i]);
            assert(declared_for(hir, func, function));
            if authority::invocations_test(hir, hir.functions@[function as int], var) {
                let j = choose|j: int|
                    0 <= j < hir.functions@[function as int].modifiers@.len()
                        && authority::invocation_authorities(
                        hir,
                        #[trigger] hir.functions@[function as int].modifiers@[j],
                    ).contains(var);
                law_tested_by_invocation(hir, hir.functions@[function as int].modifiers@[j], var);
            }
        }
        assert forall|function: FunctionId| #[trigger]
            declared_for(hir, func, function) implies exists|i: int|
            0 <= i < items.len() && #[trigger] items[i] == ItemId::Function(function) by {
            laws::law_inherited_items(hir, contract, ItemId::Function(function));
        }
        if vars::address_state_var(hir, var) && exists|function: FunctionId| #[trigger]
            declared_for(hir, func, function) && (guards_as_modifier(hir, function, var)
                || authority::invocations_test(hir, hir.functions@[function as int], var)) {
            let function = choose|function: FunctionId| #[trigger]
                declared_for(hir, func, function) && (guards_as_modifier(hir, function, var)
                    || authority::invocations_test(hir, hir.functions@[function as int], var));
            let i = choose|i: int|
                0 <= i < items.len() && #[trigger] items[i] == ItemId::Function(function);
            assert(authority::item_tests(
                hir,
                authority::contract_items_of(hir, func.contract->0)[i],
                var,
            ));
        }
    }
}

/// A contract in the linearization of the function's contract declares the function.
pub open spec fn declared_for(hir: Hir, func: Function, function: FunctionId) -> bool {
    func.contract is Some && exists|i: int, j: int|
        0 <= i < bases_of(hir, func).len() && 0 <= j < hir.contracts@[bases_of(
            hir,
            func,
        )[i] as int].items@.len() && #[trigger] hir.contracts@[bases_of(
            hir,
            func,
        )[i] as int].items@[j] == ItemId::Function(function)
}

/// The linearization of the function's contract.
pub open spec fn bases_of(hir: Hir, func: Function) -> Seq<usize> {
    hir.contracts@[func.contract->0 as int].linearized_bases@
}

/// The function is a modifier with a guard, and its guards compare the sender with the variable.
pub open spec fn guards_as_modifier(hir: Hir, function: FunctionId, var: VariableId) -> bool {
    &&& hir.functions@[function as int].kind == FunctionKind::Modifier
    &&& hir.functions@[function as int].body is Some
    &&& gate::block_gates(hir, hir.functions@[function as int].body->0, true)
    &&& authority::block_guarding_vars(hir, hir.functions@[function as int].body->0).contains(var)
}

} // verus!
