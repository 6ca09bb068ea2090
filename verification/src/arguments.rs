//! The argument that an invocation passes for a parameter of a modifier.

use vstd::prelude::*;

use crate::hir::{CallArgs, Expr, Function, Hir, Modifier, NamedArg, VariableId};
use crate::resolve;

verus! {

/// The first position at which `param` stands among `params`.
pub open spec fn position(params: Seq<VariableId>, param: VariableId) -> Option<int>
    decreases params.len(),
{
    if params.len() == 0 {
        None
    } else {
        match position(params.drop_last(), param) {
            Some(i) => Some(i),
            None => if params.last() == param {
                Some(params.len() - 1)
            } else {
                None
            },
        }
    }
}

/// The value of the first argument called `name`.
pub open spec fn argument_called(args: Seq<NamedArg>, name: Seq<char>) -> Option<Expr>
    decreases args.len(),
{
    if args.len() == 0 {
        None
    } else {
        match argument_called(args.drop_last(), name) {
            Some(value) => Some(value),
            None => if args.last().name@ == name {
                Some(args.last().value)
            } else {
                None
            },
        }
    }
}

/// What the invocation passes for the parameter `param` of the modifier: the argument at the
/// parameter's position or, where arguments are named, the one with the parameter's name.
pub open spec fn argument(
    hir: Hir,
    modifier: Function,
    invocation: Modifier,
    param: VariableId,
) -> Option<Expr> {
    match position(modifier.parameters@, param) {
        None => None,
        Some(i) => match invocation.args {
            CallArgs::Unnamed(exprs) => if i < exprs@.len() {
                Some(exprs@[i])
            } else {
                None
            },
            CallArgs::Named(args) => match hir.variables@[param as int].name {
                Some(name) => argument_called(args@, name@),
                None => None,
            },
        },
    }
}

proof fn lemma_position_found(params: Seq<VariableId>, param: VariableId, i: int, count: int)
    requires
        0 <= i < count <= params.len(),
        params[i] == param,
        position(params.take(i), param) is None,
    ensures
        position(params.take(count), param) == Some(i),
    decreases count,
{
    if count == i + 1 {
        assert(params.take(count).drop_last() == params.take(i));
    } else {
        lemma_position_found(params, param, i, count - 1);
        assert(params.take(count).drop_last() == params.take(count - 1));
    }
}

proof fn lemma_argument_found(args: Seq<NamedArg>, name: Seq<char>, i: int, count: int)
    requires
        0 <= i < count <= args.len(),
        args[i].name@ == name,
        argument_called(args.take(i), name) is None,
    ensures
        argument_called(args.take(count), name) == Some(args[i].value),
    decreases count,
{
    if count == i + 1 {
        assert(args.take(count).drop_last() == args.take(i));
    } else {
        lemma_argument_found(args, name, i, count - 1);
        assert(args.take(count).drop_last() == args.take(count - 1));
    }
}

fn find_position(params: &Vec<VariableId>, param: VariableId) -> (found: Option<usize>)
    ensures
        match found {
            Some(i) => position(params@, param) == Some(i as int),
            None => position(params@, param) is None,
        },
{
    for i in 0..params.len()
        invariant
            position(params@.take(i as int), param) is None,
    {
        if params[i] == param {
            proof {
                lemma_position_found(params@, param, i as int, params@.len() as int);
                assert(params@.take(params@.len() as int) == params@);
            }
            return Some(i);
        }
        assert(params@.take(i + 1).drop_last() == params@.take(i as int));
    }
    assert(params@.take(params@.len() as int) == params@);
    None
}

fn find_argument<'a>(args: &'a Vec<NamedArg>, name: &String) -> (found: Option<&'a Expr>)
    ensures
        match found {
            Some(value) => argument_called(args@, name@) == Some(*value),
            None => argument_called(args@, name@) is None,
        },
{
    for i in 0..args.len()
        invariant
            argument_called(args@.take(i as int), name@) is None,
    {
        if args[i].name == *name {
            proof {
                lemma_argument_found(args@, name@, i as int, args@.len() as int);
                assert(args@.take(args@.len() as int) == args@);
            }
            return Some(&args[i].value);
        }
        assert(args@.take(i + 1).drop_last() == args@.take(i as int));
    }
    assert(args@.take(args@.len() as int) == args@);
    None
}

/// Resolves positional and named arguments to the parameter of the modifier.
pub fn invocation_arg_for_param<'a>(
    hir: &Hir,
    modifier: &Function,
    invocation: &'a Modifier,
    param: VariableId,
) -> (found: Option<&'a Expr>)
    requires
        param < hir.variables@.len(),
    ensures
        match found {
            Some(expr) => argument(*hir, *modifier, *invocation, param) == Some(*expr),
            None => argument(*hir, *modifier, *invocation, param) is None,
        },
{
    match find_position(&modifier.parameters, param) {
        None => None,
        Some(i) => match &invocation.args {
            CallArgs::Unnamed(exprs) => if i < exprs.len() {
                Some(&exprs[i])
            } else {
                None
            },
            CallArgs::Named(args) => match &hir.variable(param).name {
                Some(name) => find_argument(args, name),
                None => None,
            },
        },
    }
}

proof fn lemma_argument_called_in(args: Seq<NamedArg>, name: Seq<char>) -> (i: int)
    requires
        argument_called(args, name) is Some,
    ensures
        0 <= i < args.len(),
        argument_called(args, name) == Some(args[i].value),
    decreases args.len(),
{
    if argument_called(args.drop_last(), name) is Some {
        let i = lemma_argument_called_in(args.drop_last(), name);
        assert(args[i] == args.drop_last()[i]);
        i
    } else {
        args.len() - 1
    }
}

proof fn lemma_position_in(params: Seq<VariableId>, param: VariableId)
    ensures
        position(params, param) matches Some(i) ==> 0 <= i < params.len() && params[i] == param,
    decreases params.len(),
{
    if params.len() > 0 {
        lemma_position_in(params.drop_last(), param);
    }
}

/// What an invocation that resolves passes for a parameter resolves.
pub proof fn lemma_argument_resolves(
    hir: Hir,
    modifier: Function,
    invocation: Modifier,
    param: VariableId,
)
    requires
        resolve::modifier_resolves(hir, invocation),
    ensures
        argument(hir, modifier, invocation, param) matches Some(expr) ==> resolve::expr_resolves(
            hir,
            expr,
        ),
{
    if argument(hir, modifier, invocation, param) is Some {
        lemma_position_in(modifier.parameters@, param);
        let args = resolve::call_args(invocation.args);
        match invocation.args {
            CallArgs::Unnamed(_) => {
                let i = position(modifier.parameters@, param)->0;
                assert(resolve::expr_resolves(hir, args[i]));
            },
            CallArgs::Named(named) => {
                let name = hir.variables@[param as int].name->0;
                let i = lemma_argument_called_in(named@, name@);
                assert(resolve::expr_resolves(hir, args[i]));
            },
        }
    }
}

} // verus!
