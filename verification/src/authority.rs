//! The address state variables that act as authorities for access control.

use std::collections::HashSet;

use vstd::prelude::*;

use crate::arguments::{self, invocation_arg_for_param};
use crate::gate::{
    self, body_has_msg_sender_gate, condition_has_access_control_value, first_arg,
    msg_sender_if_gates_execution,
};
use crate::hir::{
    Block, ContractId, ExprKind, Function, FunctionKind, Hir, ItemId, Modifier, Stmt,
    VariableId,
};
use crate::names::is_require_or_assert;
use crate::reads::{self, collect_state_vars, elements, AccessControlReadCollector};
use crate::resolve;
use crate::vars::{self, is_address_state_var};
use crate::walk::{self, walk_stmt, Node, Traversal};

verus! {

broadcast use vstd::std_specs::hash::group_hash_axioms;

/// The node is a guard that compares `msg.sender` with `var`.
pub open spec fn node_guards_by(hir: Hir, node: Node, var: VariableId) -> bool {
    &&& gate::node_gates(hir, node, true)
    &&& gate::guard_condition(node) matches Some(cond)
    &&& reads::compares(cond, var)
}

/// One of the nodes is a guard that compares `msg.sender` with `var`.
pub open spec fn some_node_guards_by(hir: Hir, nodes: Seq<Node>, var: VariableId) -> bool {
    exists|i: int| 0 <= i < nodes.len() && node_guards_by(hir, #[trigger] nodes[i], var)
}

/// The variables that the guards among the nodes compare `msg.sender` with.
pub open spec fn guarding_vars(hir: Hir, nodes: Seq<Node>) -> Set<VariableId> {
    Set::new(|var: VariableId| some_node_guards_by(hir, nodes, var))
}

/// The variables that the guards of the block compare `msg.sender` with.
pub open spec fn block_guarding_vars(hir: Hir, block: Block) -> Set<VariableId> {
    guarding_vars(hir, walk::stmts_walk(Traversal::Guards, block.stmts@))
}

impl<'hir> AccessControlReadCollector<'hir> {
    /// Looks at one node.
    fn visit_node(&mut self, node: Node)
        requires
            old(self).well_formed(),
            resolve::node_deeply_resolves(*old(self).hir, node),
        ensures
            final(self).well_formed(),
            final(self).extends(
                *old(self),
                Set::new(|var: VariableId| node_guards_by(*old(self).hir, node, var)),
            ),
    {
        match node {
            Node::Stmt(stmt) => {
                if let Stmt::If(cond, then, other) = stmt {
                    proof {
                        resolve::lemma_if_condition_resolves(*self.hir, *stmt);
                    }
                    if msg_sender_if_gates_execution(self.hir, cond, then, other, true) {
                        self.collect_access_vars(cond);
                    }
                }
            },
            Node::Expr(expr) => {
                if let ExprKind::Call(callee, args, _) = &expr.kind {
                    if is_require_or_assert(callee) {
                        if let Some(cond) = first_arg(args) {
                            proof {
                                resolve::lemma_parts_resolve(*self.hir, *expr);
                            }
                            if condition_has_access_control_value(self.hir, cond, true) {
                                self.collect_access_vars(cond);
                            }
                        }
                    }
                }
            },
        }
    }

    /// Looks at a statement and at what below it may hold a guard. Only what truly gates
    /// execution contributes.
    pub fn visit_stmt(&mut self, stmt: &Stmt)
        requires
            old(self).well_formed(),
            resolve::node_deeply_resolves(*old(self).hir, Node::Stmt(stmt)),
        ensures
            final(self).well_formed(),
            final(self).extends(
                *old(self),
                guarding_vars(*old(self).hir, walk::stmt_walk(Traversal::Guards, stmt)),
            ),
    {
        let mut nodes: Vec<Node> = Vec::new();
        walk_stmt(Traversal::Guards, stmt, &mut nodes);
        let ghost before = *self;
        proof {
            assert(nodes@ == walk::stmt_walk(Traversal::Guards, stmt));
            resolve::lemma_stmt_nodes_resolve(*self.hir, Traversal::Guards, *stmt);
        }
        for i in 0..nodes.len()
            invariant
                self.well_formed(),
                resolve::nodes_deeply_resolve(*self.hir, nodes@),
                self.hir == before.hir,
                forall|var: VariableId| #[trigger]
                    self.state_vars@.contains(var) <==> before.state_vars@.contains(var) || (
                    vars::kind_of(*self.hir, var) is State && exists|j: int|
                        0 <= j < i && node_guards_by(*before.hir, #[trigger] nodes@[j], var)),
                forall|var: VariableId| #[trigger]
                    self.params@.contains(var) <==> before.params@.contains(var) || (vars::kind_of(
                        *self.hir,
                        var,
                    ) is FunctionParam && exists|j: int|
                        0 <= j < i && node_guards_by(*before.hir, #[trigger] nodes@[j], var)),
        {
            self.visit_node(nodes[i]);
        }
    }

    /// Looks at every statement of a block.
    fn visit_block(&mut self, block: &Block)
        requires
            old(self).well_formed(),
            resolve::stmts_resolve(*old(self).hir, block.stmts@),
        ensures
            final(self).well_formed(),
            final(self).extends(*old(self), block_guarding_vars(*old(self).hir, *block)),
    {
        let ghost before = *self;
        for i in 0..block.stmts.len()
            invariant
                self.well_formed(),
                resolve::stmts_resolve(*before.hir, block.stmts@),
                self.extends(
                    before,
                    guarding_vars(
                        *before.hir,
                        walk::stmts_walk(Traversal::Guards, block.stmts@.take(i as int)),
                    ),
                ),
        {
            proof {
                resolve::lemma_each_stmt_resolves(*before.hir, block.stmts@);
                walk::lemma_stmts_walk_step(Traversal::Guards, block.stmts@, i as int);
                lemma_guarding_vars_add(
                    *before.hir,
                    walk::stmts_walk(Traversal::Guards, block.stmts@.take(i as int)),
                    walk::stmt_walk(Traversal::Guards, &block.stmts@[i as int]),
                );
            }
            self.visit_stmt(&block.stmts[i]);
        }
        assert(block.stmts@.take(block.stmts@.len() as int) == block.stmts@);
    }
}

proof fn lemma_guarding_vars_add(hir: Hir, a: Seq<Node>, b: Seq<Node>)
    ensures
        guarding_vars(hir, a + b) == guarding_vars(hir, a).union(guarding_vars(hir, b)),
{
    assert forall|var: VariableId| #[trigger]
        guarding_vars(hir, a + b).contains(var) <==> guarding_vars(hir, a).union(
            guarding_vars(hir, b),
        ).contains(var) by {
        if some_node_guards_by(hir, a, var) {
            let j = choose|j: int| 0 <= j < a.len() && node_guards_by(hir, #[trigger] a[j], var);
            assert((a + b)[j] == a[j]);
        }
        if some_node_guards_by(hir, b, var) {
            let j = choose|j: int| 0 <= j < b.len() && node_guards_by(hir, #[trigger] b[j], var);
            assert((a + b)[a.len() + j] == b[j]);
        }
    }
    assert(guarding_vars(hir, a + b) =~= guarding_vars(hir, a).union(guarding_vars(hir, b)));
}

/// The address state variables among `vars`.
pub open spec fn address_state_part(hir: Hir, vars: Set<VariableId>) -> Set<VariableId> {
    vars.filter(|var: VariableId| vars::address_state_var(hir, var))
}

/// Adds the address state variables among `found` to `out`.
fn add_address_state_vars(
    hir: &Hir,
    found: &HashSet<VariableId>,
    out: &mut HashSet<VariableId>,
)
    requires
        forall|var: VariableId| #[trigger] found@.contains(var) ==> var < hir.variables@.len(),
    ensures
        final(out)@ == old(out)@.union(address_state_part(*hir, found@)),
{
    let ghost before = out@;
    let list = elements(found);
    for i in 0..list.len()
        invariant
            forall|var: VariableId| #[trigger] found@.contains(var) <==> list@.contains(var),
            forall|var: VariableId| #[trigger] found@.contains(var) ==> var < hir.variables@.len(),
            forall|var: VariableId| #[trigger]
                out@.contains(var) <==> before.contains(var) || (vars::address_state_var(*hir, var)
                    && exists|j: int| 0 <= j < i && #[trigger] list@[j] == var),
    {
        assert(list@.contains(list@[i as int]));
        assert(found@.contains(list@[i as int]));
        if is_address_state_var(hir, list[i]) {
            out.insert(list[i]);
        }
    }
}

/// Adds the authorities that the guards of a function body test.
pub fn collect_body_access_control_state_vars(
    hir: &Hir,
    body: &Block,
    out: &mut HashSet<VariableId>,
)
    requires
        resolve::stmts_resolve(*hir, body.stmts@),
    ensures
        final(out)@ == old(out)@.union(
            address_state_part(*hir, block_guarding_vars(*hir, *body)),
        ),
{
    let mut collector = AccessControlReadCollector::new(hir);
    collector.visit_block(body);
    add_address_state_vars(hir, &collector.state_vars, out);
}

/// The invocation passes an argument for `param` that mentions `var`.
pub open spec fn passes(
    hir: Hir,
    modifier: Function,
    invocation: Modifier,
    param: VariableId,
    var: VariableId,
) -> bool {
    arguments::argument(hir, modifier, invocation, param) matches Some(arg) && reads::mentions(
        arg,
        var,
    )
}

/// The variables that the invocation passes for those of `params` that are parameters.
pub open spec fn passed_vars(
    hir: Hir,
    modifier: Function,
    invocation: Modifier,
    params: Set<VariableId>,
) -> Set<VariableId> {
    Set::new(
        |var: VariableId|
            exists|param: VariableId| #[trigger]
                params.contains(param) && vars::kind_of(hir, param) is FunctionParam && passes(
                    hir,
                    modifier,
                    invocation,
                    param,
                    var,
                ),
    )
}

/// The authorities that an invocation of a guarding modifier tests: the address state
/// variables that its guards test, and those passed for the parameters that its guards test.
pub open spec fn invocation_authorities(hir: Hir, invocation: Modifier) -> Set<VariableId> {
    if gate::invocation_gates(hir, invocation.id) {
        let modifier = hir.functions@[invocation.id->Function_0 as int];
        let tested = block_guarding_vars(hir, modifier.body->0);
        address_state_part(hir, tested.union(passed_vars(hir, modifier, invocation, tested)))
    } else {
        Set::empty()
    }
}

/// Modifier parameters may stand for authorities, which each invocation passes.
pub fn is_access_control_modifier(hir: &Hir, body: &Block) -> (result: bool)
    requires
        resolve::stmts_resolve(*hir, body.stmts@),
    ensures
        result == gate::block_gates(*hir, *body, true),
{
    body_has_msg_sender_gate(hir, body, true)
}

/// Adds the authorities that an invocation tests. For `modifier only(address who)`, the
/// invocation `only(admin)` makes `admin` an authority.
pub fn collect_invocation_access_control_vars(
    hir: &Hir,
    invocation: &Modifier,
    out: &mut HashSet<VariableId>,
)
    requires
        hir.well_formed(),
        resolve::modifier_resolves(*hir, *invocation),
    ensures
        final(out)@ == old(out)@.union(invocation_authorities(*hir, *invocation)),
{
    let ghost start = out@;
    if let ItemId::Function(function) = invocation.id {
        let modifier = hir.function(function);
        assert(resolve::function_resolves(*hir, *modifier));
        if let Some(body) = &modifier.body {
            if is_access_control_modifier(hir, body) {
                let mut collector = AccessControlReadCollector::new(hir);
                collector.visit_block(body);
                add_address_state_vars(hir, &collector.state_vars, out);

                let ghost tested = block_guarding_vars(*hir, *body);
                let ghost before = out@;
                let params = elements(&collector.params);
                for i in 0..params.len()
                    invariant
                        resolve::modifier_resolves(*hir, *invocation),
                        collector.well_formed(),
                        collector.hir == hir,
                        forall|var: VariableId| #[trigger]
                            collector.params@.contains(var) <==> params@.contains(var),
                        forall|var: VariableId| #[trigger]
                            out@.contains(var) <==> before.contains(var) || (
                            vars::address_state_var(*hir, var) && exists|j: int|
                                0 <= j < i && passes(
                                    *hir,
                                    *modifier,
                                    *invocation,
                                    #[trigger] params@[j],
                                    var,
                                )),
                {
                    let param = params[i];
                    assert(params@.contains(param));
                    assert(collector.params@.contains(param));
                    if let Some(arg) = invocation_arg_for_param(hir, modifier, invocation, param) {
                        proof {
                            arguments::lemma_argument_resolves(
                                *hir,
                                *modifier,
                                *invocation,
                                param,
                            );
                            reads::lemma_mentioned_in_table(*hir, *arg);
                        }
                        let mut arg_vars: HashSet<VariableId> = HashSet::new();
                        collect_state_vars(arg, &mut arg_vars);
                        assert(arg_vars@ == reads::mentioned_vars(*arg));
                        add_address_state_vars(hir, &arg_vars, out);
                    }
                }
                proof {
                    let passed = passed_vars(*hir, *modifier, *invocation, tested);
                    assert forall|var: VariableId| #[trigger]
                        out@.contains(var) <==> before.contains(var) || (vars::address_state_var(
                            *hir,
                            var,
                        ) && passed.contains(var)) by {
                        if passed.contains(var) {
                            let param = choose|param: VariableId| #[trigger]
                                tested.contains(param) && vars::kind_of(
                                    *hir,
                                    param,
                                ) is FunctionParam && passes(
                                    *hir,
                                    *modifier,
                                    *invocation,
                                    param,
                                    var,
                                );
                            assert(collector.params@.contains(param));
                            assert(params@.contains(param));
                        }
                        if exists|j: int|
                            0 <= j < params@.len() && passes(
                                *hir,
                                *modifier,
                                *invocation,
                                #[trigger] params@[j],
                                var,
                            ) {
                            let j = choose|j: int|
                                0 <= j < params@.len() && passes(
                                    *hir,
                                    *modifier,
                                    *invocation,
                                    #[trigger] params@[j],
                                    var,
                                );
                            assert(params@.contains(params@[j]));
                            assert(collector.params@.contains(params@[j]));
                            assert(tested.contains(params@[j]));
                        }
                    }
                }
            }
        }
    }
    assert(out@ =~= start.union(invocation_authorities(*hir, *invocation)));
}

/// The items that the contracts declare, in order.
pub open spec fn items_of(hir: Hir, contracts: Seq<ContractId>) -> Seq<ItemId>
    decreases contracts.len(),
{
    if contracts.len() == 0 {
        seq![]
    } else {
        items_of(hir, contracts.drop_last()) + hir.contracts@[contracts.last() as int].items@
    }
}

/// The items of a contract, inherited ones included.
pub open spec fn contract_items_of(hir: Hir, contract: ContractId) -> Seq<ItemId> {
    items_of(hir, hir.contracts@[contract as int].linearized_bases@)
}

/// The function is a guarding modifier whose guards test the address state variable `var`.
pub open spec fn modifier_tests(hir: Hir, modifier: Function, var: VariableId) -> bool {
    &&& modifier.kind is Modifier
    &&& modifier.body matches Some(body)
    &&& gate::block_gates(hir, body, true)
    &&& address_state_part(hir, block_guarding_vars(hir, body)).contains(var)
}

/// One of the modifiers that the function invokes tests `var` there.
pub open spec fn invocations_test(hir: Hir, func: Function, var: VariableId) -> bool {
    exists|i: int|
        0 <= i < func.modifiers@.len() && invocation_authorities(
            hir,
            #[trigger] func.modifiers@[i],
        ).contains(var)
}

/// The item is a function that tests `var`, as a modifier or by invoking one.
pub open spec fn item_tests(hir: Hir, item: ItemId, var: VariableId) -> bool {
    item matches ItemId::Function(function) && (modifier_tests(
        hir,
        hir.functions@[function as int],
        var,
    ) || invocations_test(hir, hir.functions@[function as int], var))
}

/// `var` is an authority for the function: a guard in its own body tests it, or a modifier
/// that its contract has or that a function of its contract invokes.
pub open spec fn is_authority(hir: Hir, func: Function, var: VariableId) -> bool {
    ||| func.body matches Some(body) && address_state_part(
        hir,
        block_guarding_vars(hir, body),
    ).contains(var)
    ||| func.contract matches Some(contract) && exists|i: int|
        0 <= i < contract_items_of(hir, contract).len() && item_tests(
            hir,
            #[trigger] contract_items_of(hir, contract)[i],
            var,
        )
}

/// The authorities for the function.
pub open spec fn authorities(hir: Hir, func: Function) -> Set<VariableId> {
    Set::new(|var: VariableId| is_authority(hir, func, var))
}

/// The items of a contract, inherited ones included.
pub fn contract_items(hir: &Hir, contract: ContractId) -> (items: Vec<ItemId>)
    requires
        hir.well_formed(),
        contract < hir.contracts@.len(),
    ensures
        items@ == contract_items_of(*hir, contract),
        forall|i: int|
            0 <= i < items@.len() ==> (#[trigger] items@[i] matches ItemId::Function(function)
                ==> function < hir.functions@.len()),
{
    let mut items: Vec<ItemId> = Vec::new();
    let bases = &hir.contracts[contract].linearized_bases;
    assert(resolve::contract_resolves(*hir, hir.contracts@[contract as int]));
    for i in 0..bases.len()
        invariant
            hir.well_formed(),
            forall|j: int| 0 <= j < bases@.len() ==> #[trigger] bases@[j] < hir.contracts@.len(),
            items@ == items_of(*hir, bases@.take(i as int)),
            forall|j: int|
                0 <= j < items@.len() ==> (#[trigger] items@[j] matches ItemId::Function(function)
                    ==> function < hir.functions@.len()),
    {
        let declared = &hir.contracts[bases[i]].items;
        assert(resolve::contract_resolves(*hir, hir.contracts@[bases@[i as int] as int]));
        let ghost before = items@;
        for j in 0..declared.len()
            invariant
                items@ == before + declared@.take(j as int),
                forall|k: int|
                    0 <= k < declared@.len() ==> (#[trigger] declared@[k] matches ItemId::Function(
                        function,
                    ) ==> function < hir.functions@.len()),
                forall|k: int|
                    0 <= k < items@.len() ==> (#[trigger] items@[k] matches ItemId::Function(
                        function,
                    ) ==> function < hir.functions@.len()),
        {
            items.push(declared[j]);
        }
        assert(declared@.take(declared@.len() as int) == declared@);
        assert(bases@.take(i + 1).drop_last() == bases@.take(i as int));
    }
    assert(bases@.take(bases@.len() as int) == bases@);
    items
}

/// Adds what a function tests, as a modifier or by invoking one.
fn collect_item_access_control_vars(
    hir: &Hir,
    item: &Function,
    out: &mut HashSet<VariableId>,
)
    requires
        hir.well_formed(),
        resolve::function_resolves(*hir, *item),
    ensures
        forall|var: VariableId| #[trigger]
            final(out)@.contains(var) <==> old(out)@.contains(var) || modifier_tests(
                *hir,
                *item,
                var,
            ) || invocations_test(*hir, *item, var),
{
    if item.kind == FunctionKind::Modifier {
        if let Some(body) = &item.body {
            if is_access_control_modifier(hir, body) {
                let mut collector = AccessControlReadCollector::new(hir);
                collector.visit_block(body);
                add_address_state_vars(hir, &collector.state_vars, out);
            }
        }
    }
    let ghost before = out@;
    for i in 0..item.modifiers.len()
        invariant
            hir.well_formed(),
            resolve::function_resolves(*hir, *item),
            forall|var: VariableId| #[trigger]
                out@.contains(var) <==> before.contains(var) || exists|j: int|
                    0 <= j < i && invocation_authorities(
                        *hir,
                        #[trigger] item.modifiers@[j],
                    ).contains(var),
    {
        assert(resolve::modifier_resolves(*hir, item.modifiers@[i as int]));
        collect_invocation_access_control_vars(hir, &item.modifiers[i], out);
    }
}

/// Collects the address state variables that act as authorities for the function: those of
/// its own guards, those that the modifiers of its contract test, and those passed to the
/// modifiers that functions of its contract invoke.
pub fn access_control_state_vars(hir: &Hir, func: &Function) -> (found: HashSet<VariableId>)
    requires
        hir.well_formed(),
        resolve::function_resolves(*hir, *func),
    ensures
        found@ == authorities(*hir, *func),
{
    let mut found: HashSet<VariableId> = HashSet::new();
    if let Some(body) = &func.body {
        collect_body_access_control_state_vars(hir, body, &mut found);
    }
    if let Some(contract) = func.contract {
        let ghost before = found@;
        let items = contract_items(hir, contract);
        for i in 0..items.len()
            invariant
                hir.well_formed(),
                forall|j: int|
                    0 <= j < items@.len() ==> (#[trigger] items@[j] matches ItemId::Function(
                        function,
                    ) ==> function < hir.functions@.len()),
                forall|var: VariableId| #[trigger]
                    found@.contains(var) <==> before.contains(var) || exists|j: int|
                        0 <= j < i && item_tests(*hir, #[trigger] items@[j], var),
        {
            if let ItemId::Function(function) = items[i] {
                let item = hir.function(function);
                assert(resolve::function_resolves(*hir, *item));
                collect_item_access_control_vars(hir, item, &mut found);
            }
        }
    }
    found
}

} // verus!
