//! Emitted events.

use vstd::prelude::*;

use crate::hir::{Block, Function, Hir, ItemId, Stmt};
use crate::resolve;
use crate::walk::{self, walk_stmt, Node, Traversal};

verus! {

/// The node emits an event.
pub open spec fn node_emits(node: Node) -> bool {
    node matches Node::Stmt(stmt) && stmt is Emit
}

/// One of the nodes emits an event.
pub open spec fn some_node_emits(nodes: Seq<Node>) -> bool {
    exists|i: int| 0 <= i < nodes.len() && node_emits(#[trigger] nodes[i])
}

/// There is an `emit` statement in the block, at any depth.
pub open spec fn block_emits(block: Block) -> bool {
    some_node_emits(walk::stmts_walk(Traversal::Everything, block.stmts@))
}

/// The modifier that the invocation names has a body that emits an event.
pub open spec fn invocation_emits(hir: Hir, id: ItemId) -> bool {
    match id {
        ItemId::Function(function) => match hir.functions@[function as int].body {
            Some(body) => block_emits(body),
            None => false,
        },
        _ => false,
    }
}

/// One of the modifiers that the function invokes emits an event.
pub open spec fn modifiers_emit(hir: Hir, func: Function) -> bool {
    exists|i: int|
        0 <= i < func.modifiers@.len() && invocation_emits(hir, (#[trigger] func.modifiers@[i]).id)
}

/// Finds whether a body emits an event.
pub struct EventVisitor {
    pub found: bool,
}

impl EventVisitor {
    /// Looks at a statement and all below it. Any `emit` is enough: neither the event nor its
    /// arguments are looked at.
    pub fn visit_stmt(&mut self, stmt: &Stmt)
        ensures
            final(self).found == (old(self).found || some_node_emits(
                walk::stmt_walk(Traversal::Everything, stmt),
            )),
    {
        let mut nodes: Vec<Node> = Vec::new();
        walk_stmt(Traversal::Everything, stmt, &mut nodes);
        let ghost before = *self;
        assert(nodes@ == walk::stmt_walk(Traversal::Everything, stmt));
        for i in 0..nodes.len()
            invariant
                self.found == (before.found || exists|j: int|
                    0 <= j < i && node_emits(#[trigger] nodes@[j])),
        {
            if let Node::Stmt(part) = nodes[i] {
                if let Stmt::Emit(_) = part {
                    self.found = true;
                }
            }
        }
    }
}

/// Scans a body for an `emit` statement, nested ones among them.
pub fn contains_event(body: &Block) -> (found: bool)
    ensures
        found == block_emits(*body),
{
    let mut visitor = EventVisitor { found: false };
    for i in 0..body.stmts.len()
        invariant
            !visitor.found,
            !some_node_emits(
                walk::stmts_walk(Traversal::Everything, body.stmts@.take(i as int)),
            ),
    {
        let ghost seen = walk::stmts_walk(Traversal::Everything, body.stmts@.take(i as int));
        let ghost next = walk::stmt_walk(Traversal::Everything, &body.stmts@[i as int]);
        proof {
            walk::lemma_stmts_walk_step(Traversal::Everything, body.stmts@, i as int);
        }
        visitor.visit_stmt(&body.stmts[i]);
        if visitor.found {
            proof {
                walk::lemma_stmts_walk_prefix(Traversal::Everything, body.stmts@, i + 1);
                let j = choose|j: int| 0 <= j < next.len() && node_emits(#[trigger] next[j]);
                assert((seen + next)[seen.len() + j] == next[j]);
                let all = walk::stmts_walk(Traversal::Everything, body.stmts@);
                assert(all[seen.len() + j] == next[j]);
            }
            return true;
        }
    }
    assert(body.stmts@.take(body.stmts@.len() as int) == body.stmts@);
    false
}

/// Events emitted from invoked modifiers count as emitted by the function.
pub fn modifiers_contain_event(hir: &Hir, func: &Function) -> (found: bool)
    requires
        resolve::function_resolves(*hir, *func),
    ensures
        found == modifiers_emit(*hir, *func),
{
    for i in 0..func.modifiers.len()
        invariant
            resolve::function_resolves(*hir, *func),
            forall|j: int|
                0 <= j < i ==> !invocation_emits(*hir, (#[trigger] func.modifiers@[j]).id),
    {
        assert(resolve::modifier_resolves(*hir, func.modifiers@[i as int]));
        if let ItemId::Function(function) = func.modifiers[i].id {
            if let Some(body) = &hir.function(function).body {
                if contains_event(body) {
                    return true;
                }
            }
        }
    }
    false
}

} // verus!
