//! The lint itself.

use vstd::prelude::*;

use crate::analyzer::{self, Analysis, Analyzer, Scope};
use crate::authority::{self, access_control_state_vars};
use crate::events::{self, contains_event, modifiers_contain_event};
use crate::gate::{self, is_protected};
use crate::hir::{
    Block, Function, FunctionKind, Hir, Span, StateMutability, VariableId, Visibility,
};
use crate::report;
use crate::resolve;

verus! {

/// The identifier of the lint.
pub const ID: &'static str = "missing-events-access-control";

/// How grave a finding is.
pub const SEVERITY: &'static str = "Low";

/// What a finding says.
pub const DESCRIPTION: &'static str = "access control state change should emit an event";

/// The function is an ordinary one that anyone can call and that can change state.
pub open spec fn entry_point(func: Function) -> bool {
    &&& func.kind is Function
    &&& func.visibility is Public || func.visibility is External
    &&& !(func.state_mutability is Pure) && !(func.state_mutability is View)
}

/// What the analysis of the function is about: its authorities, and its own parameters as
/// what the caller controls.
pub open spec fn scope_of(hir: Hir, func: Function) -> Scope {
    Scope {
        hir,
        authorities: authority::authorities(hir, func),
        entry_params: func.parameters@,
    }
}

/// The analysis of the function: its body, then the modifiers that it invokes.
pub open spec fn analysis_of(hir: Hir, func: Function, body: Block) -> Analysis {
    report::whole(scope_of(hir, func), body, func.modifiers@)
}

/// The function emits an event, in its body or in a modifier that it invokes.
pub open spec fn emits(hir: Hir, func: Function) -> bool {
    (func.body matches Some(body) && events::block_emits(body)) || events::modifiers_emit(
        hir,
        func,
    )
}

/// The function is one that the lint looks into: a protected entry point with a body that
/// emits no event.
pub open spec fn in_question(hir: Hir, func: Function) -> bool {
    entry_point(func) && gate::protected(hir, func) && func.body is Some && !emits(hir, func)
}

/// The places to report: none for a function that is not in question, else the tainted writes
/// to its authorities.
pub open spec fn findings_of(hir: Hir, func: Function) -> Seq<Span> {
    if in_question(hir, func) {
        analysis_of(hir, func, func.body->0).findings
    } else {
        seq![]
    }
}

/// The lint looks only into ordinary external and public functions that can change state after
/// deployment.
pub fn is_entry_point(func: &Function) -> (result: bool)
    ensures
        result == entry_point(*func),
{
    if func.kind == FunctionKind::Constructor {
        return false;
    }
    if func.state_mutability == StateMutability::Pure || func.state_mutability
        == StateMutability::View {
        return false;
    }
    func.kind == FunctionKind::Function && (func.visibility == Visibility::Public
        || func.visibility == Visibility::External)
}

/// The lint on protected functions that change access-control state without emitting an event.
pub struct MissingEventsAccessControl;

impl MissingEventsAccessControl {
    /// The places in the function to report.
    pub fn check_function(&mut self, hir: &Hir, func: &Function) -> (findings: Vec<Span>)
        requires
            hir.well_formed(),
            resolve::function_resolves(*hir, *func),
        ensures
            findings@ == findings_of(*hir, *func),
    {
        if !is_entry_point(func) || !is_protected(hir, func) {
            return Vec::new();
        }
        match &func.body {
            None => Vec::new(),
            Some(body) => {
                if contains_event(body) || modifiers_contain_event(hir, func) {
                    return Vec::new();
                }
                let access_control_vars = access_control_state_vars(hir, func);
                if access_control_vars.is_empty() {
                    proof {
                        report::lemma_whole_sound(
                            scope_of(*hir, *func),
                            *body,
                            func.modifiers@,
                        );
                        let st = analysis_of(*hir, *func, *body);
                        assert(st.emitted_vars == Set::<VariableId>::empty());
                        assert(st.findings == Seq::<Span>::empty());
                    }
                    return Vec::new();
                }
                let mut analyzer = Analyzer::new(hir, &access_control_vars, &func.parameters);
                analyzer.visit_block(body);
                for i in 0..func.modifiers.len()
                    invariant
                        hir.well_formed(),
                        resolve::function_resolves(*hir, *func),
                        analyzer.hir == hir,
                        analyzer.scope() == scope_of(*hir, *func),
                        analyzer@ == analyzer::run_invocations(
                            scope_of(*hir, *func),
                            analyzer::run_block(
                                scope_of(*hir, *func),
                                Analysis::empty(),
                                *body,
                            ),
                            func.modifiers@.take(i as int),
                        ),
                {
                    assert(func.modifiers@.take(i + 1).drop_last() == func.modifiers@.take(
                        i as int,
                    ));
                    assert(resolve::modifier_resolves(*hir, func.modifiers@[i as int]));
                    analyzer.visit_modifier_invocation(&func.modifiers[i]);
                }
                assert(func.modifiers@.take(func.modifiers@.len() as int) == func.modifiers@);
                analyzer.findings
            },
        }
    }
}

} // verus!
