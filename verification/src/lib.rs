//! The `missing-events-access-control` lint: protected functions that change access-control
//! state without emitting an event.

pub mod analyzer;
pub mod arguments;
pub mod authority;
pub mod authority_laws;
pub mod condition_laws;
pub mod events;
pub mod gate;
pub mod guard_laws;
pub mod hir;
pub mod laws;
pub mod lint;
pub mod lint_laws;
pub mod names;
pub mod order_laws;
pub mod parts;
pub mod reads;
pub mod report;
pub mod resolve;
pub mod sender;
pub mod taint_laws;
pub mod vars;
pub mod walk;
pub mod writes;
