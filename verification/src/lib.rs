//! Reconciliation core of a component-based virtual-DOM UI framework.
//!
//! The crate owns the arena that allocates and recycles element identities,
//! tracks per-component scope state, and tears down component subtrees in a
//! drop-safe order. Around that core it also provides the template-context
//! bookkeeping used when a markup body is re-realised against a template, a
//! small slot-optimised vector used by the reload machinery, and the naming
//! rule for pre-compressed asset files.

pub mod arena;
pub mod assets;
pub mod context;
pub mod reload_stack;
pub mod rsx;
pub mod scopes;
pub mod slot_table;
pub mod teardown;
pub mod vdom;

use vstd::prelude::*;

verus! {

} // verus!
