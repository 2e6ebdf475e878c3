//! Verified core logic of the Eleutheria Telos desktop toolkit.
use vstd::prelude::*;

pub mod clipboard;
pub mod codec;
pub mod event_bus;
pub mod i18n;
pub mod json;
pub mod mcp;
pub mod media;
pub mod models;
pub mod notes;
pub mod paths;
pub mod plugins;
pub mod quick_actions;
pub mod server;
pub mod tags;
pub mod text;
pub mod translate;

verus! {
} // verus!
