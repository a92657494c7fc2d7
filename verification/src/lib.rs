use vstd::prelude::*;

pub mod text;
pub mod terminal;
pub mod model;
pub mod source;
pub mod state;
pub mod config;
pub mod cli;
pub mod platform;
pub mod ui;
pub mod normalize;
pub mod monitor;
pub mod run;

verus! {

/// The machine-output schema major version produced by this build.
pub const SCHEMA_VERSION: u32 = 1;

} // verus!
