//! A pipeline-planning library: a tolerant parser that recovers a command
//! pipeline ("plan") from raw model output, a validator that turns a plan into
//! a submission-ready job envelope, a codec and session logic for the
//! length-prefixed wire protocol spoken to a remote job queue, and the
//! decision logic of a local pipeline executor.

use vstd::prelude::*;

pub mod cli;
pub mod client;
pub mod executor;
pub mod input;
pub mod job;
pub mod json;
pub mod json_codec;
pub mod json_parse;
pub mod json_print;
pub mod plan;
pub mod planner;
pub mod registry;
pub mod repl;
pub mod resp;
pub mod plan_parse;
pub mod text;

verus! {

/// The default per-task timeout, in seconds, used wherever a plan omits one.
pub const DEFAULT_TIMEOUT_SECS: u32 = 300;

} // verus!
