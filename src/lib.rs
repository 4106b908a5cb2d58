//! The core of `jb`, a local background-job manager: the job store, the
//! per-job supervisor's decisions, the daemon's request handling, message
//! framing, and the small parsers and formatters around them.

use vstd::prelude::*;

pub mod clock;
pub mod daemon;
pub mod duration;
pub mod error;
pub mod format;
pub mod frame;
pub mod job;
pub mod laws;
pub mod paths;
pub mod store;
pub mod supervisor;
pub mod tail;
pub mod text;

verus! {

} // verus!
