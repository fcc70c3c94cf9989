//! Build-time metadata injection engine.
//!
//! During a project's build step this library computes a set of named
//! constant values (platform strings, environment variables, the build
//! timestamp, caller-supplied literals and templates), resolves
//! inter-constant references deterministically, decides which external
//! signals should force the next regeneration, and serializes the resolved
//! constants into a source fragment that the final build embeds.

use vstd::prelude::*;

pub mod builder;
pub mod build_timing;
pub mod constant_set;
pub mod date_time;
pub mod env;
pub mod err;
pub mod str_table;
pub mod template;
pub mod text;

pub use build_timing::BuildTiming;
pub use builder::BuildPattern;
pub use builder::BuildTimingBuilder;
pub use constant_set::ConstType;
pub use constant_set::ConstVal;
pub use constant_set::ConstantHook;
pub use constant_set::ConstantSet;
pub use date_time::DateTime;
pub use env::BuildConstVal;
pub use env::BuildTimingConst;
pub use err::BtResult;
pub use err::BuildTimingError;

verus! {

/// Attribute line placed above each emitted constant so that lints of the
/// host project do not fire on the embedded fragment.
pub const CARGO_CLIPPY_ALLOW_ALL: &'static str =
    "#[allow(clippy::all, clippy::pedantic, clippy::restriction, clippy::nursery)]";

/// Human-facing rendering, implemented by the types whose values are shown
/// to the user of the host build tool.
pub trait Format {
    fn human_format(&self) -> String;
}

} // verus!
