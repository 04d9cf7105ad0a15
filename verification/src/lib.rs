//! A lockfile for runtime behavior: the verified core.

pub mod behavior;
pub mod calls;
pub mod enforce;
pub mod gate;
pub mod json;
pub mod lines;
pub mod lock;
pub mod normalize;
pub mod path;
pub mod processes;
pub mod status;
pub mod strace;
pub mod text;
pub mod trace;
pub mod trees;

pub use crate::behavior::Behavior;
pub use crate::gate::GateResult;
pub use crate::lock::BehaviorCounts;
pub use crate::lock::BehaviorDiff;
pub use crate::lock::BehaviorLock;
pub use crate::normalize::NormalizeContext;
