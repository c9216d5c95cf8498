//! The build pipeline's stage machine.
//!
//! A build runs through a fixed linear chain of stages; any step's
//! failure moves straight to the terminal `Failed` stage, nothing is
//! retried, and the two terminal stages never move again.

use vstd::prelude::*;

verus! {

/// The stages of one build, in order.
#[derive(Clone, Copy, PartialEq, Eq, Structural)]
pub enum Stage {
    Idle,
    MetadataLoaded,
    VersionStamped,
    MetadataReloaded,
    RulesLoaded,
    Planned,
    Executed,
    Packaged,
    SigningAttempted,
    Done,
    Failed,
}

/// The linear successor of each stage.
pub open spec fn next_of(s: Stage) -> Stage {
    match s {
        Stage::Idle => Stage::MetadataLoaded,
        Stage::MetadataLoaded => Stage::VersionStamped,
        Stage::VersionStamped => Stage::MetadataReloaded,
        Stage::MetadataReloaded => Stage::RulesLoaded,
        Stage::RulesLoaded => Stage::Planned,
        Stage::Planned => Stage::Executed,
        Stage::Executed => Stage::Packaged,
        Stage::Packaged => Stage::SigningAttempted,
        Stage::SigningAttempted => Stage::Done,
        Stage::Done => Stage::Done,
        Stage::Failed => Stage::Failed,
    }
}

/// Where one step's outcome moves the pipeline: terminal stages stay put,
/// a failed step moves to `Failed`, a successful one to the next stage.
pub open spec fn advance_spec(s: Stage, step_ok: bool) -> Stage {
    if s is Done || s is Failed {
        s
    } else if !step_ok {
        Stage::Failed
    } else {
        next_of(s)
    }
}

/// Advance the pipeline by one step's outcome.
pub fn advance(s: Stage, step_ok: bool) -> (r: Stage)
    ensures
        r == advance_spec(s, step_ok),
{
    match s {
        Stage::Done => Stage::Done,
        Stage::Failed => Stage::Failed,
        _ => {
            if !step_ok {
                Stage::Failed
            } else {
                match s {
                    Stage::Idle => Stage::MetadataLoaded,
                    Stage::MetadataLoaded => Stage::VersionStamped,
                    Stage::VersionStamped => Stage::MetadataReloaded,
                    Stage::MetadataReloaded => Stage::RulesLoaded,
                    Stage::RulesLoaded => Stage::Planned,
                    Stage::Planned => Stage::Executed,
                    Stage::Executed => Stage::Packaged,
                    Stage::Packaged => Stage::SigningAttempted,
                    Stage::SigningAttempted => Stage::Done,
                    Stage::Done => Stage::Done,
                    Stage::Failed => Stage::Failed,
                }
            }
        },
    }
}

} // verus!
