//! The tool's component facades and run summaries.
//!
//! Each component owns its configuration; the interactive prompts, the
//! directory walks and the external processes live in the surrounding
//! binary.  The verified side also owns the bookkeeping of a batch run
//! over many videos.

use vstd::prelude::*;

use crate::config::Config;

verus! {

/// How one video's pipeline run ended.
#[derive(Debug, Clone, Copy, PartialEq, Eq, Structural)]
pub enum VideoOutcome {
    /// The contact sheet was written.
    Succeeded,
    /// The pipeline failed for this video.
    Failed,
    /// The sheet already existed; nothing was done.
    Skipped,
}

/// Aggregate counters over one batch run of videos.
#[derive(Debug, Clone, Copy, PartialEq, Eq, Structural)]
pub struct GenerationResult {
    pub total_videos: usize,
    pub successful: usize,
    pub failed: usize,
    pub skipped: usize,
}

/// How many of the first `n` outcomes equal `what`.
pub open spec fn spec_count_outcome(outcomes: Seq<VideoOutcome>, what: VideoOutcome, n: int) -> int
    decreases n,
{
    if n <= 0 {
        0int
    } else {
        spec_count_outcome(outcomes, what, n - 1) + (if outcomes[n - 1] == what {
            1int
        } else {
            0int
        })
    }
}

/// Tallies a batch run: one counter per outcome kind, and the total.
pub fn summarize_generation(outcomes: &Vec<VideoOutcome>) -> (r: GenerationResult)
    ensures
        r.total_videos == outcomes@.len(),
        r.successful == spec_count_outcome(outcomes@, VideoOutcome::Succeeded, outcomes@.len() as int),
        r.failed == spec_count_outcome(outcomes@, VideoOutcome::Failed, outcomes@.len() as int),
        r.skipped == spec_count_outcome(outcomes@, VideoOutcome::Skipped, outcomes@.len() as int),
        r.successful + r.failed + r.skipped == r.total_videos,
{
    let mut successful: usize = 0;
    let mut failed: usize = 0;
    let mut skipped: usize = 0;
    let mut i: usize = 0;
    while i < outcomes.len()
        invariant
            i <= outcomes@.len(),
            successful as int == spec_count_outcome(outcomes@, VideoOutcome::Succeeded, i as int),
            failed as int == spec_count_outcome(outcomes@, VideoOutcome::Failed, i as int),
            skipped as int == spec_count_outcome(outcomes@, VideoOutcome::Skipped, i as int),
            successful + failed + skipped == i,
        decreases outcomes.len() - i,
    {
        match outcomes[i] {
            VideoOutcome::Succeeded => {
                successful += 1;
            },
            VideoOutcome::Failed => {
                failed += 1;
            },
            VideoOutcome::Skipped => {
                skipped += 1;
            },
        }
        i += 1;
    }
    GenerationResult { total_videos: i, successful, failed, skipped }
}

/// The contact-sheet run: the configuration it works under.
pub struct ContactSheetGenerator {
    pub config: Config,
}

impl ContactSheetGenerator {
    /// Wraps the configuration for one run.
    pub fn new(config: Config) -> (r: ContactSheetGenerator)
        ensures
            r.config == config,
    {
        ContactSheetGenerator { config }
    }
}

/// The categorize-by-type run: the configuration it works under.
pub struct AutoMoveByType {
    pub config: Config,
}

impl AutoMoveByType {
    /// Wraps the configuration for one run.
    pub fn new(config: Config) -> (r: AutoMoveByType)
        ensures
            r.config == config,
    {
        AutoMoveByType { config }
    }
}

} // verus!
