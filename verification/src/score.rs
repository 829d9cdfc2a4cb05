//! The score model: a total order over (quality, steps) pairs used both to
//! rank finished rotations and to drive pruning.

use vstd::prelude::*;

use ffxiv_crafting::Status;

use crate::engine::progress_of;
use crate::engine::quality_of;
use crate::engine::read_progress;
use crate::engine::read_quality;
use crate::engine::read_step;
use crate::engine::read_target_progress;
use crate::engine::read_target_quality;
use crate::engine::step_of;
use crate::engine::target_progress_of;
use crate::engine::target_quality_of;

verus! {

/// The rank of a search node: the quality the craft would finish with and
/// the number of steps taken to get there.
#[derive(Clone, Copy, Debug, PartialEq, Eq, Structural)]
pub struct Score {
    pub quality: i32,
    pub steps: i32,
}

/// The quality a state is worth: its quality capped at the recipe's target
/// quality, but only once its progress meets the recipe's target progress;
/// before that, zero.
pub open spec fn state_quality(s: Status) -> i32 {
    if progress_of(s) >= target_progress_of(s) {
        if quality_of(s) <= target_quality_of(s) {
            quality_of(s)
        } else {
            target_quality_of(s)
        }
    } else {
        0i32
    }
}

/// The score a state is worth on its own: its capped quality and the
/// engine's step counter.
pub open spec fn spec_score_of(s: Status) -> Score {
    Score { quality: state_quality(s), steps: step_of(s) }
}

/// The strict order of the score model: higher quality wins; on equal
/// quality, fewer steps win; otherwise the scores are equal.
pub open spec fn score_wins(a: Score, b: Score) -> bool {
    a.quality > b.quality || (a.quality == b.quality && a.steps < b.steps)
}

impl Score {
    /// The score of a state, per the model above.
    pub fn from_status(s: &Status) -> (r: Score)
        ensures
            r == spec_score_of(*s),
    {
        Score { quality: quality_value(s), steps: read_step(s) }
    }

    /// Whether `self` is strictly better than `other` under the score order.
    pub fn beats(self, other: Score) -> (r: bool)
        ensures
            r == score_wins(self, other),
    {
        self.quality > other.quality || (self.quality == other.quality && self.steps < other.steps)
    }
}

/// The capped quality of a state, computed from the engine's fields.
pub fn quality_value(s: &Status) -> (q: i32)
    ensures
        q == state_quality(*s),
{
    if read_progress(s) >= read_target_progress(s) {
        let quality = read_quality(s);
        let target = read_target_quality(s);
        if quality <= target {
            quality
        } else {
            target
        }
    } else {
        0
    }
}

/// The score order is total: of two scores, exactly one of "the first wins",
/// "the second wins", "they are equal" holds.
pub proof fn lemma_score_order_total(a: Score, b: Score)
    ensures
        score_wins(a, b) || score_wins(b, a) || a == b,
        score_wins(a, b) ==> !score_wins(b, a) && a != b,
        a == b ==> !score_wins(a, b) && !score_wins(b, a),
{
}

/// The score order is transitive.
pub proof fn lemma_score_order_transitive(a: Score, b: Score, c: Score)
    requires
        score_wins(a, b),
        score_wins(b, c),
    ensures
        score_wins(a, c),
{
}

} // verus!
