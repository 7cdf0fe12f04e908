use vstd::prelude::*;

verus! {

/// Points earned for each cleared gem.
pub const POINTS_PER_GEM: usize = 10;

/// The largest count of cleared gems that is kept; the count stops there so
/// that the score still fits.
pub const MAX_CLEARED: usize = usize::MAX / 10;

/// Cleared gems and score of one session. Only ever grows.
#[derive(Debug)]
pub struct Scoreboard {
    total_removed: usize,
    score: usize,
}

/// What the count becomes when `n` more gems are cleared.
pub open spec fn next_total(total: nat, n: nat) -> nat {
    if total + n <= MAX_CLEARED {
        total + n
    } else {
        MAX_CLEARED as nat
    }
}

impl Scoreboard {
    /// The score is ten points per cleared gem, and the count is within its cap.
    pub closed spec fn wf(&self) -> bool {
        &&& self.total_removed <= MAX_CLEARED
        &&& self.score == self.total_removed * POINTS_PER_GEM
    }

    pub closed spec fn spec_total(&self) -> nat {
        self.total_removed as nat
    }

    pub closed spec fn spec_score(&self) -> nat {
        self.score as nat
    }

    /// A scoreboard at zero.
    pub fn new() -> (s: Scoreboard)
        ensures
            s.wf(),
            s.spec_total() == 0,
            s.spec_score() == 0,
    {
        Scoreboard { total_removed: 0, score: 0 }
    }

    pub fn total_removed(&self) -> (r: usize)
        ensures
            r == self.spec_total(),
    {
        self.total_removed
    }

    pub fn score(&self) -> (r: usize)
        ensures
            r == self.spec_score(),
    {
        self.score
    }

    /// Counts `n` more cleared gems, and ten points for each.
    pub fn record_cleared(&mut self, n: usize)
        requires
            old(self).wf(),
        ensures
            final(self).wf(),
            final(self).spec_total() == next_total(old(self).spec_total(), n as nat),
            final(self).spec_score() == final(self).spec_total() * 10,
            final(self).spec_total() >= old(self).spec_total(),
            n == 0 ==> final(self).spec_total() == old(self).spec_total(),
    {
        let total = if n <= MAX_CLEARED - self.total_removed {
            self.total_removed + n
        } else {
            MAX_CLEARED
        };
        self.total_removed = total;
        self.score = total * POINTS_PER_GEM;
    }

    /// The score is always ten points for each gem cleared.
    pub proof fn lemma_score_tracks_cleared(&self)
        requires
            self.wf(),
        ensures
            self.spec_score() == self.spec_total() * 10,
            self.spec_total() <= MAX_CLEARED,
    {
    }
}

impl Default for Scoreboard {
    fn default() -> (s: Scoreboard)
        ensures
            s.wf(),
            s.spec_total() == 0,
            s.spec_score() == 0,
    {
        Scoreboard::new()
    }
}

} // verus!
