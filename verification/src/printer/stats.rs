//! Counts kept over a search.

use vstd::prelude::*;

verus! {

/// Counts kept over a search.
#[derive(Clone, Copy, Debug, PartialEq, Eq, Structural)]
pub struct Stats {
    /// How many lines held a match.
    matched_lines: u64,
    /// How many matches there were.
    matches: u64,
}

impl Default for Stats {
    fn default() -> (stats: Stats)
        ensures
            stats.spec_matched_lines() == 0,
            stats.spec_matches() == 0,
    {
        Stats { matched_lines: 0, matches: 0 }
    }
}

impl Stats {
    /// How many lines held a match.
    pub closed spec fn spec_matched_lines(&self) -> u64 {
        self.matched_lines
    }

    /// How many matches there were.
    pub closed spec fn spec_matches(&self) -> u64 {
        self.matches
    }

    /// Counts that stand at zero.
    pub fn new() -> (stats: Stats)
        ensures
            stats.spec_matched_lines() == 0,
            stats.spec_matches() == 0,
    {
        Stats::default()
    }

    /// How many lines held a match.
    #[verifier::when_used_as_spec(spec_matched_lines)]
    pub fn matched_lines(&self) -> (n: u64)
        ensures
            n == self.spec_matched_lines(),
    {
        self.matched_lines
    }

    /// How many matches there were.
    #[verifier::when_used_as_spec(spec_matches)]
    pub fn matches(&self) -> (n: u64)
        ensures
            n == self.spec_matches(),
    {
        self.matches
    }

    /// Counts `n` more lines that held a match.
    pub fn add_matched_lines(&mut self, n: u64)
        requires
            old(self).spec_matched_lines() + n <= u64::MAX,
        ensures
            final(self).spec_matched_lines() == old(self).spec_matched_lines() + n,
            final(self).spec_matches() == old(self).spec_matches(),
    {
        self.matched_lines += n;
    }

    /// Counts `n` more matches.
    pub fn add_matches(&mut self, n: u64)
        requires
            old(self).spec_matches() + n <= u64::MAX,
        ensures
            final(self).spec_matches() == old(self).spec_matches() + n,
            final(self).spec_matched_lines() == old(self).spec_matched_lines(),
    {
        self.matches += n;
    }
}

} // verus!
