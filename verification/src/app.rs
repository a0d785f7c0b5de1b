//! The application configuration and the dispatch of counting work.
//!
//! An `App` holds the requested number of jobs and the counting mode.
//! Counting a root splits the discovered file contents into contiguous
//! workloads, computes one partial count per workload, sums the partial
//! counts, and applies the line-mode adjustment exactly once per root.

use vstd::prelude::*;

use crate::counter::partition_workloads;
use crate::counter::workload_sum;
use crate::engine::handle;
use crate::engine::lemma_total_count_concat;
use crate::engine::total_count;

verus! {

/// What one root's total is once per-file counts are summed: line mode
/// adds one for the final line without a trailing newline, once per
/// root; word mode adds nothing.
pub open spec fn adjusted_total(files: Seq<Option<String>>, words: bool) -> nat {
    total_count(files, words) + if words {
        0nat
    } else {
        1nat
    }
}

/// An application used to count lines or words programmatically.
#[derive(Debug, Clone, Copy, Hash, PartialEq, Eq, Structural)]
pub struct App {
    njobs: usize,
    words: bool,
}

impl App {
    /// The number of jobs this `App` is set to run.
    pub closed spec fn spec_njobs(&self) -> usize {
        self.njobs
    }

    /// Whether this `App` counts words instead of lines.
    pub closed spec fn spec_words(&self) -> bool {
        self.words
    }
}

impl Default for App {
    /// The default application runs one job and counts lines.
    fn default() -> (a: Self)
        ensures
            a.spec_njobs() == 1,
            !a.spec_words(),
    {
        Self { njobs: 1, words: false }
    }
}

impl App {
    /// Creates a new `App` that runs `njobs` jobs and counts words when
    /// `words` is true, lines otherwise.
    pub fn new(njobs: usize, words: bool) -> (a: Self)
        ensures
            a.spec_njobs() == njobs,
            a.spec_words() == words,
    {
        Self { njobs, words }
    }

    /// Applies the mode adjustment to one root's summed partial counts:
    /// line mode adds exactly one, word mode returns the sum unchanged.
    pub fn adjust(&self, total: usize) -> (r: usize)
        requires
            !self.spec_words() ==> total < usize::MAX,
        ensures
            r == total + if self.spec_words() {
                0nat
            } else {
                1nat
            },
    {
        if !self.words {
            return total + 1;
        }
        total
    }

    /// Counts the lines or words in the given file contents, one entry
    /// per discovered file in scan order, an unreadable file given as
    /// `None`. With one job the whole list is counted inline; with more,
    /// it is split into one contiguous workload per remaining job and the
    /// partial counts are summed. The total is the same either way: it
    /// never depends on the number of jobs.
    pub fn count(&self, files: &Vec<Option<String>>) -> (total: usize)
        requires
            self.spec_njobs() >= 1,
            adjusted_total(files@, self.spec_words()) <= usize::MAX,
        ensures
            total == adjusted_total(files@, self.spec_words()),
    {
        let nfiles = files.len();
        if self.njobs == 1 {
            let t = handle(files.as_slice(), self.words);
            return self.adjust(t);
        }
        let njobs = self.njobs - 1;

        let mut total: usize = 0;
        let mut position: usize = 0;
        let workloads = partition_workloads(njobs, nfiles);

        let mut j: usize = 0;
        while j < workloads.len()
            invariant
                j <= workloads@.len(),
                position == workload_sum(workloads@.subrange(0, j as int)),
                workload_sum(workloads@) == files@.len(),
                total == total_count(files@.subrange(0, position as int), self.words),
                adjusted_total(files@, self.words) <= usize::MAX,
                nfiles == files@.len(),
            decreases workloads@.len() - j,
        {
            let load = workloads[j];
            proof {
                lemma_workload_sum_prefix(workloads@, j as int);
                assert(workloads@.subrange(0, j + 1).drop_last() =~= workloads@.subrange(
                    0,
                    j as int,
                ));
                assert(workloads@.subrange(0, j + 1).last() == workloads@[j as int]);
                assert(position + load <= nfiles);
            }
            let start = position;
            let end = position + load;
            position = end;

            let chunk = vstd::slice::slice_subrange(files.as_slice(), start, end);
            proof {
                lemma_count_chunk(files@, start as int, end as int, self.words);
            }
            let part = handle(chunk, self.words);
            total = total + part;
            j = j + 1;
        }
        proof {
            assert(workloads@.subrange(0, workloads@.len() as int) =~= workloads@);
            assert(files@.subrange(0, files@.len() as int) =~= files@);
        }
        self.adjust(total)
    }

    /// Sets the number of jobs the `App` should use and returns it.
    pub fn set_njobs(&mut self, njobs: usize) -> (r: usize)
        ensures
            final(self).spec_njobs() == njobs,
            final(self).spec_words() == old(self).spec_words(),
            r == njobs,
    {
        self.njobs = njobs;
        njobs
    }

    /// Returns the number of jobs the `App` is set to use.
    pub fn get_njobs(&self) -> (r: usize)
        ensures
            r == self.spec_njobs(),
    {
        self.njobs
    }

    /// Returns whether words are counted instead of lines.
    pub fn get_words(&self) -> (r: bool)
        ensures
            r == self.spec_words(),
    {
        self.words
    }

    /// Sets whether to count words instead of lines and returns the new
    /// state.
    pub fn set_words(&mut self, value: bool) -> (r: bool)
        ensures
            final(self).spec_words() == value,
            final(self).spec_njobs() == old(self).spec_njobs(),
            r == value,
    {
        self.words = value;
        value
    }
}

/// The total for a root depends only on the file contents and the mode:
/// two applications that agree on the mode are owed the same total,
/// whatever their job counts.
pub proof fn lemma_job_count_invariance(a: App, b: App, files: Seq<Option<String>>)
    requires
        a.spec_words() == b.spec_words(),
    ensures
        adjusted_total(files, a.spec_words()) == adjusted_total(files, b.spec_words()),
{
}

/// A prefix of the workloads never accounts for more items than all of
/// them together: each workload size is nonnegative.
proof fn lemma_workload_sum_prefix(s: Seq<usize>, j: int)
    requires
        0 <= j <= s.len(),
    ensures
        workload_sum(s.subrange(0, j)) >= 0,
        j < s.len() ==> workload_sum(s.subrange(0, j)) + s[j] <= workload_sum(s),
    decreases s.len() - j,
{
    lemma_workload_sum_nonneg(s.subrange(0, j));
    if j == s.len() {
        assert(s.subrange(0, j) =~= s);
    } else {
        lemma_workload_sum_prefix(s, j + 1);
        assert(s.subrange(0, j + 1).drop_last() =~= s.subrange(0, j));
        assert(s.subrange(0, j + 1).last() == s[j]);
    }
}

/// A sum of workload sizes is nonnegative.
proof fn lemma_workload_sum_nonneg(s: Seq<usize>)
    ensures
        workload_sum(s) >= 0,
    decreases s.len(),
{
    if s.len() > 0 {
        lemma_workload_sum_nonneg(s.drop_last());
    }
}

/// Counting a contiguous chunk of the files on its own gives exactly
/// that chunk's share of the whole count: the counts of the pieces of
/// any split add up to the count of the whole.
proof fn lemma_count_chunk(files: Seq<Option<String>>, start: int, end: int, words: bool)
    requires
        0 <= start <= end <= files.len(),
    ensures
        total_count(files.subrange(0, start), words) + total_count(
            files.subrange(start, end),
            words,
        ) == total_count(files.subrange(0, end), words),
        total_count(files.subrange(0, end), words) <= total_count(files, words),
{
    assert(files.subrange(0, end) =~= files.subrange(0, start) + files.subrange(start, end));
    lemma_total_count_concat(files.subrange(0, start), files.subrange(start, end), words);
    assert(files =~= files.subrange(0, end) + files.subrange(end, files.len() as int));
    lemma_total_count_concat(files.subrange(0, end), files.subrange(end, files.len() as int), words);
}

} // verus!
