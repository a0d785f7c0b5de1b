//! File discovery and workload partitioning.
//!
//! A root to count under is modelled as a tree of directory entries: a
//! regular file carries the path it was found at, a directory carries its
//! bare name and its entries in iteration order. The scanner flattens the
//! tree into the ordered list of file paths, skipping every directory
//! whose bare name matches an excluded name, and the partitioner splits
//! that list into near-equal contiguous ranges for the requested jobs.

use vstd::arithmetic::div_mod::lemma_fundamental_div_mod;
use vstd::prelude::*;

verus! {

/// One node of a directory tree: a regular file with the path it was
/// found at, or a directory with its bare name and its entries in
/// iteration order.
pub enum FsEntry {
    File { path: String },
    Dir { name: String, entries: Vec<FsEntry> },
}

/// Directory names that a scan never descends into.
pub open spec fn excluded_dir(name: Seq<char>) -> bool {
    name == "target"@ || name == ".git"@
}

/// The file paths a scan collects from one directory entry: a file
/// contributes its path; a directory with an excluded name contributes
/// nothing, any other directory contributes its entries in order.
pub open spec fn scan_entry(e: FsEntry) -> Seq<String>
    decreases e,
{
    match e {
        FsEntry::File { path } => seq![path],
        FsEntry::Dir { name, entries } => if excluded_dir(name@) {
            Seq::empty()
        } else {
            scan_entries(entries@)
        },
    }
}

/// The file paths a scan collects from a sequence of entries, in order.
pub open spec fn scan_entries(es: Seq<FsEntry>) -> Seq<String>
    decreases es,
{
    if es.len() == 0 {
        Seq::empty()
    } else {
        scan_entries(es.drop_last()) + scan_entry(es.last())
    }
}

/// The file paths a scan of a whole root collects. The root itself is
/// never excluded by name: exclusion applies when descending into a
/// directory's entries.
pub open spec fn scan_files(root: FsEntry) -> Seq<String> {
    match root {
        FsEntry::File { path } => seq![path],
        FsEntry::Dir { name: _, entries } => scan_entries(entries@),
    }
}

/// Number of regular files anywhere in one entry, exclusion ignored.
pub open spec fn n_files_entry(e: FsEntry) -> nat
    decreases e,
{
    match e {
        FsEntry::File { .. } => 1,
        FsEntry::Dir { name: _, entries } => n_files_entries(entries@),
    }
}

/// Number of regular files anywhere in a sequence of entries.
pub open spec fn n_files_entries(es: Seq<FsEntry>) -> nat
    decreases es,
{
    if es.len() == 0 {
        0
    } else {
        n_files_entries(es.drop_last()) + n_files_entry(es.last())
    }
}

/// Whether one entry is, or contains, a directory with an excluded name.
pub open spec fn has_excluded_entry(e: FsEntry) -> bool
    decreases e,
{
    match e {
        FsEntry::File { .. } => false,
        FsEntry::Dir { name, entries } => excluded_dir(name@) || has_excluded_entries(entries@),
    }
}

/// Whether a sequence of entries contains a directory with an excluded name.
pub open spec fn has_excluded_entries(es: Seq<FsEntry>) -> bool
    decreases es,
{
    if es.len() == 0 {
        false
    } else {
        has_excluded_entries(es.drop_last()) || has_excluded_entry(es.last())
    }
}

proof fn lemma_scan_entry_complete(e: FsEntry)
    requires
        !has_excluded_entry(e),
    ensures
        scan_entry(e).len() == n_files_entry(e),
    decreases e,
{
    match e {
        FsEntry::File { .. } => {},
        FsEntry::Dir { name: _, entries } => {
            lemma_scan_entries_complete(entries@);
        },
    }
}

proof fn lemma_scan_entries_complete(es: Seq<FsEntry>)
    requires
        !has_excluded_entries(es),
    ensures
        scan_entries(es).len() == n_files_entries(es),
    decreases es,
{
    if es.len() > 0 {
        lemma_scan_entries_complete(es.drop_last());
        lemma_scan_entry_complete(es.last());
    }
}

/// A scan is complete: when no directory in the tree bears an excluded
/// name, the scan collects exactly one path per regular file in the tree.
pub proof fn lemma_scan_complete(root: FsEntry)
    requires
        !has_excluded_entry(root),
    ensures
        scan_files(root).len() == n_files_entry(root),
{
    match root {
        FsEntry::File { .. } => {},
        FsEntry::Dir { name: _, entries } => {
            lemma_scan_entries_complete(entries@);
        },
    }
}

/// Sum of a sequence of workload sizes.
pub open spec fn workload_sum(s: Seq<usize>) -> int
    decreases s.len(),
{
    if s.len() == 0 {
        0
    } else {
        workload_sum(s.drop_last()) + s.last()
    }
}

/// The size of the workload at one index: the first `nfiles % njobs`
/// workloads hold one file more than the rest.
pub open spec fn workload_size(njobs: int, nfiles: int, i: int) -> int {
    if i < nfiles % njobs {
        nfiles / njobs + 1
    } else {
        nfiles / njobs
    }
}

/// Whether a directory name is one the scan excludes and never
/// descends into.
pub fn is_excluded_name(name: &str) -> (r: bool)
    ensures
        r == excluded_dir(name@),
{
    let t: String = "target".to_owned();
    let g: String = ".git".to_owned();
    let n: String = name.to_owned();
    n.eq(&t) || n.eq(&g)
}

/// The sum of a stepped sequence: the first `e` entries hold `b + 1`,
/// the rest hold `b`.
proof fn lemma_stepped_sum(s: Seq<usize>, b: int, e: int)
    requires
        0 <= e <= s.len(),
        forall|i: int| 0 <= i < e ==> s[i] == b + 1,
        forall|i: int| e <= i < s.len() ==> s[i] == b,
        b >= 0,
    ensures
        workload_sum(s) == s.len() * b + e,
    decreases s.len(),
{
    if s.len() > 0 {
        let n = s.len() as int;
        if e == n {
            lemma_stepped_sum(s.drop_last(), b, e - 1);
        } else {
            lemma_stepped_sum(s.drop_last(), b, e);
        }
        assert(n * b == (n - 1) * b + b) by (nonlinear_arith);
    }
}

/// Splits `nfiles` items into `njobs` near-equal contiguous workload
/// sizes. The sizes sum to `nfiles`, no two differ by more than one, and
/// an earlier workload never holds less than a later one: the first
/// `nfiles % njobs` workloads hold one item more than the rest.
pub fn partition_workloads(njobs: usize, nfiles: usize) -> (w: Vec<usize>)
    requires
        njobs >= 1,
    ensures
        w@.len() == njobs,
        forall|i: int| 0 <= i < njobs ==> w@[i] == workload_size(njobs as int, nfiles as int, i),
        workload_sum(w@) == nfiles,
        forall|i: int, j: int| 0 <= i < njobs && 0 <= j < njobs ==> w@[i] <= w@[j] + 1,
        forall|i: int, j: int| 0 <= i <= j < njobs ==> w@[i] >= w@[j],
{
    let chunk_size = nfiles / njobs;
    let remainder = nfiles % njobs;
    proof {
        lemma_fundamental_div_mod(nfiles as int, njobs as int);
    }
    let mut w: Vec<usize> = Vec::new();
    let mut k: usize = 0;
    while k < njobs
        invariant
            w@.len() == k,
            k <= njobs,
            forall|i: int| 0 <= i < k ==> w@[i] == chunk_size,
        decreases njobs - k,
    {
        w.push(chunk_size);
        k = k + 1;
    }
    let mut i: usize = 0;
    while i < remainder
        invariant
            njobs >= 1,
            chunk_size == nfiles as int / njobs as int,
            remainder == nfiles as int % njobs as int,
            nfiles == njobs * chunk_size + remainder,
            w@.len() == njobs,
            i <= remainder,
            remainder < njobs,
            forall|j: int| 0 <= j < i ==> w@[j] == chunk_size + 1,
            forall|j: int| i <= j < njobs ==> w@[j] == chunk_size,
        decreases remainder - i,
    {
        proof {
            assert(njobs >= 2);
            assert(2 * chunk_size <= njobs * chunk_size) by (nonlinear_arith)
                requires
                    njobs >= 2,
                    chunk_size >= 0,
            ;
        }
        let v = w[i];
        w[i] = v + 1;
        i = i + 1;
    }
    proof {
        lemma_stepped_sum(w@, chunk_size as int, remainder as int);
        assert(njobs * chunk_size == chunk_size * njobs) by (nonlinear_arith);
    }
    w
}

/// Collects the ordered list of file paths to count under one root, and
/// splits them into workloads.
pub struct Counter {
    pub path: String,
    pub files: Vec<String>,
}

impl Counter {
    /// Creates a counter for the given root path, with no files
    /// discovered yet.
    pub fn new(path: String) -> (c: Counter)
        ensures
            c.path == path,
            c.files@.len() == 0,
    {
        Counter { path, files: Vec::new() }
    }

    /// Appends to the discovered files whatever one directory entry
    /// contributes: its path for a file, nothing for an excluded
    /// directory, its entries in order for any other directory.
    fn visit_entry(&mut self, e: &FsEntry)
        ensures
            final(self).path == old(self).path,
            final(self).files@ == old(self).files@ + scan_entry(*e),
        decreases *e,
    {
        match e {
            FsEntry::File { path } => {
                self.files.push(path.clone());
                proof {
                    assert(self.files@ =~= old(self).files@ + scan_entry(*e));
                }
            },
            FsEntry::Dir { name, entries } => {
                if is_excluded_name(name.as_str()) {
                    proof {
                        assert(self.files@ =~= old(self).files@ + scan_entry(*e));
                    }
                } else {
                    self.visit_entries(entries);
                }
            },
        }
    }

    /// Appends the contribution of a sequence of directory entries, in
    /// iteration order.
    fn visit_entries(&mut self, es: &Vec<FsEntry>)
        ensures
            final(self).path == old(self).path,
            final(self).files@ == old(self).files@ + scan_entries(es@),
        decreases *es,
    {
        let mut i: usize = 0;
        while i < es.len()
            invariant
                i <= es@.len(),
                self.path == old(self).path,
                self.files@ == old(self).files@ + scan_entries(es@.subrange(0, i as int)),
            decreases es@.len() - i,
        {
            self.visit_entry(&es[i]);
            proof {
                assert(es@.subrange(0, i + 1).drop_last() =~= es@.subrange(0, i as int));
                assert(es@.subrange(0, i + 1).last() == es@[i as int]);
                assert(self.files@ =~= old(self).files@ + scan_entries(es@.subrange(0, i + 1)));
            }
            i = i + 1;
        }
        proof {
            assert(es@.subrange(0, es@.len() as int) =~= es@);
        }
    }

    /// Discovers the regular files under one root, appending their paths
    /// to the files discovered so far in traversal order. A root that is
    /// a regular file contributes its own path; a directory root
    /// contributes every file under it except those inside directories
    /// with an excluded name. The root itself is never excluded by name.
    pub fn scan(&mut self, root: &FsEntry)
        ensures
            final(self).path == old(self).path,
            final(self).files@ == old(self).files@ + scan_files(*root),
    {
        match root {
            FsEntry::File { path } => {
                self.files.push(path.clone());
                proof {
                    assert(self.files@ =~= old(self).files@ + scan_files(*root));
                }
            },
            FsEntry::Dir { name: _, entries } => {
                self.visit_entries(entries);
            },
        }
    }

    /// Scans the root and returns how many files are discovered in total.
    pub fn count_files(&mut self, root: &FsEntry) -> (n: usize)
        ensures
            final(self).path == old(self).path,
            final(self).files@ == old(self).files@ + scan_files(*root),
            n == final(self).files@.len(),
    {
        self.scan(root);
        self.files.len()
    }

    /// Splits `nfiles` discovered files into `njobs` near-equal
    /// contiguous workloads; see `partition_workloads`.
    pub fn generate_workloads(&self, njobs: usize, nfiles: usize) -> (w: Vec<usize>)
        requires
            njobs >= 1,
        ensures
            w@.len() == njobs,
            forall|i: int| 0 <= i < njobs ==> w@[i] == workload_size(
                njobs as int,
                nfiles as int,
                i,
            ),
            workload_sum(w@) == nfiles,
            forall|i: int, j: int| 0 <= i < njobs && 0 <= j < njobs ==> w@[i] <= w@[j] + 1,
            forall|i: int, j: int| 0 <= i <= j < njobs ==> w@[i] >= w@[j],
    {
        partition_workloads(njobs, nfiles)
    }
}

} // verus!
