//! The counting engine: computes one integer count for file contents
//! under one counting mode.
//!
//! Line mode counts newline characters; word mode counts maximal runs of
//! ASCII alphanumeric characters. A file that could not be read (or whose
//! bytes were not valid text) is represented as `None` and contributes
//! zero: a recoverable, per-file condition that never aborts a run.

use vstd::prelude::*;

verus! {

/// A word is a maximal run of these characters: ASCII digits and letters.
pub open spec fn is_word_char(c: char) -> bool {
    (48 <= c as u32 && c as u32 <= 57)
    || (65 <= c as u32 && c as u32 <= 90)
    || (97 <= c as u32 && c as u32 <= 122)
}

/// Number of newline characters in a text.
pub open spec fn newline_count(s: Seq<char>) -> nat
    decreases s.len(),
{
    if s.len() == 0 {
        0
    } else {
        newline_count(s.drop_last()) + (if s.last() == '\n' {
            1nat
        } else {
            0nat
        })
    }
}

/// Number of maximal runs of word characters in a text: each position
/// where a word character is not preceded by one starts a word.
pub open spec fn word_count(s: Seq<char>) -> nat
    decreases s.len(),
{
    if s.len() == 0 {
        0
    } else {
        word_count(s.drop_last()) + (if is_word_char(s.last()) && (s.len() == 1 || !is_word_char(
            s[s.len() - 2],
        )) {
            1nat
        } else {
            0nat
        })
    }
}

/// The count of one readable text under the given mode.
pub open spec fn content_count(s: Seq<char>, words: bool) -> nat {
    if words {
        word_count(s)
    } else {
        newline_count(s)
    }
}

/// The count one file contributes: an unreadable file contributes zero.
pub open spec fn file_count(f: Option<String>, words: bool) -> nat {
    match f {
        Option::Some(s) => content_count(s@, words),
        Option::None => 0,
    }
}

/// The combined count of a sequence of file contents.
pub open spec fn total_count(files: Seq<Option<String>>, words: bool) -> nat
    decreases files.len(),
{
    if files.len() == 0 {
        0
    } else {
        total_count(files.drop_last(), words) + file_count(files.last(), words)
    }
}

/// Counts the newline characters in a text.
pub fn count_newlines(s: &str) -> (r: usize)
    ensures
        r == newline_count(s@),
        r <= s@.len(),
{
    let n = s.unicode_len();
    let mut i: usize = 0;
    let mut r: usize = 0;
    while i < n
        invariant
            n == s@.len(),
            i <= n,
            r == newline_count(s@.subrange(0, i as int)),
            r <= i,
        decreases n - i,
    {
        let c = s.get_char(i);
        proof {
            assert(s@.subrange(0, i + 1).drop_last() =~= s@.subrange(0, i as int));
        }
        if c == '\n' {
            r = r + 1;
        }
        i = i + 1;
    }
    proof {
        assert(s@.subrange(0, n as int) =~= s@);
    }
    r
}

/// Counts the maximal runs of word characters in a text.
pub fn count_words(s: &str) -> (r: usize)
    ensures
        r == word_count(s@),
        r <= s@.len(),
{
    let n = s.unicode_len();
    let mut i: usize = 0;
    let mut r: usize = 0;
    let mut prev_word = false;
    while i < n
        invariant
            n == s@.len(),
            i <= n,
            r == word_count(s@.subrange(0, i as int)),
            r <= i,
            prev_word == (i > 0 && is_word_char(s@[i - 1])),
        decreases n - i,
    {
        let c = s.get_char(i);
        let u = c as u32;
        let cur_word = (48 <= u && u <= 57) || (65 <= u && u <= 90) || (97 <= u && u <= 122);
        proof {
            assert(s@.subrange(0, i + 1).drop_last() =~= s@.subrange(0, i as int));
            assert(cur_word == is_word_char(s@[i as int]));
        }
        if cur_word && !prev_word {
            r = r + 1;
        }
        prev_word = cur_word;
        i = i + 1;
    }
    proof {
        assert(s@.subrange(0, n as int) =~= s@);
    }
    r
}

/// Counts one text under the given mode.
pub fn count_content(s: &str, words: bool) -> (r: usize)
    ensures
        r == content_count(s@, words),
        r <= s@.len(),
{
    if words {
        count_words(s)
    } else {
        count_newlines(s)
    }
}

/// The count of a prefix never exceeds the count of the whole sequence.
proof fn lemma_total_count_prefix_le(files: Seq<Option<String>>, j: int, words: bool)
    requires
        0 <= j <= files.len(),
    ensures
        total_count(files.subrange(0, j), words) <= total_count(files, words),
    decreases files.len() - j,
{
    if j < files.len() {
        assert(files.subrange(0, j + 1).drop_last() =~= files.subrange(0, j));
        lemma_total_count_prefix_le(files, j + 1, words);
    } else {
        assert(files.subrange(0, j) =~= files);
    }
}

/// Counting two batches of files separately and adding the results equals
/// counting them together: partial counts combine by plain addition, so a
/// total is independent of how the file list is divided among workers.
pub proof fn lemma_total_count_concat(a: Seq<Option<String>>, b: Seq<Option<String>>, words: bool)
    ensures
        total_count(a + b, words) == total_count(a, words) + total_count(b, words),
    decreases b.len(),
{
    if b.len() == 0 {
        assert(a + b =~= a);
    } else {
        assert((a + b).drop_last() =~= a + b.drop_last());
        assert((a + b).last() == b.last());
        lemma_total_count_concat(a, b.drop_last(), words);
    }
}

/// Computes the partial count for one batch of file contents: each
/// readable file contributes its count under the mode, an unreadable
/// file contributes zero.
pub fn handle(files: &[Option<String>], words: bool) -> (r: usize)
    requires
        total_count(files@, words) <= usize::MAX,
    ensures
        r == total_count(files@, words),
{
    let mut result: usize = 0;
    let mut i: usize = 0;
    while i < files.len()
        invariant
            i <= files@.len(),
            result == total_count(files@.subrange(0, i as int), words),
            total_count(files@, words) <= usize::MAX,
        decreases files@.len() - i,
    {
        proof {
            lemma_total_count_prefix_le(files@, i + 1, words);
            assert(files@.subrange(0, i + 1).drop_last() =~= files@.subrange(0, i as int));
        }
        match &files[i] {
            Option::Some(s) => {
                let c = count_content(s.as_str(), words);
                result = result + c;
            },
            Option::None => {},
        }
        i = i + 1;
    }
    proof {
        assert(files@.subrange(0, files@.len() as int) =~= files@);
    }
    result
}

} // verus!
