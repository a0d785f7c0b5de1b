//! The resolved command-line configuration.
//!
//! A `Parser` holds what the command-line layer resolves before counting
//! starts: the number of jobs, the list of root paths, and the mode.
//! `resolve_jobs` turns the textual job-count argument into a usable
//! value: a decimal number of at least one, or one when the text is
//! absent, malformed, zero or out of range.

use vstd::arithmetic::div_mod::lemma_fundamental_div_mod;
use vstd::prelude::*;

verus! {

/// Whether a character is an ASCII decimal digit.
pub open spec fn is_digit(c: char) -> bool {
    48 <= c as u32 && c as u32 <= 57
}

/// The numeric value of one decimal digit.
pub open spec fn digit_val(c: char) -> nat {
    (c as u32 - 48) as nat
}

/// The value of a text read as a decimal numeral.
pub open spec fn digits_value(s: Seq<char>) -> nat
    decreases s.len(),
{
    if s.len() == 0 {
        0
    } else {
        digits_value(s.drop_last()) * 10 + digit_val(s.last())
    }
}

/// Whether every character of a text is a decimal digit.
pub open spec fn all_digits(s: Seq<char>) -> bool {
    forall|i: int| 0 <= i < s.len() ==> is_digit(s[i])
}

/// The digits of a job-count argument: an optional leading plus sign is
/// not part of the numeral.
pub open spec fn digits_of(s: Seq<char>) -> Seq<char> {
    if s.len() > 0 && s[0] == '+' {
        s.subrange(1, s.len() as int)
    } else {
        s
    }
}

/// What a job-count argument resolves to: its decimal value when the
/// text is a well-formed numeral of at least one that fits the machine,
/// and one otherwise.
pub open spec fn resolved_jobs(s: Seq<char>) -> nat {
    let d = digits_of(s);
    if d.len() > 0 && all_digits(d) && 1 <= digits_value(d) <= usize::MAX {
        digits_value(d)
    } else {
        1
    }
}

/// Reading more digits never lowers the value of a numeral.
proof fn lemma_digits_value_prefix(s: Seq<char>, j: int)
    requires
        0 <= j <= s.len(),
    ensures
        digits_value(s.subrange(0, j)) <= digits_value(s),
    decreases s.len() - j,
{
    if j == s.len() {
        assert(s.subrange(0, j) =~= s);
    } else {
        lemma_digits_value_prefix(s, j + 1);
        assert(s.subrange(0, j + 1).drop_last() =~= s.subrange(0, j));
        assert(s.subrange(0, j + 1).last() == s[j]);
        assert(digits_value(s.subrange(0, j)) * 10 >= digits_value(s.subrange(0, j)));
    }
}

/// Resolves the textual job-count argument: the decimal value of the
/// text when it names a representable count of at least one, and one
/// job when the text is absent, malformed, zero or out of range.
pub fn resolve_jobs(s: &str) -> (n: usize)
    ensures
        n == resolved_jobs(s@),
        n >= 1,
{
    let len = s.unicode_len();
    let mut start: usize = 0;
    if len > 0 && s.get_char(0) == '+' {
        start = 1;
    }
    let ghost d = digits_of(s@);
    proof {
        assert(d =~= s@.subrange(start as int, len as int));
    }
    if start == len {
        return 1;
    }
    let mut acc: usize = 0;
    let mut k: usize = start;
    while k < len
        invariant
            start <= k <= len,
            len == s@.len(),
            d == digits_of(s@),
            d =~= s@.subrange(start as int, len as int),
            all_digits(d.subrange(0, k - start)),
            acc == digits_value(d.subrange(0, k - start)),
        decreases len - k,
    {
        let c = s.get_char(k);
        let u = c as u32;
        proof {
            assert(d[k - start] == s@[k as int]);
        }
        if !(48 <= u && u <= 57) {
            proof {
                assert(!is_digit(d[k - start]));
            }
            return 1;
        }
        let dig = (u - 48) as usize;
        let limit = (usize::MAX - dig) / 10;
        proof {
            lemma_fundamental_div_mod((usize::MAX - dig) as int, 10);
        }
        if acc > limit {
            proof {
                let m = (k - start) as int;
                assert(d.subrange(0, m + 1).drop_last() =~= d.subrange(0, m));
                assert(d.subrange(0, m + 1).last() == d[m]);
                assert(acc * 10 >= (limit + 1) * 10) by (nonlinear_arith)
                    requires
                        acc >= limit + 1,
                ;
                assert((limit + 1) * 10 > usize::MAX - dig);
                assert(digits_value(d.subrange(0, m + 1)) > usize::MAX);
                lemma_digits_value_prefix(d, m + 1);
            }
            return 1;
        }
        proof {
            let m = (k - start) as int;
            assert(d.subrange(0, m + 1).drop_last() =~= d.subrange(0, m));
            assert(d.subrange(0, m + 1).last() == d[m]);
            assert(acc * 10 <= limit * 10) by (nonlinear_arith)
                requires
                    0 <= acc <= limit,
            ;
            assert(limit * 10 <= usize::MAX - dig);
        }
        acc = acc * 10 + dig;
        k = k + 1;
    }
    proof {
        assert(d.subrange(0, d.len() as int) =~= d);
    }
    if acc == 0 {
        return 1;
    }
    acc
}

/// The configuration the command-line layer hands to the counting run:
/// a job count, the root paths to count under, and the mode.
pub struct Parser {
    pub njobs: usize,
    pub paths: Vec<String>,
    pub words: bool,
}

impl Parser {
    /// Creates the configuration a run starts from before any
    /// command-line overrides: one job, line mode, and the current
    /// directory as the only path.
    pub fn new() -> (p: Parser)
        ensures
            p.njobs == 1,
            !p.words,
            p.paths@.len() == 1,
            p.paths@[0]@ == "."@,
    {
        let mut paths: Vec<String> = Vec::new();
        paths.push(".".to_owned());
        Parser { njobs: 1, paths, words: false }
    }
}

} // verus!
