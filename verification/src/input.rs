//! A summary of piped input: its size, line count, and whether it looks
//! binary. Reading standard input belongs to the caller; summarizing the
//! bytes is pure.

use vstd::prelude::*;

verus! {

/// What arrived on standard input, with a few counts about it.
#[derive(Debug, Clone)]
pub struct InputSummary {
    pub bytes: usize,
    pub lines: usize,
    pub is_empty: bool,
    pub is_probably_binary: bool,
    pub content: Vec<u8>,
}

/// How many line feeds occur in `s` before `i`.
pub open spec fn spec_count_nl(s: Seq<u8>, i: int) -> int
    decreases i,
{
    if i <= 0 {
        0
    } else {
        spec_count_nl(s, i - 1) + (if 0 < i <= s.len() && s[i - 1] == 10 {
            1int
        } else {
            0int
        })
    }
}

/// Whether a zero byte occurs in `s`.
pub open spec fn spec_has_nul(s: Seq<u8>) -> bool {
    exists|k: int| 0 <= k < s.len() && s[k] == 0
}

impl InputSummary {
    /// The summary of no input at all.
    pub fn empty() -> (r: InputSummary)
        ensures
            r.bytes == 0,
            r.lines == 0,
            r.is_empty,
            !r.is_probably_binary,
            r.content@.len() == 0,
    {
        InputSummary {
            bytes: 0,
            lines: 0,
            is_empty: true,
            is_probably_binary: false,
            content: Vec::new(),
        }
    }

    /// Summarizes piped bytes: the size, one line more than the line feeds
    /// for non-empty input, and a binary guess from any zero byte.
    pub fn summarize(content: Vec<u8>) -> (r: InputSummary)
        requires
            content@.len() < usize::MAX,
        ensures
            r.content@ == content@,
            r.bytes == content@.len(),
            r.is_empty == (content@.len() == 0),
            r.lines == (if content@.len() == 0 {
                0int
            } else {
                spec_count_nl(content@, content@.len() as int) + 1
            }),
            r.is_probably_binary == spec_has_nul(content@),
    {
        let n = content.len();
        let mut nl: usize = 0;
        let mut has_nul = false;
        let mut k: usize = 0;
        while k < n
            invariant
                k <= n,
                n == content@.len(),
                n < usize::MAX,
                nl == spec_count_nl(content@, k as int),
                nl <= k,
                has_nul == (exists|m: int| 0 <= m < k && content@[m] == 0),
            decreases n - k,
        {
            if content[k] == 10 {
                nl = nl + 1;
            }
            if content[k] == 0 {
                has_nul = true;
            }
            k = k + 1;
        }
        let lines = if n == 0 {
            0
        } else {
            nl + 1
        };
        InputSummary {
            bytes: n,
            lines,
            is_empty: n == 0,
            is_probably_binary: has_nul,
            content,
        }
    }
}

} // verus!
