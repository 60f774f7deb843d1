//! Recovery of a plan from raw planner output: fence stripping, schema
//! decoding over the JSON tree, extraction of the first balanced JSON span,
//! and a character-level repair of stray quotes, tried in a fixed order.

use vstd::prelude::*;

use crate::json::{
    json_view, json_view_fields, json_view_list, lemma_json_view_fields_index,
    lemma_json_view_list_index, spec_parse_json, Json, JsonV,
};
use crate::json_parse::parse_json_chars;
use crate::plan::{plan_steps_view, PlanStep, PlanStepV, WorkflowPlan, WorkflowPlanV};
use crate::text::{chars_string, str_chars, str_eq_str};

verus! {

/// Whether `c` has the Unicode `White_Space` property, the set that
/// `char::is_whitespace` recognizes.
pub open spec fn spec_is_uws(c: char) -> bool {
    let u = c as u32;
    (9 <= u && u <= 13) || u == 32 || u == 0x85 || u == 0xA0 || u == 0x1680 || (0x2000 <= u && u
        <= 0x200A) || u == 0x2028 || u == 0x2029 || u == 0x202F || u == 0x205F || u == 0x3000
}

/// Whether `c` has the Unicode `White_Space` property.
pub fn is_uws(c: char) -> (r: bool)
    ensures
        r == spec_is_uws(c),
{
    let u = c as u32;
    (9 <= u && u <= 13) || u == 32 || u == 0x85 || u == 0xA0 || u == 0x1680 || (0x2000 <= u && u
        <= 0x200A) || u == 0x2028 || u == 0x2029 || u == 0x202F || u == 0x205F || u == 0x3000
}

/// The first index at or after `i` holding a non-whitespace character.
pub open spec fn spec_skip_uws(s: Seq<char>, i: int) -> int
    decreases s.len() - i,
{
    if 0 <= i < s.len() && spec_is_uws(s[i]) {
        spec_skip_uws(s, i + 1)
    } else {
        i
    }
}

/// The first index at or after `i` holding a non-whitespace character.
fn skip_uws(v: &Vec<char>, i: usize) -> (r: usize)
    requires
        i <= v@.len(),
    ensures
        r as int == spec_skip_uws(v@, i as int),
        i <= r <= v@.len(),
{
    let mut k = i;
    while k < v.len() && is_uws(v[k])
        invariant
            i <= k <= v@.len(),
            spec_skip_uws(v@, i as int) == spec_skip_uws(v@, k as int),
        decreases v@.len() - k,
    {
        k = k + 1;
    }
    k
}

/// The index just after the last non-whitespace character before `j`.
pub open spec fn spec_rskip_uws(s: Seq<char>, j: int) -> int
    decreases j,
{
    if 0 < j <= s.len() && spec_is_uws(s[j - 1]) {
        spec_rskip_uws(s, j - 1)
    } else {
        j
    }
}

/// `s` with leading and trailing whitespace removed.
pub open spec fn spec_trim(s: Seq<char>) -> Seq<char> {
    let a = spec_skip_uws(s, 0);
    let b = spec_rskip_uws(s, s.len() as int);
    if a <= b {
        s.subrange(a, b)
    } else {
        Seq::empty()
    }
}

/// `v` with leading and trailing whitespace removed.
pub(crate) fn trim_chars(v: &Vec<char>) -> (r: Vec<char>)
    ensures
        r@ == spec_trim(v@),
{
    let a = skip_uws(v, 0);
    let mut b = v.len();
    while b > 0 && is_uws(v[b - 1])
        invariant
            b <= v@.len(),
            spec_rskip_uws(v@, v@.len() as int) == spec_rskip_uws(v@, b as int),
        decreases b,
    {
        b = b - 1;
    }
    let mut out: Vec<char> = Vec::new();
    if a <= b {
        let mut k = a;
        while k < b
            invariant
                a <= k <= b <= v@.len(),
                out@ == v@.subrange(a as int, k as int),
            decreases b - k,
        {
            out.push(v[k]);
            k = k + 1;
            proof {
                assert(out@ =~= v@.subrange(a as int, k as int));
            }
        }
    }
    proof {
        if a <= b {
            assert(out@ =~= spec_trim(v@));
        } else {
            assert(out@ =~= spec_trim(v@));
        }
    }
    out
}

/// Whether `s` begins with `p`.
pub open spec fn spec_starts_with(s: Seq<char>, p: Seq<char>) -> bool {
    s.len() >= p.len() && s.subrange(0, p.len() as int) == p
}

/// Whether `v[from..]` begins with `p`.
fn starts_with_at(v: &Vec<char>, from: usize, p: &Vec<char>) -> (r: bool)
    requires
        from <= v@.len(),
    ensures
        r == spec_starts_with(v@.subrange(from as int, v@.len() as int), p@),
{
    let ghost tail = v@.subrange(from as int, v@.len() as int);
    let n = v.len();
    if n - from < p.len() {
        return false;
    }
    let mut k: usize = 0;
    while k < p.len()
        invariant
            k <= p@.len(),
            n == v@.len(),
            from + p@.len() <= n,
            tail == v@.subrange(from as int, v@.len() as int),
            forall|m: int| 0 <= m < k ==> tail[m] == p@[m],
        decreases p@.len() - k,
    {
        if v[from + k] != p[k] {
            proof {
                assert(tail[k as int] != p@[k as int]);
                assert(tail.subrange(0, p@.len() as int)[k as int] == tail[k as int]);
            }
            return false;
        }
        k = k + 1;
    }
    proof {
        assert(tail.subrange(0, p@.len() as int) =~= p@);
    }
    true
}

/// The index of the first line break at or after `i`, or the end of `s`.
pub open spec fn spec_line_break(s: Seq<char>, i: int) -> int
    decreases s.len() - i,
{
    if 0 <= i < s.len() {
        if s[i] == '\n' {
            i
        } else {
            spec_line_break(s, i + 1)
        }
    } else {
        i
    }
}

/// A line piece with one trailing carriage return removed.
pub open spec fn spec_strip_cr(piece: Seq<char>) -> Seq<char> {
    if piece.len() > 0 && piece.last() == '\r' {
        piece.drop_last()
    } else {
        piece
    }
}

/// `spec_line_break` stays within bounds.
proof fn lemma_line_break_bounds(s: Seq<char>, i: int)
    requires
        0 <= i <= s.len(),
    ensures
        i <= spec_line_break(s, i) <= s.len(),
        spec_line_break(s, i) < s.len() ==> s[spec_line_break(s, i)] == '\n',
        forall|m: int| i <= m < spec_line_break(s, i) ==> s[m] != '\n',
    decreases s.len() - i,
{
    if i < s.len() && s[i as int] != '\n' {
        lemma_line_break_bounds(s, i + 1);
    }
}

/// The lines of `s` from index `i` on: pieces split at `'\n'`, each with a
/// trailing `'\r'` dropped, and no empty piece after a final line break.
pub open spec fn spec_lines_from(s: Seq<char>, i: int) -> Seq<Seq<char>>
    decreases s.len() - i when 0 <= i via spec_lines_from_decreases
{
    if i >= s.len() {
        Seq::empty()
    } else {
        let k = spec_line_break(s, i);
        let piece = spec_strip_cr(s.subrange(i, k));
        if k >= s.len() {
            seq![piece]
        } else {
            seq![piece] + spec_lines_from(s, k + 1)
        }
    }
}

#[via_fn]
proof fn spec_lines_from_decreases(s: Seq<char>, i: int) {
    if 0 <= i < s.len() {
        lemma_line_break_bounds(s, i);
    }
}

/// The lines of `s`.
pub open spec fn spec_lines(s: Seq<char>) -> Seq<Seq<char>> {
    spec_lines_from(s, 0)
}

/// The lines of `v`, as vectors.
fn split_lines(v: &Vec<char>) -> (r: Vec<Vec<char>>)
    ensures
        Seq::new(r@.len(), |k: int| r@[k]@) == spec_lines(v@),
{
    let mut out: Vec<Vec<char>> = Vec::new();
    let mut pos: usize = 0;
    let n = v.len();
    while pos < n
        invariant
            pos <= n,
            n == v@.len(),
            Seq::new(out@.len(), |k: int| out@[k]@) + spec_lines_from(v@, pos as int)
                =~= spec_lines(v@),
        decreases n - pos,
    {
        // find the break
        let mut k = pos;
        while k < n && v[k] != '\n'
            invariant
                pos <= k <= n,
                n == v@.len(),
                spec_line_break(v@, pos as int) == spec_line_break(v@, k as int),
            decreases n - k,
        {
            k = k + 1;
        }
        proof {
            assert(spec_line_break(v@, pos as int) == k);
        }
        // copy the piece, stripping a trailing '\r'
        let piece_end = if k > pos && v[k - 1] == '\r' {
            k - 1
        } else {
            k
        };
        let mut piece: Vec<char> = Vec::new();
        let mut m = pos;
        while m < piece_end
            invariant
                pos <= m <= piece_end <= v@.len(),
                piece@ == v@.subrange(pos as int, m as int),
            decreases piece_end - m,
        {
            piece.push(v[m]);
            m = m + 1;
            proof {
                assert(piece@ =~= v@.subrange(pos as int, m as int));
            }
        }
        proof {
            let whole = v@.subrange(pos as int, k as int);
            if k > pos && v@[k - 1] == '\r' {
                assert(whole.last() == '\r');
                assert(spec_strip_cr(whole) =~= v@.subrange(pos as int, piece_end as int));
            } else {
                if k > pos {
                    assert(whole.last() == v@[k - 1]);
                }
                assert(spec_strip_cr(whole) =~= v@.subrange(pos as int, piece_end as int));
            }
            assert(piece@ == spec_strip_cr(whole));
        }
        let ghost out_before = Seq::new(out@.len(), |q: int| out@[q]@);
        out.push(piece);
        proof {
            assert(Seq::new(out@.len(), |q: int| out@[q]@) =~= out_before.push(piece@));
        }
        if k == n {
            proof {
                assert(spec_lines_from(v@, pos as int) =~= seq![piece@]);
                assert(out_before.push(piece@) + spec_lines_from(v@, n as int) =~= out_before
                    + spec_lines_from(v@, pos as int));
            }
            pos = n;
        } else {
            proof {
                assert(spec_lines_from(v@, pos as int) =~= seq![piece@] + spec_lines_from(
                    v@,
                    k + 1,
                ));
                assert(out_before.push(piece@) + spec_lines_from(v@, k + 1) =~= out_before
                    + spec_lines_from(v@, pos as int));
            }
            pos = k + 1;
        }
    }
    proof {
        assert(spec_lines_from(v@, pos as int) =~= Seq::<Seq<char>>::empty());
        assert(Seq::new(out@.len(), |k: int| out@[k]@) + Seq::<Seq<char>>::empty() =~= Seq::new(
            out@.len(),
            |k: int| out@[k]@,
        ));
    }
    out
}

/// Whether a line, after leading whitespace, begins a code fence.
pub open spec fn spec_fence_line(l: Seq<char>) -> bool {
    spec_starts_with(l.subrange(spec_skip_uws(l, 0), l.len() as int), "```"@)
}

/// The index of the first fence line at or after `i`, or the end.
pub open spec fn spec_first_fence(ls: Seq<Seq<char>>, i: int) -> int
    decreases ls.len() - i,
{
    if 0 <= i < ls.len() {
        if spec_fence_line(ls[i]) {
            i
        } else {
            spec_first_fence(ls, i + 1)
        }
    } else {
        i
    }
}

/// Lines joined by single line breaks.
pub open spec fn spec_join_lines(ls: Seq<Seq<char>>) -> Seq<char>
    decreases ls.len(),
{
    if ls.len() == 0 {
        Seq::empty()
    } else if ls.len() == 1 {
        ls[0]
    } else {
        spec_join_lines(ls.drop_last()) + seq!['\n'] + ls.last()
    }
}

/// The fence-stripped form of raw planner text: trimmed, and if it starts
/// with a code fence, only the lines between the fences.
pub open spec fn spec_strip_fence(raw: Seq<char>) -> Seq<char> {
    let t = spec_trim(raw);
    if !spec_starts_with(t, "```"@) {
        t
    } else {
        let ls = spec_lines(t);
        let stop = spec_first_fence(ls, 1);
        spec_join_lines(ls.subrange(1, stop))
    }
}

/// Strips a surrounding markdown code fence, if any, after trimming.
pub fn strip_markdown_fence(v: &Vec<char>) -> (r: Vec<char>)
    ensures
        r@ == spec_strip_fence(v@),
{
    let t = trim_chars(v);
    let mut fence: Vec<char> = Vec::new();
    fence.push('`');
    fence.push('`');
    fence.push('`');
    proof {
        reveal_strlit("```");
        assert(fence@ =~= "```"@);
        assert(t@.subrange(0, t@.len() as int) =~= t@);
    }
    if !starts_with_at(&t, 0, &fence) {
        return t;
    }
    let lines = split_lines(&t);
    let ghost ls = spec_lines(t@);
    proof {
        assert(Seq::new(lines@.len(), |k: int| lines@[k]@) == ls);
        assert(t@.len() > 0);
        assert(ls.len() >= 1);
        assert(lines@.len() >= 1);
    }
    let mut stop: usize = 1;
    while stop < lines.len() && !line_is_fence(&lines[stop], &fence)
        invariant
            fence@ == "```"@,
            1 <= stop <= ls.len(),
            lines@.len() == ls.len(),
            forall|k: int| 0 <= k < ls.len() ==> (#[trigger] lines@[k])@ == ls[k],
            spec_first_fence(ls, 1) == spec_first_fence(ls, stop as int),
        decreases lines@.len() - stop,
    {
        stop = stop + 1;
    }
    proof {
        assert(spec_first_fence(ls, stop as int) == stop);
    }
    // join lines[1..stop] with '\n'
    let mut out: Vec<char> = Vec::new();
    let mut k: usize = 1;
    while k < stop
        invariant
            1 <= k <= stop || (stop == 0 && k == 1),
            stop <= lines@.len(),
            lines@.len() == ls.len(),
            forall|m: int| 0 <= m < ls.len() ==> (#[trigger] lines@[m])@ == ls[m],
            out@ =~= spec_join_lines(ls.subrange(1, k as int)),
        decreases stop - k,
    {
        let ghost pre = ls.subrange(1, k as int);
        let ghost cur = ls.subrange(1, k + 1);
        if k > 1 {
            out.push('\n');
        }
        let line = &lines[k];
        let mut m: usize = 0;
        let ghost mid = out@;
        while m < line.len()
            invariant
                m <= line@.len(),
                out@ == mid + line@.subrange(0, m as int),
            decreases line@.len() - m,
        {
            out.push(line[m]);
            m = m + 1;
            proof {
                assert(out@ =~= mid + line@.subrange(0, m as int));
            }
        }
        proof {
            assert(line@.subrange(0, line@.len() as int) =~= line@);
            assert(cur.drop_last() =~= pre);
            assert(cur.last() == ls[k as int]);
            if k == 1 {
                assert(spec_join_lines(cur) == cur[0]);
                assert(out@ =~= spec_join_lines(cur));
            } else {
                assert(out@ =~= spec_join_lines(cur));
            }
        }
        k = k + 1;
    }
    proof {
        if stop == 0 {
            assert(ls.subrange(1, 1) =~= ls.subrange(1, stop as int) || true);
        }
        assert(out@ =~= spec_join_lines(ls.subrange(1, stop as int)));
    }
    out
}

/// Whether the line begins a code fence after leading whitespace.
fn line_is_fence(l: &Vec<char>, fence: &Vec<char>) -> (r: bool)
    requires
        fence@ == "```"@,
    ensures
        r == spec_fence_line(l@),
{
    let a = skip_uws(l, 0);
    starts_with_at(l, a, fence)
}

/// The index of the first opening bracket or brace at or after `i`, or the
/// end of `s`.
pub open spec fn spec_first_open(s: Seq<char>, i: int) -> int
    decreases s.len() - i,
{
    if 0 <= i < s.len() {
        if s[i] == '{' || s[i] == '[' {
            i
        } else {
            spec_first_open(s, i + 1)
        }
    } else {
        i
    }
}

/// The index just after the bracket that closes a span opened before `i`,
/// scanning with `depth` pending openers; bracket kinds are not matched
/// against each other.
pub open spec fn spec_scan_depth(s: Seq<char>, i: int, depth: int) -> Option<int>
    decreases s.len() - i,
{
    if 0 <= i < s.len() {
        let c = s[i];
        if c == '{' || c == '[' {
            spec_scan_depth(s, i + 1, depth + 1)
        } else if c == '}' || c == ']' {
            if depth == 1 {
                Some(i + 1)
            } else {
                spec_scan_depth(s, i + 1, depth - 1)
            }
        } else {
            spec_scan_depth(s, i + 1, depth)
        }
    } else {
        None
    }
}

/// The first balanced `{...}` or `[...]` span of the trimmed text, prose
/// around it discarded; `None` when no span closes.
pub open spec fn spec_extract(s: Seq<char>) -> Option<Seq<char>> {
    let t = spec_trim(s);
    let st = spec_first_open(t, 0);
    if st >= t.len() {
        None
    } else {
        match spec_scan_depth(t, st + 1, 1) {
            Some(end) => Some(t.subrange(st, end)),
            None => None,
        }
    }
}

/// `spec_scan_depth` stays within bounds.
proof fn lemma_scan_depth_bounds(s: Seq<char>, i: int, depth: int)
    requires
        0 <= i <= s.len(),
    ensures
        spec_scan_depth(s, i, depth) matches Some(end) ==> i < end <= s.len(),
    decreases s.len() - i,
{
    if i < s.len() {
        lemma_scan_depth_bounds(s, i + 1, depth + 1);
        lemma_scan_depth_bounds(s, i + 1, depth - 1);
        lemma_scan_depth_bounds(s, i + 1, depth);
    }
}

/// Finds the first balanced bracketed span of the trimmed text.
pub fn extract_first_json_value(v: &Vec<char>) -> (r: Option<Vec<char>>)
    ensures
        match r {
            Some(sub) => spec_extract(v@) == Some(sub@),
            None => spec_extract(v@) is None,
        },
{
    let t = trim_chars(v);
    let n = t.len();
    let mut st: usize = 0;
    while st < n && !(t[st] == '{' || t[st] == '[')
        invariant
            st <= n,
            n == t@.len(),
            spec_first_open(t@, 0) == spec_first_open(t@, st as int),
        decreases n - st,
    {
        st = st + 1;
    }
    proof {
        assert(spec_first_open(t@, 0) == st);
    }
    if st >= n {
        return None;
    }
    let mut k = st + 1;
    let mut depth: usize = 1;
    while k < n
        invariant
            st + 1 <= k <= n,
            n == t@.len(),
            t@ == spec_trim(v@),
            spec_first_open(t@, 0) == st,
            1 <= depth <= k,
            spec_scan_depth(t@, st + 1, 1) == spec_scan_depth(t@, k as int, depth as int),
        decreases n - k,
    {
        let c = t[k];
        if c == '{' || c == '[' {
            depth = depth + 1;
        } else if c == '}' || c == ']' {
            if depth == 1 {
                let end = k + 1;
                proof {
                    assert(spec_scan_depth(t@, k as int, 1) == Some((k + 1) as int));
                }
                let mut out: Vec<char> = Vec::new();
                let mut m = st;
                while m < end
                    invariant
                        st <= m <= end <= t@.len(),
                        out@ == t@.subrange(st as int, m as int),
                    decreases end - m,
                {
                    out.push(t[m]);
                    m = m + 1;
                    proof {
                        assert(out@ =~= t@.subrange(st as int, m as int));
                    }
                }
                return Some(out);
            } else {
                depth = depth - 1;
            }
        }
        k = k + 1;
    }
    None
}

/// The repaired text from index `i` on, inside or outside a string literal
/// per `in_str`, just after an escaping backslash per `esc`. A `"` inside a
/// string is escaped unless the next non-whitespace character could
/// legitimately follow a string end; after such an escape, a `/` directly
/// followed (past whitespace) by `,`, `]` or `}` is dropped as part of the
/// stray-quoted run.
pub open spec fn spec_repair_from(s: Seq<char>, i: int, in_str: bool, esc: bool) -> Seq<char>
    decreases s.len() - i,
{
    if !(0 <= i < s.len()) {
        Seq::empty()
    } else {
        let c = s[i];
        if c == '"' {
            if !in_str {
                seq!['"'] + spec_repair_from(s, i + 1, true, esc)
            } else if esc {
                seq!['"'] + spec_repair_from(s, i + 1, true, false)
            } else {
                let nw = spec_skip_uws(s, i + 1);
                if nw >= s.len() || s[nw] == ',' || s[nw] == ']' || s[nw] == '}' || s[nw] == ':' {
                    seq!['"'] + spec_repair_from(s, i + 1, false, false)
                } else if i + 1 < s.len() && s[i + 1] == '/' {
                    let aw = spec_skip_uws(s, i + 2);
                    if aw < s.len() && (s[aw] == ',' || s[aw] == ']' || s[aw] == '}') {
                        seq!['\\', '"'] + spec_repair_from(s, i + 2, true, false)
                    } else {
                        seq!['\\', '"'] + spec_repair_from(s, i + 1, true, false)
                    }
                } else {
                    seq!['\\', '"'] + spec_repair_from(s, i + 1, true, false)
                }
            }
        } else if c == '\\' {
            seq!['\\'] + spec_repair_from(s, i + 1, in_str, in_str && !esc)
        } else {
            seq![c] + spec_repair_from(s, i + 1, in_str, false)
        }
    }
}

/// The quote-repaired form of `s`.
pub open spec fn spec_repair(s: Seq<char>) -> Seq<char> {
    spec_repair_from(s, 0, false, false)
}

/// Repairs stray unescaped quotes inside string literals.
pub fn repair_quotes_chars(v: &Vec<char>) -> (r: Vec<char>)
    ensures
        r@ == spec_repair(v@),
{
    let n = v.len();
    let mut out: Vec<char> = Vec::new();
    let mut k: usize = 0;
    let mut in_str = false;
    let mut esc = false;
    while k < n
        invariant
            k <= n,
            n == v@.len(),
            spec_repair(v@) == out@ + spec_repair_from(v@, k as int, in_str, esc),
        decreases n - k,
    {
        let ghost pre = out@;
        let c = v[k];
        if c == '"' {
            if !in_str {
                out.push('"');
                in_str = true;
                k = k + 1;
            } else if esc {
                out.push('"');
                esc = false;
                k = k + 1;
            } else {
                let nw = skip_uws(v, k + 1);
                let closes = nw >= n || v[nw] == ',' || v[nw] == ']' || v[nw] == '}' || v[nw]
                    == ':';
                if closes {
                    out.push('"');
                    in_str = false;
                    esc = false;
                    k = k + 1;
                } else {
                    out.push('\\');
                    out.push('"');
                    esc = false;
                    if k + 1 < n && v[k + 1] == '/' {
                        let aw = skip_uws(v, k + 2);
                        if aw < n && (v[aw] == ',' || v[aw] == ']' || v[aw] == '}') {
                            k = k + 2;
                        } else {
                            k = k + 1;
                        }
                    } else {
                        k = k + 1;
                    }
                    proof {
                        assert(pre + (seq!['\\', '"'] + spec_repair_from(
                            v@,
                            k as int,
                            in_str,
                            esc,
                        )) =~= out@ + spec_repair_from(v@, k as int, in_str, esc));
                    }
                }
            }
        } else if c == '\\' {
            out.push('\\');
            esc = in_str && !esc;
            k = k + 1;
        } else {
            out.push(c);
            esc = false;
            k = k + 1;
        }
        proof {
            assert(spec_repair(v@) == out@ + spec_repair_from(v@, k as int, in_str, esc));
        }
    }
    proof {
        assert(out@ + spec_repair_from(v@, k as int, in_str, esc) =~= out@);
    }
    out
}

/// Repairs stray unescaped quotes inside string literals: inside a string, a
/// `"` whose next non-whitespace character is not one of `,`, `]`, `}`, `:`
/// is taken for a stray delimiter and escaped rather than closing the string.
pub fn repair_unescaped_quotes(value: &str) -> (r: String)
    ensures
        r@ == spec_repair(value@),
{
    let v = str_chars(value);
    let out = repair_quotes_chars(&v);
    chars_string(&out)
}

/// The value of the first member named `key` at or after position `i`.
pub open spec fn spec_obj_get_from(
    fields: Seq<(Seq<char>, JsonV)>,
    key: Seq<char>,
    i: int,
) -> Option<JsonV>
    decreases fields.len() - i,
{
    if !(0 <= i < fields.len()) {
        None
    } else if fields[i].0 == key {
        Some(fields[i].1)
    } else {
        spec_obj_get_from(fields, key, i + 1)
    }
}

/// The value of the first member named `key`, if any.
pub open spec fn spec_obj_get(fields: Seq<(Seq<char>, JsonV)>, key: Seq<char>) -> Option<JsonV> {
    spec_obj_get_from(fields, key, 0)
}

/// Finds the first member named `key`.
pub(crate) fn obj_get<'a>(fields: &'a Vec<(String, Json)>, key: &str) -> (r: Option<&'a Json>)
    ensures
        match r {
            Some(x) => spec_obj_get(json_view_fields(fields@), key@) == Some(x@),
            None => spec_obj_get(json_view_fields(fields@), key@) is None,
        },
{
    let ghost fs = json_view_fields(fields@);
    proof {
        lemma_json_view_fields_index(fields@);
    }
    let mut k: usize = 0;
    while k < fields.len()
        invariant
            k <= fields@.len(),
            fs == json_view_fields(fields@),
            fs.len() == fields@.len(),
            forall|m: int| 0 <= m < fields@.len() ==> fs[m] == ((#[trigger] fields@[m]).0@,
                json_view(fields@[m].1)),
            spec_obj_get_from(fs, key@, 0) == spec_obj_get_from(fs, key@, k as int),
        decreases fields@.len() - k,
    {
        if str_eq_str(fields[k].0.as_str(), key) {
            return Some(&fields[k].1);
        }
        k = k + 1;
    }
    None
}

/// A whole number that fits a `u32`, as the schema's numeric fields require.
pub open spec fn spec_as_u32(j: JsonV) -> Option<u32> {
    match j {
        JsonV::Int(n) => if 0 <= n <= u32::MAX {
            Some(n as u32)
        } else {
            None
        },
        _ => None,
    }
}

/// Reads a whole number that fits a `u32`.
pub(crate) fn as_u32(j: &Json) -> (r: Option<u32>)
    ensures
        r == spec_as_u32(j@),
{
    match j {
        Json::Int(n) => {
            if 0 <= *n && *n <= 0xFFFF_FFFFi64 {
                Some(*n as u32)
            } else {
                None
            }
        },
        _ => None,
    }
}

/// An optional string member: absent or null means none; a string is some;
/// anything else refuses the document.
pub open spec fn spec_opt_str_field(
    fields: Seq<(Seq<char>, JsonV)>,
    key: Seq<char>,
) -> Option<Option<Seq<char>>> {
    match spec_obj_get(fields, key) {
        None => Some(None),
        Some(JsonV::Null) => Some(None),
        Some(JsonV::Str(s)) => Some(Some(s)),
        Some(_) => None,
    }
}

/// Reads an optional string member.
pub(crate) fn opt_str_field(fields: &Vec<(String, Json)>, key: &str) -> (r: Option<
    Option<String>,
>)
    ensures
        match r {
            Some(opt) => spec_opt_str_field(json_view_fields(fields@), key@) == Some(
                crate::plan::opt_string_view(opt),
            ),
            None => spec_opt_str_field(json_view_fields(fields@), key@) is None,
        },
{
    match obj_get(fields, key) {
        None => Some(None),
        Some(Json::Null) => Some(None),
        Some(Json::Str(s)) => Some(Some(s.clone())),
        Some(_) => None,
    }
}

/// The strings of a JSON array from position `i` on; any non-string element
/// refuses the document.
pub open spec fn spec_decode_strings(items: Seq<JsonV>, i: int) -> Option<Seq<Seq<char>>>
    decreases items.len() - i,
{
    if !(0 <= i < items.len()) {
        Some(Seq::empty())
    } else {
        match items[i] {
            JsonV::Str(s) => match spec_decode_strings(items, i + 1) {
                Some(rest) => Some(seq![s] + rest),
                None => None,
            },
            _ => None,
        }
    }
}

/// Reads an array of strings.
pub(crate) fn decode_strings(items: &Vec<Json>) -> (r: Option<Vec<String>>)
    ensures
        match r {
            Some(out) => spec_decode_strings(json_view_list(items@), 0) == Some(
                Seq::new(out@.len(), |k: int| out@[k]@),
            ),
            None => spec_decode_strings(json_view_list(items@), 0) is None,
        },
{
    let ghost vs = json_view_list(items@);
    proof {
        lemma_json_view_list_index(items@);
    }
    let mut out: Vec<String> = Vec::new();
    let mut k: usize = 0;
    while k < items.len()
        invariant
            k <= items@.len(),
            out@.len() == k,
            vs == json_view_list(items@),
            vs.len() == items@.len(),
            forall|m: int| 0 <= m < items@.len() ==> vs[m] == json_view(#[trigger] items@[m]),
            spec_decode_strings(vs, 0) == (match spec_decode_strings(vs, k as int) {
                Some(rest) => Some(Seq::new(out@.len(), |m: int| out@[m]@) + rest),
                None => None::<Seq<Seq<char>>>,
            }),
        decreases items@.len() - k,
    {
        let ghost before = Seq::new(out@.len(), |m: int| out@[m]@);
        match &items[k] {
            Json::Str(s) => {
                out.push(s.clone());
            },
            _ => {
                return None;
            },
        }
        k = k + 1;
        proof {
            let now = Seq::new(out@.len(), |m: int| out@[m]@);
            assert(now =~= before.push(vs[k - 1]->Str_0));
            match spec_decode_strings(vs, k as int) {
                Some(rest) => {
                    assert(spec_decode_strings(vs, k - 1) == Some::<Seq<Seq<char>>>(
                        seq![vs[k - 1]->Str_0] + rest,
                    ));
                    assert(before + (seq![vs[k - 1]->Str_0] + rest) =~= now + rest);
                },
                None => {
                    assert(spec_decode_strings(vs, k - 1) is None);
                },
            }
        }
    }
    proof {
        assert(spec_decode_strings(vs, k as int) == Some(Seq::<Seq<char>>::empty()));
        assert(Seq::new(out@.len(), |m: int| out@[m]@) + Seq::<Seq<char>>::empty() =~= Seq::new(
            out@.len(),
            |m: int| out@[m]@,
        ));
    }
    Some(out)
}

/// One task in the canonical schema: `command` and `task_number` are
/// required; `args` defaults to empty; `timeout_secs` defaults to 300;
/// `input_from_task` is optional, with `null` meaning absent.
pub open spec fn spec_decode_step(j: JsonV) -> Option<PlanStepV> {
    match j {
        JsonV::Obj(fields) => {
            let cmd = match spec_obj_get(fields, "command"@) {
                Some(JsonV::Str(s)) => Some(s),
                _ => None,
            };
            let tn = match spec_obj_get(fields, "task_number"@) {
                Some(x) => spec_as_u32(x),
                None => None,
            };
            let args = match spec_obj_get(fields, "args"@) {
                None => Some(Seq::<Seq<char>>::empty()),
                Some(JsonV::Arr(items)) => spec_decode_strings(items, 0),
                Some(_) => None,
            };
            let timeout = match spec_obj_get(fields, "timeout_secs"@) {
                None => Some(300u32),
                Some(x) => spec_as_u32(x),
            };
            let input = match spec_obj_get(fields, "input_from_task"@) {
                None => Some(None),
                Some(JsonV::Null) => Some(None),
                Some(x) => match spec_as_u32(x) {
                    Some(v) => Some(Some(v)),
                    None => None,
                },
            };
            match (cmd, tn, args, timeout, input) {
                (Some(c), Some(t), Some(a), Some(ts), Some(inp)) => Some(
                    PlanStepV {
                        task_number: t,
                        command: c,
                        args: a,
                        timeout_secs: ts,
                        input_from_task: inp,
                    },
                ),
                _ => None,
            }
        },
        _ => None,
    }
}

/// Reads one task in the canonical schema.
fn decode_step(j: &Json) -> (r: Option<PlanStep>)
    ensures
        match r {
            Some(step) => spec_decode_step(j@) == Some(step@),
            None => spec_decode_step(j@) is None,
        },
{
    let fields = match j {
        Json::Obj(fields) => fields,
        _ => {
            return None;
        },
    };
    let command = match obj_get(fields, "command") {
        Some(Json::Str(s)) => s.clone(),
        _ => {
            return None;
        },
    };
    let task_number = match obj_get(fields, "task_number") {
        Some(x) => match as_u32(x) {
            Some(v) => v,
            None => {
                return None;
            },
        },
        None => {
            return None;
        },
    };
    let args = match obj_get(fields, "args") {
        None => Vec::new(),
        Some(Json::Arr(items)) => match decode_strings(items) {
            Some(a) => a,
            None => {
                return None;
            },
        },
        Some(_) => {
            return None;
        },
    };
    let timeout_secs = match obj_get(fields, "timeout_secs") {
        None => 300,
        Some(x) => match as_u32(x) {
            Some(v) => v,
            None => {
                return None;
            },
        },
    };
    let input_from_task = match obj_get(fields, "input_from_task") {
        None => None,
        Some(Json::Null) => None,
        Some(x) => match as_u32(x) {
            Some(v) => Some(v),
            None => {
                return None;
            },
        },
    };
    let step = PlanStep { task_number, command, args, timeout_secs, input_from_task };
    proof {
        assert(step@.args =~= spec_decode_step(j@)->Some_0.args);
        assert(step@ =~~= spec_decode_step(j@)->Some_0);
    }
    Some(step)
}

/// One task in the legacy schema: `cmd` is required; `args` defaults to
/// empty; `input_from_step` and `timeout_secs` are optional, with `null`
/// meaning absent; the task's number is its position, counted from one.
pub open spec fn spec_decode_legacy_step(j: JsonV, num: u32) -> Option<PlanStepV> {
    match j {
        JsonV::Obj(fields) => {
            let cmd = match spec_obj_get(fields, "cmd"@) {
                Some(JsonV::Str(s)) => Some(s),
                _ => None,
            };
            let args = match spec_obj_get(fields, "args"@) {
                None => Some(Seq::<Seq<char>>::empty()),
                Some(JsonV::Arr(items)) => spec_decode_strings(items, 0),
                Some(_) => None,
            };
            let timeout = match spec_obj_get(fields, "timeout_secs"@) {
                None => Some(300u32),
                Some(JsonV::Null) => Some(300u32),
                Some(x) => spec_as_u32(x),
            };
            let input = match spec_obj_get(fields, "input_from_step"@) {
                None => Some(None),
                Some(JsonV::Null) => Some(None),
                Some(x) => match spec_as_u32(x) {
                    Some(v) => Some(Some(v)),
                    None => None,
                },
            };
            match (cmd, args, timeout, input) {
                (Some(c), Some(a), Some(ts), Some(inp)) => Some(
                    PlanStepV {
                        task_number: num,
                        command: c,
                        args: a,
                        timeout_secs: ts,
                        input_from_task: inp,
                    },
                ),
                _ => None,
            }
        },
        _ => None,
    }
}

/// Reads one task in the legacy schema, numbered `num`.
fn decode_legacy_step(j: &Json, num: u32) -> (r: Option<PlanStep>)
    ensures
        match r {
            Some(step) => spec_decode_legacy_step(j@, num) == Some(step@),
            None => spec_decode_legacy_step(j@, num) is None,
        },
{
    let fields = match j {
        Json::Obj(fields) => fields,
        _ => {
            return None;
        },
    };
    let command = match obj_get(fields, "cmd") {
        Some(Json::Str(s)) => s.clone(),
        _ => {
            return None;
        },
    };
    let args = match obj_get(fields, "args") {
        None => Vec::new(),
        Some(Json::Arr(items)) => match decode_strings(items) {
            Some(a) => a,
            None => {
                return None;
            },
        },
        Some(_) => {
            return None;
        },
    };
    let timeout_secs = match obj_get(fields, "timeout_secs") {
        None => 300,
        Some(Json::Null) => 300,
        Some(x) => match as_u32(x) {
            Some(v) => v,
            None => {
                return None;
            },
        },
    };
    let input_from_task = match obj_get(fields, "input_from_step") {
        None => None,
        Some(Json::Null) => None,
        Some(x) => match as_u32(x) {
            Some(v) => Some(v),
            None => {
                return None;
            },
        },
    };
    let step = PlanStep { task_number: num, command, args, timeout_secs, input_from_task };
    proof {
        assert(step@.args =~= spec_decode_legacy_step(j@, num)->Some_0.args);
        assert(step@ =~~= spec_decode_legacy_step(j@, num)->Some_0);
    }
    Some(step)
}

/// The canonical tasks of an array from position `i` on; all-or-nothing.
pub open spec fn spec_decode_steps(items: Seq<JsonV>, i: int) -> Option<Seq<PlanStepV>>
    decreases items.len() - i,
{
    if !(0 <= i < items.len()) {
        Some(Seq::empty())
    } else {
        match spec_decode_step(items[i]) {
            Some(step) => match spec_decode_steps(items, i + 1) {
                Some(rest) => Some(seq![step] + rest),
                None => None,
            },
            None => None,
        }
    }
}

/// Reads an array of canonical tasks.
fn decode_steps(items: &Vec<Json>) -> (r: Option<Vec<PlanStep>>)
    ensures
        match r {
            Some(out) => spec_decode_steps(json_view_list(items@), 0) == Some(
                plan_steps_view(out@),
            ),
            None => spec_decode_steps(json_view_list(items@), 0) is None,
        },
{
    let ghost vs = json_view_list(items@);
    proof {
        lemma_json_view_list_index(items@);
    }
    let mut out: Vec<PlanStep> = Vec::new();
    let mut k: usize = 0;
    while k < items.len()
        invariant
            k <= items@.len(),
            out@.len() == k,
            vs == json_view_list(items@),
            vs.len() == items@.len(),
            forall|m: int| 0 <= m < items@.len() ==> vs[m] == json_view(#[trigger] items@[m]),
            spec_decode_steps(vs, 0) == (match spec_decode_steps(vs, k as int) {
                Some(rest) => Some(plan_steps_view(out@) + rest),
                None => None::<Seq<PlanStepV>>,
            }),
        decreases items@.len() - k,
    {
        let ghost before = plan_steps_view(out@);
        match decode_step(&items[k]) {
            Some(step) => {
                out.push(step);
            },
            None => {
                return None;
            },
        }
        k = k + 1;
        proof {
            let now = plan_steps_view(out@);
            assert(now =~= before.push(out@.last()@));
            match spec_decode_steps(vs, k as int) {
                Some(rest) => {
                    assert(before + (seq![out@.last()@] + rest) =~= now + rest);
                },
                None => {
                },
            }
        }
    }
    proof {
        assert(spec_decode_steps(vs, k as int) == Some(Seq::<PlanStepV>::empty()));
        assert(plan_steps_view(out@) + Seq::<PlanStepV>::empty() =~= plan_steps_view(out@));
    }
    Some(out)
}

/// The legacy tasks of an array from position `i` on, numbered from `i + 1`;
/// all-or-nothing.
pub open spec fn spec_decode_legacy_steps(items: Seq<JsonV>, i: int) -> Option<Seq<PlanStepV>>
    decreases items.len() - i,
{
    if !(0 <= i < items.len()) {
        Some(Seq::empty())
    } else {
        match spec_decode_legacy_step(items[i], ((i + 1) as u32)) {
            Some(step) => match spec_decode_legacy_steps(items, i + 1) {
                Some(rest) => Some(seq![step] + rest),
                None => None,
            },
            None => None,
        }
    }
}

/// Reads an array of legacy tasks, numbering them from one.
fn decode_legacy_steps(items: &Vec<Json>) -> (r: Option<Vec<PlanStep>>)
    ensures
        match r {
            Some(out) => spec_decode_legacy_steps(json_view_list(items@), 0) == Some(
                plan_steps_view(out@),
            ),
            None => spec_decode_legacy_steps(json_view_list(items@), 0) is None,
        },
{
    let ghost vs = json_view_list(items@);
    proof {
        lemma_json_view_list_index(items@);
    }
    let mut out: Vec<PlanStep> = Vec::new();
    let mut k: usize = 0;
    while k < items.len()
        invariant
            k <= items@.len(),
            out@.len() == k,
            vs == json_view_list(items@),
            vs.len() == items@.len(),
            forall|m: int| 0 <= m < items@.len() ==> vs[m] == json_view(#[trigger] items@[m]),
            spec_decode_legacy_steps(vs, 0) == (match spec_decode_legacy_steps(vs, k as int) {
                Some(rest) => Some(plan_steps_view(out@) + rest),
                None => None::<Seq<PlanStepV>>,
            }),
        decreases items@.len() - k,
    {
        let ghost before = plan_steps_view(out@);
        match decode_legacy_step(&items[k], #[verifier::truncate] ((k + 1) as u32)) {
            Some(step) => {
                out.push(step);
            },
            None => {
                return None;
            },
        }
        k = k + 1;
        proof {
            let now = plan_steps_view(out@);
            assert(now =~= before.push(out@.last()@));
            match spec_decode_legacy_steps(vs, k as int) {
                Some(rest) => {
                    assert(before + (seq![out@.last()@] + rest) =~= now + rest);
                },
                None => {
                },
            }
        }
    }
    proof {
        assert(spec_decode_legacy_steps(vs, k as int) == Some(Seq::<PlanStepV>::empty()));
        assert(plan_steps_view(out@) + Seq::<PlanStepV>::empty() =~= plan_steps_view(out@));
    }
    Some(out)
}

/// Tasks with a zero task number take their position, counted from one;
/// others keep their stated numbers.
pub open spec fn spec_fix_zero(tasks: Seq<PlanStepV>) -> Seq<PlanStepV> {
    Seq::new(
        tasks.len(),
        |k: int| if tasks[k].task_number == 0 {
            PlanStepV { task_number: ((k + 1) as u32), ..tasks[k] }
        } else {
            tasks[k]
        },
    )
}

/// The commands of a simple plan as tasks: numbered from one, no arguments,
/// the default timeout, no dependencies.
pub open spec fn spec_steps_of_commands(cmds: Seq<Seq<char>>) -> Seq<PlanStepV> {
    Seq::new(
        cmds.len(),
        |k: int| PlanStepV {
            task_number: ((k + 1) as u32),
            command: cmds[k],
            args: Seq::empty(),
            timeout_secs: 300,
            input_from_task: None,
        },
    )
}

/// A plan in the canonical schema: a required `tasks` array of canonical
/// tasks and optional `plan_id` and `plan_description` strings; tasks with a
/// zero number take their position.
pub open spec fn spec_decode_canonical(j: JsonV) -> Option<WorkflowPlanV> {
    match j {
        JsonV::Obj(fields) => {
            match spec_obj_get(fields, "tasks"@) {
                Some(JsonV::Arr(items)) => match spec_decode_steps(items, 0) {
                    Some(tasks) => match spec_opt_str_field(fields, "plan_id"@) {
                        Some(pid) => match spec_opt_str_field(fields, "plan_description"@) {
                            Some(pd) => Some(
                                WorkflowPlanV {
                                    plan_id: pid,
                                    plan_description: pd,
                                    tasks: spec_fix_zero(tasks),
                                },
                            ),
                            None => None,
                        },
                        None => None,
                    },
                    None => None,
                },
                _ => None,
            }
        },
        _ => None,
    }
}

/// A plan in the legacy schema: a required `plan` array of legacy tasks.
pub open spec fn spec_decode_legacy(j: JsonV) -> Option<WorkflowPlanV> {
    match j {
        JsonV::Obj(fields) => {
            match spec_obj_get(fields, "plan"@) {
                Some(JsonV::Arr(items)) => match spec_decode_legacy_steps(items, 0) {
                    Some(tasks) => Some(
                        WorkflowPlanV { plan_id: None, plan_description: None, tasks },
                    ),
                    None => None,
                },
                _ => None,
            }
        },
        _ => None,
    }
}

/// A plan in the simple schema: a required `plan` array of command strings.
pub open spec fn spec_decode_simple(j: JsonV) -> Option<WorkflowPlanV> {
    match j {
        JsonV::Obj(fields) => {
            match spec_obj_get(fields, "plan"@) {
                Some(JsonV::Arr(items)) => match spec_decode_strings(items, 0) {
                    Some(cmds) => Some(
                        WorkflowPlanV {
                            plan_id: None,
                            plan_description: None,
                            tasks: spec_steps_of_commands(cmds),
                        },
                    ),
                    None => None,
                },
                _ => None,
            }
        },
        _ => None,
    }
}

/// A bare array of canonical tasks, taken as they stand.
pub open spec fn spec_decode_arr_steps(j: JsonV) -> Option<WorkflowPlanV> {
    match j {
        JsonV::Arr(items) => match spec_decode_steps(items, 0) {
            Some(tasks) => Some(WorkflowPlanV { plan_id: None, plan_description: None, tasks }),
            None => None,
        },
        _ => None,
    }
}

/// A bare array of legacy tasks.
pub open spec fn spec_decode_arr_legacy(j: JsonV) -> Option<WorkflowPlanV> {
    match j {
        JsonV::Arr(items) => match spec_decode_legacy_steps(items, 0) {
            Some(tasks) => Some(WorkflowPlanV { plan_id: None, plan_description: None, tasks }),
            None => None,
        },
        _ => None,
    }
}

/// A bare array of command strings.
pub open spec fn spec_decode_arr_strings(j: JsonV) -> Option<WorkflowPlanV> {
    match j {
        JsonV::Arr(items) => match spec_decode_strings(items, 0) {
            Some(cmds) => Some(
                WorkflowPlanV {
                    plan_id: None,
                    plan_description: None,
                    tasks: spec_steps_of_commands(cmds),
                },
            ),
            None => None,
        },
        _ => None,
    }
}

/// The accepted schemas, in priority order: canonical, legacy, simple, then
/// the three bare-array forms.
pub open spec fn spec_try_forms(j: JsonV) -> Option<WorkflowPlanV> {
    if spec_decode_canonical(j) is Some {
        spec_decode_canonical(j)
    } else if spec_decode_legacy(j) is Some {
        spec_decode_legacy(j)
    } else if spec_decode_simple(j) is Some {
        spec_decode_simple(j)
    } else if spec_decode_arr_steps(j) is Some {
        spec_decode_arr_steps(j)
    } else if spec_decode_arr_legacy(j) is Some {
        spec_decode_arr_legacy(j)
    } else {
        spec_decode_arr_strings(j)
    }
}

/// Renumbers tasks whose stated number is zero to their position.
fn fix_zero_numbers(tasks: Vec<PlanStep>) -> (r: Vec<PlanStep>)
    ensures
        plan_steps_view(r@) == spec_fix_zero(plan_steps_view(tasks@)),
{
    let ghost orig = plan_steps_view(tasks@);
    let mut rest = tasks;
    let total = rest.len();
    proof {
        assert(orig.len() == total);
    }
    let mut out: Vec<PlanStep> = Vec::new();
    while rest.len() > 0
        invariant
            orig.len() == out@.len() + rest@.len(),
            orig.len() <= usize::MAX,
            forall|k: int|
                0 <= k < rest@.len() ==> orig[out@.len() + k] == (#[trigger] rest@[k])@,
            plan_steps_view(out@) =~= spec_fix_zero(orig).subrange(0, out@.len() as int),
        decreases rest@.len(),
    {
        let mut t = rest.remove(0);
        let n = out.len();
        if t.task_number == 0 {
            t.task_number = #[verifier::truncate] ((n + 1) as u32);
        }
        out.push(t);
        proof {
            assert(plan_steps_view(out@) =~= spec_fix_zero(orig).subrange(0, out@.len() as int));
        }
    }
    proof {
        assert(spec_fix_zero(orig).subrange(0, out@.len() as int) =~= spec_fix_zero(orig));
    }
    out
}

/// Builds the tasks of a simple plan from its command names.
fn steps_of_commands(cmds: Vec<String>) -> (r: Vec<PlanStep>)
    ensures
        plan_steps_view(r@) == spec_steps_of_commands(Seq::new(cmds@.len(), |k: int| cmds@[k]@)),
{
    let ghost cs = Seq::new(cmds@.len(), |k: int| cmds@[k]@);
    let mut rest = cmds;
    let total = rest.len();
    proof {
        assert(cs.len() == total);
    }
    let mut out: Vec<PlanStep> = Vec::new();
    while rest.len() > 0
        invariant
            cs.len() == out@.len() + rest@.len(),
            cs.len() <= usize::MAX,
            forall|k: int| 0 <= k < rest@.len() ==> cs[out@.len() + k] == (#[trigger] rest@[k])@,
            plan_steps_view(out@) =~= spec_steps_of_commands(cs).subrange(0, out@.len() as int),
        decreases rest@.len(),
    {
        let cmd = rest.remove(0);
        let n = out.len();
        let step = PlanStep {
            task_number: #[verifier::truncate] ((n + 1) as u32),
            command: cmd,
            args: Vec::new(),
            timeout_secs: 300,
            input_from_task: None,
        };
        out.push(step);
        proof {
            assert(out@.last()@ =~~= spec_steps_of_commands(cs)[out@.len() - 1]);
            assert(plan_steps_view(out@) =~= spec_steps_of_commands(cs).subrange(
                0,
                out@.len() as int,
            ));
        }
    }
    proof {
        assert(spec_steps_of_commands(cs).subrange(0, out@.len() as int) =~= spec_steps_of_commands(
            cs,
        ));
    }
    out
}

/// Reads a plan in the canonical schema.
pub(crate) fn decode_canonical(j: &Json) -> (r: Option<WorkflowPlan>)
    ensures
        match r {
            Some(p) => spec_decode_canonical(j@) == Some(p@),
            None => spec_decode_canonical(j@) is None,
        },
{
    if let Json::Obj(fields) = j {
        if let Some(Json::Arr(items)) = obj_get(fields, "tasks") {
            if let Some(tasks) = decode_steps(items) {
                if let Some(pid) = opt_str_field(fields, "plan_id") {
                    if let Some(pd) = opt_str_field(fields, "plan_description") {
                        let fixed = fix_zero_numbers(tasks);
                        let p = WorkflowPlan {
                            plan_id: pid,
                            plan_description: pd,
                            tasks: fixed,
                        };
                        proof {
                            assert(p@ =~~= spec_decode_canonical(j@)->Some_0);
                        }
                        return Some(p);
                    }
                }
            }
        }
    }
    proof {
        assert(spec_decode_canonical(j@) is None);
    }
    None
}

/// Tries the accepted schemas on a parsed document, in priority order.
fn try_all_known_forms(j: &Json) -> (r: Option<WorkflowPlan>)
    ensures
        match r {
            Some(p) => spec_try_forms(j@) == Some(p@),
            None => spec_try_forms(j@) is None,
        },
{
    if let Some(p) = decode_canonical(j) {
        return Some(p);
    }
    // legacy and simple share the `plan` member
    if let Json::Obj(fields) = j {
        if let Some(Json::Arr(items)) = obj_get(fields, "plan") {
            if let Some(tasks) = decode_legacy_steps(items) {
                let p = WorkflowPlan { plan_id: None, plan_description: None, tasks };
                proof {
                    assert(p@ =~~= spec_decode_legacy(j@)->Some_0);
                }
                return Some(p);
            }
            if let Some(cmds) = decode_strings(items) {
                let tasks = steps_of_commands(cmds);
                let p = WorkflowPlan { plan_id: None, plan_description: None, tasks };
                proof {
                    assert(spec_decode_legacy(j@) is None);
                    assert(p@ =~~= spec_decode_simple(j@)->Some_0);
                }
                return Some(p);
            }
        }
    }
    proof {
        assert(spec_decode_legacy(j@) is None);
        assert(spec_decode_simple(j@) is None);
    }
    // bare arrays
    if let Json::Arr(items) = j {
        if let Some(tasks) = decode_steps(items) {
            let p = WorkflowPlan { plan_id: None, plan_description: None, tasks };
            proof {
                assert(p@ =~~= spec_decode_arr_steps(j@)->Some_0);
            }
            return Some(p);
        }
        if let Some(tasks) = decode_legacy_steps(items) {
            let p = WorkflowPlan { plan_id: None, plan_description: None, tasks };
            proof {
                assert(spec_decode_arr_steps(j@) is None);
                assert(p@ =~~= spec_decode_arr_legacy(j@)->Some_0);
            }
            return Some(p);
        }
        if let Some(cmds) = decode_strings(items) {
            let tasks = steps_of_commands(cmds);
            let p = WorkflowPlan { plan_id: None, plan_description: None, tasks };
            proof {
                assert(spec_decode_arr_steps(j@) is None);
                assert(spec_decode_arr_legacy(j@) is None);
                assert(p@ =~~= spec_decode_arr_strings(j@)->Some_0);
            }
            return Some(p);
        }
    }
    proof {
        assert(spec_try_forms(j@) is None);
    }
    None
}

/// Why a text could not be read as a plan.
#[derive(Debug, Clone, PartialEq, Eq, Structural)]
pub enum PlanParseError {
    /// The text, after every recovery attempt, is not a JSON document.
    InvalidJson,
    /// The text is a JSON document, but matches none of the accepted plan
    /// schemas.
    UnrecognizedShape,
}

impl PlanParseError {
    /// A short account of the failure.
    pub fn describe(&self) -> (r: String)
        ensures
            self is InvalidJson ==> r@ == "invalid JSON document"@,
            self is UnrecognizedShape ==> r@ == "JSON does not match any known plan shape"@,
    {
        match self {
            PlanParseError::InvalidJson => "invalid JSON document".to_owned(),
            PlanParseError::UnrecognizedShape => (
            "JSON does not match any known plan shape").to_owned(),
        }
    }
}

/// One recovery attempt on a candidate text: parse it and try the schemas;
/// failing that, parse and try the first balanced bracketed span.
pub open spec fn spec_attempt(t: Seq<char>) -> Option<WorkflowPlanV> {
    let direct = match spec_parse_json(t) {
        Some(j) => spec_try_forms(j),
        None => None,
    };
    if direct is Some {
        direct
    } else {
        match spec_extract(t) {
            Some(sub) => match spec_parse_json(sub) {
                Some(j) => spec_try_forms(j),
                None => None,
            },
            None => None,
        }
    }
}

/// The whole recovery cascade: strip a fence, attempt the text, then attempt
/// its quote-repaired form if the repair changed anything.
pub open spec fn spec_from_str(raw: Seq<char>) -> Option<WorkflowPlanV> {
    let s = spec_strip_fence(raw);
    if spec_attempt(s) is Some {
        spec_attempt(s)
    } else {
        let rep = spec_repair(s);
        if rep != s {
            spec_attempt(rep)
        } else {
            None
        }
    }
}

/// The JSON tree of one task, in the canonical schema: the dependency link
/// only when there is one.
pub open spec fn spec_step_to_json(t: PlanStepV) -> JsonV {
    JsonV::Obj(
        seq![
            ("task_number"@, JsonV::Int(t.task_number as int)),
            ("command"@, JsonV::Str(t.command)),
            ("args"@, JsonV::Arr(Seq::new(t.args.len(), |k: int| JsonV::Str(t.args[k])))),
            ("timeout_secs"@, JsonV::Int(t.timeout_secs as int)),
        ] + (match t.input_from_task {
            Some(r) => seq![("input_from_task"@, JsonV::Int(r as int))],
            None => Seq::empty(),
        }),
    )
}

/// The JSON tree of a plan, in the canonical schema: the optional
/// identifiers only when they are there.
pub open spec fn spec_plan_to_json(p: WorkflowPlanV) -> JsonV {
    JsonV::Obj(
        (match p.plan_id {
            Some(s) => seq![("plan_id"@, JsonV::Str(s))],
            None => Seq::empty(),
        }) + (match p.plan_description {
            Some(s) => seq![("plan_description"@, JsonV::Str(s))],
            None => Seq::empty(),
        }) + seq![
            ("tasks"@, JsonV::Arr(Seq::new(p.tasks.len(), |k: int| spec_step_to_json(p.tasks[k])))),
        ],
    )
}

/// Builds the JSON tree of one task.
fn step_to_json(t: &PlanStep) -> (r: Json)
    ensures
        r@ == spec_step_to_json(t@),
{
    let mut fields: Vec<(String, Json)> = Vec::new();
    fields.push(("task_number".to_owned(), Json::Int(t.task_number as i64)));
    fields.push(("command".to_owned(), Json::Str(t.command.clone())));
    let mut args: Vec<Json> = Vec::new();
    let mut k: usize = 0;
    while k < t.args.len()
        invariant
            k <= t.args@.len(),
            args@.len() == k,
            forall|m: int| 0 <= m < k ==> json_view(#[trigger] args@[m]) == JsonV::Str(
                t.args@[m]@,
            ),
        decreases t.args@.len() - k,
    {
        args.push(Json::Str(t.args[k].clone()));
        k = k + 1;
    }
    proof {
        lemma_json_view_list_index(args@);
        assert forall|m: int| 0 <= m < args@.len() implies json_view_list(args@)[m]
            == JsonV::Str(t.args@[m]@) by {
            assert(json_view(args@[m]) == JsonV::Str(t.args@[m]@));
        }
        assert(json_view_list(args@) =~= Seq::new(
            t.args@.len() as nat,
            |m: int| JsonV::Str(t.args@[m]@),
        ));
    }
    fields.push(("args".to_owned(), Json::Arr(args)));
    fields.push(("timeout_secs".to_owned(), Json::Int(t.timeout_secs as i64)));
    match t.input_from_task {
        Some(r) => {
            fields.push(("input_from_task".to_owned(), Json::Int(r as i64)));
        },
        None => {
        },
    }
    let ghost fs = fields@;
    let j = Json::Obj(fields);
    proof {
        lemma_json_view_fields_index(fs);
        assert(Seq::new(t@.args.len(), |m: int| JsonV::Str(t@.args[m])) =~= Seq::new(
            t.args@.len() as nat,
            |m: int| JsonV::Str(t.args@[m]@),
        ));
        let target = spec_step_to_json(t@)->Obj_0;
        assert(fs.len() == (if t.input_from_task is Some { 5int } else { 4int }));
        assert(target.len() == fs.len());
        assert(json_view_fields(fs)[0] == (fs[0].0@, json_view(fs[0].1)));
        assert(fs[0].0@ == "task_number"@);
        assert(json_view(fs[0].1) == JsonV::Int(t@.task_number as int));
        assert(target[0] == ("task_number"@, JsonV::Int(t@.task_number as int)));
        assert(json_view_fields(fs)[0] =~~= target[0]);
        assert(json_view_fields(fs)[1] == (fs[1].0@, json_view(fs[1].1)));
        assert(fs[1].0@ == "command"@);
        assert(json_view(fs[1].1) == JsonV::Str(t@.command));
        assert(json_view_fields(fs)[1] =~~= target[1]);
        assert(json_view_fields(fs)[2] == (fs[2].0@, json_view(fs[2].1)));
        assert(fs[2].0@ == "args"@);
        assert(json_view(fs[2].1) =~~= JsonV::Arr(
            Seq::new(t@.args.len(), |m: int| JsonV::Str(t@.args[m])),
        ));
        assert(json_view_fields(fs)[2] =~~= target[2]);
        assert(json_view_fields(fs)[3] == (fs[3].0@, json_view(fs[3].1)));
        assert(fs[3].0@ == "timeout_secs"@);
        assert(json_view(fs[3].1) == JsonV::Int(t@.timeout_secs as int));
        assert(json_view_fields(fs)[3] =~~= target[3]);
        if t.input_from_task is Some {
            assert(json_view_fields(fs)[4] == (fs[4].0@, json_view(fs[4].1)));
            assert(fs[4].0@ == "input_from_task"@);
            assert(json_view_fields(fs)[4] =~~= target[4]);
        }
        assert(json_view_fields(fs) =~~= target);
        assert(j@ =~~= spec_step_to_json(t@));
    }
    j
}

impl WorkflowPlan {
    /// The plan as canonical JSON text, ready for storage or submission.
    pub fn to_json_text(&self) -> (r: String)
        ensures
            r@ == crate::json_print::spec_unparse(spec_plan_to_json(self@)),
    {
        let mut fields: Vec<(String, Json)> = Vec::new();
        match &self.plan_id {
            Some(s) => {
                fields.push(("plan_id".to_owned(), Json::Str(s.clone())));
            },
            None => {
            },
        }
        match &self.plan_description {
            Some(s) => {
                fields.push(("plan_description".to_owned(), Json::Str(s.clone())));
            },
            None => {
            },
        }
        let mut tasks: Vec<Json> = Vec::new();
        let mut k: usize = 0;
        while k < self.tasks.len()
            invariant
                k <= self.tasks@.len(),
                tasks@.len() == k,
                forall|m: int| 0 <= m < k ==> json_view(#[trigger] tasks@[m]) == spec_step_to_json(
                    self.tasks@[m]@,
                ),
            decreases self.tasks@.len() - k,
        {
            let j = step_to_json(&self.tasks[k]);
            tasks.push(j);
            k = k + 1;
        }
        proof {
            lemma_json_view_list_index(tasks@);
            assert forall|m: int| 0 <= m < tasks@.len() implies json_view_list(tasks@)[m]
                == spec_step_to_json(self.tasks@[m]@) by {
                assert(json_view(tasks@[m]) == spec_step_to_json(self.tasks@[m]@));
            }
            assert(json_view_list(tasks@) =~= Seq::new(
                self.tasks@.len() as nat,
                |m: int| spec_step_to_json(self.tasks@[m]@),
            ));
        }
        fields.push(("tasks".to_owned(), Json::Arr(tasks)));
        let ghost fs = fields@;
        let doc = Json::Obj(fields);
        proof {
            lemma_json_view_fields_index(fs);
            assert(Seq::new(self@.tasks.len(), |m: int| spec_step_to_json(self@.tasks[m]))
                =~= Seq::new(self.tasks@.len() as nat, |m: int| spec_step_to_json(
                self.tasks@[m]@,
            )));
            let target = spec_plan_to_json(self@)->Obj_0;
            assert(json_view_fields(fs).len() == target.len());
            assert forall|m: int| 0 <= m < fs.len() implies json_view_fields(fs)[m] =~~= target[m]
                by {
                assert(json_view_fields(fs)[m] == (fs[m].0@, json_view(fs[m].1)));
            }
            assert(json_view_fields(fs) =~~= target);
            assert(doc@ =~~= spec_plan_to_json(self@));
        }
        crate::json_print::json_to_string(&doc)
    }
}

/// Looking a key up in a one-member object prefixed by other members finds
/// the first member with that key.
proof fn lemma_obj_get_skip(fields: Seq<(Seq<char>, JsonV)>, key: Seq<char>, i: int)
    requires
        0 <= i <= fields.len(),
        forall|m: int| 0 <= m < i ==> (#[trigger] fields[m]).0 != key,
    ensures
        spec_obj_get(fields, key) == spec_obj_get_from(fields, key, i),
    decreases i,
{
    if i > 0 {
        lemma_obj_get_from_step(fields, key, 0, i);
    }
}

/// Skipping members that do not carry the key leaves the lookup unchanged.
proof fn lemma_obj_get_from_step(fields: Seq<(Seq<char>, JsonV)>, key: Seq<char>, lo: int, hi: int)
    requires
        0 <= lo <= hi <= fields.len(),
        forall|m: int| lo <= m < hi ==> (#[trigger] fields[m]).0 != key,
    ensures
        spec_obj_get_from(fields, key, lo) == spec_obj_get_from(fields, key, hi),
    decreases hi - lo,
{
    if lo < hi {
        lemma_obj_get_from_step(fields, key, lo + 1, hi);
    }
}

/// Decoding the strings of an all-string array gives the strings back.
proof fn lemma_decode_strings_of_strs(args: Seq<Seq<char>>, i: int)
    requires
        0 <= i <= args.len(),
    ensures
        spec_decode_strings(Seq::new(args.len(), |k: int| JsonV::Str(args[k])), i) == Some(
            args.subrange(i, args.len() as int),
        ),
    decreases args.len() - i,
{
    let items = Seq::new(args.len(), |k: int| JsonV::Str(args[k]));
    if i < args.len() {
        lemma_decode_strings_of_strs(args, i + 1);
        assert(seq![args[i]] + args.subrange(i + 1, args.len() as int) =~= args.subrange(
            i,
            args.len() as int,
        ));
    } else {
        assert(args.subrange(i, args.len() as int) =~= Seq::<Seq<char>>::empty());
    }
}

/// Decoding the tree of one task gives the task back.
proof fn lemma_decode_step_of_encoded(t: PlanStepV)
    ensures
        spec_decode_step(spec_step_to_json(t)) == Some(t),
{
    reveal_strlit("task_number");
    reveal_strlit("command");
    reveal_strlit("args");
    reveal_strlit("timeout_secs");
    reveal_strlit("input_from_task");
    assert("task_number"@.len() == 11 && "command"@.len() == 7 && "args"@.len() == 4
        && "timeout_secs"@.len() == 12 && "input_from_task"@.len() == 15);
    let fields = spec_step_to_json(t)->Obj_0;
    assert(spec_obj_get(fields, "task_number"@) == Some(JsonV::Int(t.task_number as int)));
    lemma_obj_get_skip(fields, "command"@, 1);
    assert(spec_obj_get(fields, "command"@) == Some(JsonV::Str(t.command)));
    lemma_obj_get_skip(fields, "args"@, 2);
    assert(spec_obj_get(fields, "args"@) == Some(
        JsonV::Arr(Seq::new(t.args.len(), |k: int| JsonV::Str(t.args[k]))),
    ));
    lemma_obj_get_skip(fields, "timeout_secs"@, 3);
    assert(spec_obj_get(fields, "timeout_secs"@) == Some(JsonV::Int(t.timeout_secs as int)));
    match t.input_from_task {
        Some(r) => {
            lemma_obj_get_skip(fields, "input_from_task"@, 4);
            assert(spec_obj_get(fields, "input_from_task"@) == Some(JsonV::Int(r as int)));
        },
        None => {
            lemma_obj_get_skip(fields, "input_from_task"@, 4);
            assert(spec_obj_get(fields, "input_from_task"@) is None);
        },
    }
    lemma_decode_strings_of_strs(t.args, 0);
    assert(t.args.subrange(0, t.args.len() as int) =~= t.args);
    assert(spec_decode_step(spec_step_to_json(t)) == Some(
        PlanStepV {
            task_number: t.task_number,
            command: t.command,
            args: t.args,
            timeout_secs: t.timeout_secs,
            input_from_task: t.input_from_task,
        },
    ));
    assert(PlanStepV {
        task_number: t.task_number,
        command: t.command,
        args: t.args,
        timeout_secs: t.timeout_secs,
        input_from_task: t.input_from_task,
    } =~~= t);
}

/// Decoding the trees of encoded tasks gives the tasks back.
proof fn lemma_decode_steps_of_encoded(tasks: Seq<PlanStepV>, i: int)
    requires
        0 <= i <= tasks.len(),
    ensures
        spec_decode_steps(Seq::new(tasks.len(), |k: int| spec_step_to_json(tasks[k])), i) == Some(
            tasks.subrange(i, tasks.len() as int),
        ),
    decreases tasks.len() - i,
{
    if i < tasks.len() {
        lemma_decode_step_of_encoded(tasks[i]);
        lemma_decode_steps_of_encoded(tasks, i + 1);
        assert(seq![tasks[i]] + tasks.subrange(i + 1, tasks.len() as int) =~= tasks.subrange(
            i,
            tasks.len() as int,
        ));
    } else {
        assert(tasks.subrange(i, tasks.len() as int) =~= Seq::<PlanStepV>::empty());
    }
}

/// Decoding an encoded plan, in the canonical schema, is the identity on the
/// identifiers, the descriptions, the commands, the arguments, the timeouts
/// and the dependency links; only a task number that was zero is replaced by
/// the task's position.
pub proof fn lemma_plan_tree_round_trip(p: WorkflowPlanV)
    ensures
        spec_decode_canonical(spec_plan_to_json(p)) == Some(
            WorkflowPlanV {
                plan_id: p.plan_id,
                plan_description: p.plan_description,
                tasks: spec_fix_zero(p.tasks),
            },
        ),
{
    reveal_strlit("plan_id");
    reveal_strlit("plan_description");
    reveal_strlit("tasks");
    assert("plan_id"@.len() == 7 && "plan_description"@.len() == 16 && "tasks"@.len() == 5);
    let fields = spec_plan_to_json(p)->Obj_0;
    let npre: int = (if p.plan_id is Some {
        1int
    } else {
        0int
    }) + (if p.plan_description is Some {
        1int
    } else {
        0int
    });
    assert(fields.len() == npre + 1);
    assert(fields[npre].0 == "tasks"@ && fields[npre].1 == JsonV::Arr(
        Seq::new(p.tasks.len(), |k: int| spec_step_to_json(p.tasks[k])),
    ));
    assert forall|m: int| 0 <= m < npre implies (#[trigger] fields[m]).0 != "tasks"@ by {
        assert(fields[m].0 == "plan_id"@ || fields[m].0 == "plan_description"@);
    }
    lemma_obj_get_skip(fields, "tasks"@, npre);
    assert(spec_obj_get(fields, "tasks"@) == Some(
        JsonV::Arr(Seq::new(p.tasks.len(), |k: int| spec_step_to_json(p.tasks[k]))),
    ));
    lemma_decode_steps_of_encoded(p.tasks, 0);
    assert(p.tasks.subrange(0, p.tasks.len() as int) =~= p.tasks);
    match p.plan_id {
        Some(s) => {
            assert(spec_obj_get(fields, "plan_id"@) == Some(JsonV::Str(s)));
            assert(spec_opt_str_field(fields, "plan_id"@) == Some(p.plan_id));
        },
        None => {
            assert forall|m: int| 0 <= m < fields.len() implies (#[trigger] fields[m]).0
                != "plan_id"@ by {}
            lemma_obj_get_skip(fields, "plan_id"@, fields.len() as int);
            assert(spec_opt_str_field(fields, "plan_id"@) == Some(p.plan_id));
        },
    }
    match p.plan_description {
        Some(s) => {
            let at: int = if p.plan_id is Some {
                1
            } else {
                0
            };
            assert(fields[at].0 == "plan_description"@ && fields[at].1 == JsonV::Str(s));
            assert forall|m: int| 0 <= m < at implies (#[trigger] fields[m]).0
                != "plan_description"@ by {}
            lemma_obj_get_skip(fields, "plan_description"@, at);
            assert(spec_opt_str_field(fields, "plan_description"@) == Some(p.plan_description));
        },
        None => {
            assert forall|m: int| 0 <= m < fields.len() implies (#[trigger] fields[m]).0
                != "plan_description"@ by {}
            lemma_obj_get_skip(fields, "plan_description"@, fields.len() as int);
            assert(spec_opt_str_field(fields, "plan_description"@) == Some(p.plan_description));
        },
    }
    assert(spec_decode_canonical(spec_plan_to_json(p))->Some_0 =~~= WorkflowPlanV {
        plan_id: p.plan_id,
        plan_description: p.plan_description,
        tasks: spec_fix_zero(p.tasks),
    });
}

/// Every number in an encoded task fits the parser's integer type.
proof fn lemma_step_json_i64(t: PlanStepV)
    ensures
        crate::json_codec::spec_json_i64(spec_step_to_json(t)),
{
    let fields = spec_step_to_json(t)->Obj_0;
    let args = Seq::new(t.args.len(), |k: int| JsonV::Str(t.args[k]));
    lemma_i64_items_all(args);
    lemma_i64_fields_all(fields);
}

/// A run of trees, each within the integer type, is within it as a whole.
proof fn lemma_i64_items_all(items: Seq<JsonV>)
    requires
        forall|k: int| 0 <= k < items.len() ==> crate::json_codec::spec_json_i64(
            #[trigger] items[k],
        ),
    ensures
        crate::json_codec::spec_json_i64_items(items),
    decreases items.len(),
{
    if items.len() > 0 {
        lemma_i64_items_all(items.drop_first());
    }
}

/// A run of members, each value within the integer type, is within it as a
/// whole.
proof fn lemma_i64_fields_all(fields: Seq<(Seq<char>, JsonV)>)
    requires
        forall|k: int| 0 <= k < fields.len() ==> crate::json_codec::spec_json_i64(
            (#[trigger] fields[k]).1,
        ),
    ensures
        crate::json_codec::spec_json_i64_fields(fields),
    decreases fields.len(),
{
    if fields.len() > 0 {
        lemma_i64_fields_all(fields.drop_first());
    }
}

/// Every number in an encoded plan fits the parser's integer type.
proof fn lemma_plan_json_i64(p: WorkflowPlanV)
    ensures
        crate::json_codec::spec_json_i64(spec_plan_to_json(p)),
{
    let fields = spec_plan_to_json(p)->Obj_0;
    let tasks = Seq::new(p.tasks.len(), |k: int| spec_step_to_json(p.tasks[k]));
    assert forall|k: int| 0 <= k < tasks.len() implies crate::json_codec::spec_json_i64(
        #[trigger] tasks[k],
    ) by {
        lemma_step_json_i64(p.tasks[k]);
    }
    lemma_i64_items_all(tasks);
    lemma_i64_fields_all(fields);
}

/// Trimming changes nothing when the text neither starts nor ends blank.
proof fn lemma_trim_solid(s: Seq<char>)
    requires
        s.len() > 0,
        !spec_is_uws(s[0]),
        !spec_is_uws(s.last()),
    ensures
        spec_trim(s) == s,
{
    assert(spec_skip_uws(s, 0) == 0);
    assert(spec_rskip_uws(s, s.len() as int) == s.len());
    assert(s.subrange(0, s.len() as int) =~= s);
}

/// Decoding an encoded plan's text is the identity on the identifiers, the
/// descriptions, the commands, the arguments, the timeouts and the
/// dependency links; only a task number that was zero is replaced by the
/// task's position. The whole recovery cascade takes the first road: the
/// text parses as it stands and matches the canonical schema.
pub proof fn lemma_plan_text_round_trip(p: WorkflowPlanV)
    ensures
        spec_from_str(crate::json_print::spec_unparse(spec_plan_to_json(p))) == Some(
            WorkflowPlanV {
                plan_id: p.plan_id,
                plan_description: p.plan_description,
                tasks: spec_fix_zero(p.tasks),
            },
        ),
        forall|k: int|
            0 <= k < p.tasks.len() ==> {
                let back = spec_from_str(
                    crate::json_print::spec_unparse(spec_plan_to_json(p)),
                )->Some_0.tasks[k];
                &&& back.command == (#[trigger] p.tasks[k]).command
                &&& back.args == p.tasks[k].args
                &&& back.timeout_secs == p.tasks[k].timeout_secs
                &&& back.input_from_task == p.tasks[k].input_from_task
                &&& (p.tasks[k].task_number != 0 ==> back.task_number == p.tasks[k].task_number)
            },
{
    let doc = spec_plan_to_json(p);
    let txt = crate::json_print::spec_unparse(doc);
    lemma_plan_json_i64(p);
    crate::json_codec::lemma_parse_of_unparse(doc);
    assert(txt[0] == '{' && txt.last() == '}') by {
        assert(txt =~= seq!['{'] + crate::json_print::spec_unparse_fields(doc->Obj_0)
            + seq!['}']);
    }
    assert(!spec_is_uws('{') && !spec_is_uws('}'));
    lemma_trim_solid(txt);
    assert(!spec_starts_with(txt, "```"@)) by {
        reveal_strlit("```");
        if spec_starts_with(txt, "```"@) {
            assert(txt.subrange(0, 3)[0] == txt[0]);
        }
    }
    assert(spec_strip_fence(txt) == txt);
    lemma_plan_tree_round_trip(p);
    assert(spec_try_forms(doc) == spec_decode_canonical(doc));
    assert(spec_attempt(txt) == Some(
        WorkflowPlanV {
            plan_id: p.plan_id,
            plan_description: p.plan_description,
            tasks: spec_fix_zero(p.tasks),
        },
    ));
}

/// Whether the next non-blank character at or after `b`, if any, is one that
/// can legitimately follow a string's closing quote.
pub open spec fn spec_quote_closes_ok(s: Seq<char>, b: int) -> bool {
    let nw = spec_skip_uws(s, b);
    nw >= s.len() || s[nw] == ',' || s[nw] == ']' || s[nw] == '}' || s[nw] == ':'
}

/// JSON whitespace is whitespace to the repair scan too.
proof fn lemma_ws_is_uws(c: char)
    requires
        crate::json::spec_is_ws(c),
    ensures
        spec_is_uws(c),
{
}

/// Every character a blank skip passes over is blank.
proof fn lemma_skip_ws_region(s: Seq<char>, i: int)
    requires
        0 <= i <= s.len(),
    ensures
        i <= crate::json::spec_skip_ws(s, i) <= s.len(),
        forall|m: int| i <= m < crate::json::spec_skip_ws(s, i) ==> crate::json::spec_is_ws(#[trigger] s[m]),
        crate::json::spec_skip_ws(s, i) < s.len() ==> !crate::json::spec_is_ws(s[crate::json::spec_skip_ws(s, i)]),
    decreases s.len() - i,
{
    if i < s.len() && crate::json::spec_is_ws(s[i]) {
        lemma_skip_ws_region(s, i + 1);
    }
}

/// The repair scan's blank skip agrees with the grammar's when the stopping
/// character is not blank to either.
proof fn lemma_skip_uws_agrees(s: Seq<char>, i: int)
    requires
        0 <= i <= s.len(),
        crate::json::spec_skip_ws(s, i) >= s.len() || !spec_is_uws(s[crate::json::spec_skip_ws(s, i)]),
    ensures
        spec_skip_uws(s, i) == crate::json::spec_skip_ws(s, i),
    decreases s.len() - i,
{
    lemma_skip_ws_region(s, i);
    if i < s.len() && crate::json::spec_is_ws(s[i]) {
        lemma_ws_is_uws(s[i]);
        lemma_skip_uws_agrees(s, i + 1);
    }
}

/// The repair scan copies a quote-free run outside any string unchanged.
proof fn lemma_repair_outside_run(s: Seq<char>, i: int, j: int)
    requires
        0 <= i <= j <= s.len(),
        forall|m: int| i <= m < j ==> #[trigger] s[m] != '"',
    ensures
        spec_repair_from(s, i, false, false) == s.subrange(i, j) + spec_repair_from(
            s,
            j,
            false,
            false,
        ),
    decreases j - i,
{
    if i == j {
        assert(s.subrange(i, j) =~= Seq::<char>::empty());
        assert(Seq::<char>::empty() + spec_repair_from(s, j, false, false) =~= spec_repair_from(
            s,
            j,
            false,
            false,
        ));
    } else {
        lemma_repair_outside_run(s, i + 1, j);
        assert(spec_repair_from(s, i, false, false) == seq![s[i]] + spec_repair_from(
            s,
            i + 1,
            false,
            false,
        ));
        assert(seq![s[i]] + (s.subrange(i + 1, j) + spec_repair_from(s, j, false, false))
            =~= s.subrange(i, j) + spec_repair_from(s, j, false, false));
    }
}

/// The repair scan copies a valid string body unchanged, from just after the
/// opening quote through the closing quote, and leaves the string state.
#[verifier::rlimit(100)]
proof fn lemma_repair_str_body(s: Seq<char>, i: int, content: Seq<char>, j: int)
    requires
        0 <= i,
        crate::json::spec_parse_str_body(s, i) == Some((content, j)),
        spec_quote_closes_ok(s, j),
    ensures
        i < j <= s.len(),
        spec_repair_from(s, i, true, false) == s.subrange(i, j) + spec_repair_from(
            s,
            j,
            false,
            false,
        ),
    decreases s.len() - i,
{
    let c = s[i];
    if c == '"' {
        assert(j == i + 1);
        assert(spec_skip_uws(s, i + 1) == spec_skip_uws(s, j));
        assert(spec_repair_from(s, i, true, false) == seq!['"'] + spec_repair_from(
            s,
            i + 1,
            false,
            false,
        ));
        assert(seq!['"'] + spec_repair_from(s, j, false, false) =~= s.subrange(i, j)
            + spec_repair_from(s, j, false, false));
    } else if c == '\\' {
        let e = crate::json::spec_parse_escape(s, i + 1)->Some_0.0;
        let k = crate::json::spec_parse_escape(s, i + 1)->Some_0.1;
        let rest = crate::json::spec_parse_str_body(s, k)->Some_0.0;
        lemma_repair_str_body(s, k, rest, j);
        assert(spec_repair_from(s, i, true, false) == seq!['\\'] + spec_repair_from(
            s,
            i + 1,
            true,
            true,
        ));
        let pay = s[i + 1];
        if pay == 'u' {
            // after the marker the digits are hexadecimal: never a quote,
            // never a backslash, except the second escape of a surrogate pair
            let n1 = crate::json::spec_hex4(s, i + 2)->Some_0;
            assert(crate::json::spec_hex4(s, i + 2) is Some);
            assert(crate::json::spec_is_hex(s[i + 2]) && crate::json::spec_is_hex(s[i + 3])
                && crate::json::spec_is_hex(s[i + 4]) && crate::json::spec_is_hex(s[i + 5]));
            lemma_repair_hex_run(s, i + 2, i + 6);
            assert(spec_repair_from(s, i + 1, true, true) == seq!['u'] + spec_repair_from(
                s,
                i + 2,
                true,
                false,
            ));
            if 0xD800 <= n1 < 0xDC00 {
                assert(k == i + 12);
                assert(s[i + 6] == '\\' && s[i + 7] == 'u');
                assert(crate::json::spec_hex4(s, i + 8) is Some);
                assert(crate::json::spec_is_hex(s[i + 8]) && crate::json::spec_is_hex(s[i + 9])
                    && crate::json::spec_is_hex(s[i + 10]) && crate::json::spec_is_hex(
                    s[i + 11],
                ));
                lemma_repair_hex_run(s, i + 8, i + 12);
                assert(spec_repair_from(s, i + 6, true, false) == seq!['\\']
                    + spec_repair_from(s, i + 7, true, true));
                assert(spec_repair_from(s, i + 7, true, true) == seq!['u'] + spec_repair_from(
                    s,
                    i + 8,
                    true,
                    false,
                ));
                assert(spec_repair_from(s, i, true, false) =~= s.subrange(i, k)
                    + spec_repair_from(s, k, true, false));
            } else {
                assert(k == i + 6);
                assert(spec_repair_from(s, i + 2, true, false) == s.subrange(i + 2, k)
                    + spec_repair_from(s, k, true, false)) by {
                    lemma_repair_hex_run(s, i + 2, k);
                }
                assert(spec_repair_from(s, i, true, false) =~= s.subrange(i, k)
                    + spec_repair_from(s, k, true, false));
            }
        } else {
            assert(k == i + 2);
            if pay == '"' {
                assert(spec_repair_from(s, i + 1, true, true) == seq!['"'] + spec_repair_from(
                    s,
                    i + 2,
                    true,
                    false,
                ));
            } else if pay == '\\' {
                assert(spec_repair_from(s, i + 1, true, true) == seq!['\\'] + spec_repair_from(
                    s,
                    i + 2,
                    true,
                    false,
                ));
            } else {
                assert(spec_repair_from(s, i + 1, true, true) == seq![pay] + spec_repair_from(
                    s,
                    i + 2,
                    true,
                    false,
                ));
            }
            assert(spec_repair_from(s, i, true, false) =~= s.subrange(i, k) + spec_repair_from(
                s,
                k,
                true,
                false,
            ));
        }
        assert(s.subrange(i, k) + (s.subrange(k, j) + spec_repair_from(s, j, false, false))
            =~= s.subrange(i, j) + spec_repair_from(s, j, false, false));
    } else {
        let rest = crate::json::spec_parse_str_body(s, i + 1)->Some_0.0;
        lemma_repair_str_body(s, i + 1, rest, j);
        assert((c as u32) >= 0x20);
        assert(spec_repair_from(s, i, true, false) == seq![c] + spec_repair_from(
            s,
            i + 1,
            true,
            false,
        ));
        assert(seq![c] + (s.subrange(i + 1, j) + spec_repair_from(s, j, false, false))
            =~= s.subrange(i, j) + spec_repair_from(s, j, false, false));
    }
}

/// The repair scan copies a run of hexadecimal digits unchanged, dropping
/// the pending-escape mark on the first.
proof fn lemma_repair_hex_run(s: Seq<char>, i: int, j: int)
    requires
        0 <= i <= j <= s.len(),
        forall|m: int| i <= m < j ==> crate::json::spec_is_hex(#[trigger] s[m]),
    ensures
        spec_repair_from(s, i, true, false) == s.subrange(i, j) + spec_repair_from(
            s,
            j,
            true,
            false,
        ),
    decreases j - i,
{
    if i == j {
        assert(s.subrange(i, j) =~= Seq::<char>::empty());
        assert(Seq::<char>::empty() + spec_repair_from(s, j, true, false) =~= spec_repair_from(
            s,
            j,
            true,
            false,
        ));
    } else {
        lemma_repair_hex_run(s, i + 1, j);
        assert(s[i] != '"' && s[i] != '\\') by {
            assert(crate::json::spec_is_hex(s[i]));
        }
        assert(spec_repair_from(s, i, true, false) == seq![s[i]] + spec_repair_from(
            s,
            i + 1,
            true,
            false,
        ));
        assert(seq![s[i]] + (s.subrange(i + 1, j) + spec_repair_from(s, j, true, false))
            =~= s.subrange(i, j) + spec_repair_from(s, j, true, false));
    }
}

/// Every character a digit scan passes over is a digit, and the scan stays
/// in bounds.
proof fn lemma_digits_region(s: Seq<char>, i: int)
    requires
        0 <= i <= s.len(),
    ensures
        i <= crate::json::spec_digits_end(s, i) <= s.len(),
        forall|m: int|
            i <= m < crate::json::spec_digits_end(s, i) ==> crate::text::spec_is_digit(
                #[trigger] s[m],
            ),
    decreases s.len() - i,
{
    if i < s.len() && crate::text::spec_is_digit(s[i]) {
        lemma_digits_region(s, i + 1);
    }
}

/// The numeric token a successful number read covers sits inside the text,
/// and none of its characters is a quote.
proof fn lemma_number_token(s: Seq<char>, i: int)
    requires
        0 <= i < s.len(),
        crate::json::spec_parse_number(s, i) is Some,
    ensures
        i < crate::json::spec_parse_number(s, i)->Some_0.1 <= s.len(),
        forall|m: int|
            i <= m < crate::json::spec_parse_number(s, i)->Some_0.1 ==> #[trigger] s[m] != '"',
{
    let neg = s[i] == '-';
    let d0: int = if neg {
        i + 1
    } else {
        i
    };
    let end0 = crate::json::spec_digits_end(s, d0);
    lemma_digits_region(s, d0);
    let frac = end0 < s.len() && s[end0] == '.';
    let end1: int = if frac {
        crate::json::spec_digits_end(s, end0 + 1)
    } else {
        end0
    };
    if frac {
        lemma_digits_region(s, end0 + 1);
    }
    let has_exp = end1 < s.len() && (s[end1] == 'e' || s[end1] == 'E');
    let es: int = if has_exp && end1 + 1 < s.len() && (s[end1 + 1] == '+' || s[end1 + 1] == '-') {
        end1 + 2
    } else {
        end1 + 1
    };
    let end2: int = if has_exp {
        crate::json::spec_digits_end(s, es)
    } else {
        end1
    };
    if has_exp {
        lemma_digits_region(s, es);
    }
    let end = crate::json::spec_parse_number(s, i)->Some_0.1;
    assert(end == end0 || end == end2);
    assert forall|m: int| i <= m < end implies #[trigger] s[m] != '"' by {
        if neg && m == i {
            assert(s[m] == '-');
        } else if d0 <= m < end0 {
            assert(crate::text::spec_is_digit(s[m]));
        } else if frac && m == end0 {
            assert(s[m] == '.');
        } else if frac && end0 + 1 <= m < end1 {
            assert(crate::text::spec_is_digit(s[m]));
        } else if has_exp && m == end1 {
            assert(s[m] == 'e' || s[m] == 'E');
        } else if has_exp && end1 < m < es {
            assert(s[m] == '+' || s[m] == '-');
        } else if has_exp && es <= m < end2 {
            assert(crate::text::spec_is_digit(s[m]));
        }
    }
}

/// The repair scan copies a whole parsed value unchanged, given that the
/// text after the value can legitimately follow a string's closing quote.
#[verifier::rlimit(100)]
proof fn lemma_repair_value(s: Seq<char>, i: int, fuel: nat, v: JsonV, j: int)
    requires
        0 <= i,
        crate::json::spec_parse_value(s, i, fuel) == Some((v, j)),
        spec_quote_closes_ok(s, j),
    ensures
        i < j <= s.len(),
        spec_repair_from(s, i, false, false) == s.subrange(i, j) + spec_repair_from(
            s,
            j,
            false,
            false,
        ),
    decreases fuel, 0int,
{
    let c = s[i];
    if c == 'n' || c == 't' {
        assert(j == i + 4);
        lemma_repair_outside_run(s, i, j);
    } else if c == 'f' {
        assert(j == i + 5);
        lemma_repair_outside_run(s, i, j);
    } else if c == '"' {
        let content = crate::json::spec_parse_str_body(s, i + 1)->Some_0.0;
        lemma_repair_str_body(s, i + 1, content, j);
        assert(spec_repair_from(s, i, false, false) == seq!['"'] + spec_repair_from(
            s,
            i + 1,
            true,
            false,
        ));
        assert(seq!['"'] + (s.subrange(i + 1, j) + spec_repair_from(s, j, false, false))
            =~= s.subrange(i, j) + spec_repair_from(s, j, false, false));
    } else if c == '-' || crate::text::spec_is_digit(c) {
        lemma_number_token(s, i);
        assert(j == crate::json::spec_parse_number(s, i)->Some_0.1);
        lemma_repair_outside_run(s, i, j);
    } else if c == '[' {
        let j0 = crate::json::spec_skip_ws(s, i + 1);
        lemma_skip_ws_region(s, i + 1);
        if j0 < s.len() && s[j0] == ']' {
            assert(j == j0 + 1);
            assert forall|m: int| i <= m < j implies #[trigger] s[m] != '"' by {
                if i + 1 <= m < j0 {
                    assert(crate::json::spec_is_ws(s[m]));
                }
            }
            lemma_repair_outside_run(s, i, j);
        } else {
            let items = crate::json::spec_parse_arr_rest(s, j0, (fuel - 1) as nat)->Some_0.0;
            lemma_repair_arr_rest(s, j0, (fuel - 1) as nat, items, j);
            assert forall|m: int| i <= m < j0 implies #[trigger] s[m] != '"' by {
                if i + 1 <= m {
                    assert(crate::json::spec_is_ws(s[m]));
                }
            }
            lemma_repair_outside_run(s, i, j0);
            assert(s.subrange(i, j0) + (s.subrange(j0, j) + spec_repair_from(s, j, false, false))
                =~= s.subrange(i, j) + spec_repair_from(s, j, false, false));
        }
    } else {
        assert(c == '{');
        let j0 = crate::json::spec_skip_ws(s, i + 1);
        lemma_skip_ws_region(s, i + 1);
        if j0 < s.len() && s[j0] == '}' {
            assert(j == j0 + 1);
            assert forall|m: int| i <= m < j implies #[trigger] s[m] != '"' by {
                if i + 1 <= m < j0 {
                    assert(crate::json::spec_is_ws(s[m]));
                }
            }
            lemma_repair_outside_run(s, i, j);
        } else {
            let fields = crate::json::spec_parse_obj_rest(s, j0, (fuel - 1) as nat)->Some_0.0;
            lemma_repair_obj_rest(s, j0, (fuel - 1) as nat, fields, j);
            assert forall|m: int| i <= m < j0 implies #[trigger] s[m] != '"' by {
                if i + 1 <= m {
                    assert(crate::json::spec_is_ws(s[m]));
                }
            }
            lemma_repair_outside_run(s, i, j0);
            assert(s.subrange(i, j0) + (s.subrange(j0, j) + spec_repair_from(s, j, false, false))
                =~= s.subrange(i, j) + spec_repair_from(s, j, false, false));
        }
    }
}

/// The repair scan copies the parsed elements of an array unchanged, through
/// the closing bracket.
#[verifier::rlimit(100)]
proof fn lemma_repair_arr_rest(s: Seq<char>, i: int, fuel: nat, items: Seq<JsonV>, end: int)
    requires
        0 <= i,
        crate::json::spec_parse_arr_rest(s, i, fuel) == Some((items, end)),
        spec_quote_closes_ok(s, end),
    ensures
        i < end <= s.len(),
        spec_repair_from(s, i, false, false) == s.subrange(i, end) + spec_repair_from(
            s,
            end,
            false,
            false,
        ),
    decreases fuel, 1int,
{
    let v = crate::json::spec_parse_value(s, i, (fuel - 1) as nat)->Some_0.0;
    let j0 = crate::json::spec_parse_value(s, i, (fuel - 1) as nat)->Some_0.1;
    let jj = crate::json::spec_skip_ws(s, j0);
    lemma_repair_value_bounds(s, i, (fuel - 1) as nat, v, j0);
    lemma_skip_ws_region(s, j0);
    assert(jj < s.len() && (s[jj] == ']' || s[jj] == ','));
    lemma_skip_uws_agrees(s, j0);
    assert(spec_quote_closes_ok(s, j0));
    lemma_repair_value(s, i, (fuel - 1) as nat, v, j0);
    if s[jj] == ']' {
        assert(end == jj + 1);
        assert forall|m: int| j0 <= m < end implies #[trigger] s[m] != '"' by {
            if m < jj {
                assert(crate::json::spec_is_ws(s[m]));
            }
        }
        lemma_repair_outside_run(s, j0, end);
        assert(s.subrange(i, j0) + (s.subrange(j0, end) + spec_repair_from(s, end, false, false))
            =~= s.subrange(i, end) + spec_repair_from(s, end, false, false));
    } else {
        let nk = crate::json::spec_skip_ws(s, jj + 1);
        lemma_skip_ws_region(s, jj + 1);
        let rest = crate::json::spec_parse_arr_rest(s, nk, (fuel - 1) as nat)->Some_0.0;
        lemma_repair_arr_rest(s, nk, (fuel - 1) as nat, rest, end);
        assert forall|m: int| j0 <= m < nk implies #[trigger] s[m] != '"' by {
            if m < jj {
                assert(crate::json::spec_is_ws(s[m]));
            } else if m > jj {
                assert(crate::json::spec_is_ws(s[m]));
            }
        }
        lemma_repair_outside_run(s, j0, nk);
        assert(s.subrange(i, j0) + (s.subrange(j0, nk) + (s.subrange(nk, end)
            + spec_repair_from(s, end, false, false))) =~= s.subrange(i, end)
            + spec_repair_from(s, end, false, false));
    }
}

/// The repair scan copies the parsed members of an object unchanged, through
/// the closing brace.
#[verifier::rlimit(100)]
proof fn lemma_repair_obj_rest(
    s: Seq<char>,
    i: int,
    fuel: nat,
    fields: Seq<(Seq<char>, JsonV)>,
    end: int,
)
    requires
        0 <= i,
        crate::json::spec_parse_obj_rest(s, i, fuel) == Some((fields, end)),
        spec_quote_closes_ok(s, end),
    ensures
        i < end <= s.len(),
        spec_repair_from(s, i, false, false) == s.subrange(i, end) + spec_repair_from(
            s,
            end,
            false,
            false,
        ),
    decreases fuel, 1int,
{
    assert(s[i] == '"');
    let key = crate::json::spec_parse_str_body(s, i + 1)->Some_0.0;
    let jk = crate::json::spec_parse_str_body(s, i + 1)->Some_0.1;
    lemma_str_body_bounds(s, i + 1);
    let jc = crate::json::spec_skip_ws(s, jk);
    lemma_skip_ws_region(s, jk);
    assert(jc < s.len() && s[jc] == ':');
    lemma_skip_uws_agrees(s, jk);
    assert(spec_quote_closes_ok(s, jk));
    lemma_repair_str_body(s, i + 1, key, jk);
    assert(spec_repair_from(s, i, false, false) == seq!['"'] + spec_repair_from(
        s,
        i + 1,
        true,
        false,
    ));
    let jv = crate::json::spec_skip_ws(s, jc + 1);
    lemma_skip_ws_region(s, jc + 1);
    let v = crate::json::spec_parse_value(s, jv, (fuel - 1) as nat)->Some_0.0;
    let j0 = crate::json::spec_parse_value(s, jv, (fuel - 1) as nat)->Some_0.1;
    let jj = crate::json::spec_skip_ws(s, j0);
    lemma_repair_value_bounds(s, jv, (fuel - 1) as nat, v, j0);
    lemma_skip_ws_region(s, j0);
    assert(jj < s.len() && (s[jj] == '}' || s[jj] == ','));
    lemma_skip_uws_agrees(s, j0);
    assert(spec_quote_closes_ok(s, j0));
    lemma_repair_value(s, jv, (fuel - 1) as nat, v, j0);
    assert forall|m: int| jk <= m < jv implies #[trigger] s[m] != '"' by {
        if m < jc {
            assert(crate::json::spec_is_ws(s[m]));
        } else if m > jc {
            assert(crate::json::spec_is_ws(s[m]));
        }
    }
    lemma_repair_outside_run(s, jk, jv);
    if s[jj] == '}' {
        assert(end == jj + 1);
        assert forall|m: int| j0 <= m < end implies #[trigger] s[m] != '"' by {
            if m < jj {
                assert(crate::json::spec_is_ws(s[m]));
            }
        }
        lemma_repair_outside_run(s, j0, end);
        assert(seq!['"'] + (s.subrange(i + 1, jk) + (s.subrange(jk, jv) + (s.subrange(jv, j0) + (
        s.subrange(j0, end) + spec_repair_from(s, end, false, false))))) =~= s.subrange(i, end)
            + spec_repair_from(s, end, false, false));
    } else {
        let nk = crate::json::spec_skip_ws(s, jj + 1);
        lemma_skip_ws_region(s, jj + 1);
        let rest = crate::json::spec_parse_obj_rest(s, nk, (fuel - 1) as nat)->Some_0.0;
        lemma_repair_obj_rest(s, nk, (fuel - 1) as nat, rest, end);
        assert forall|m: int| j0 <= m < nk implies #[trigger] s[m] != '"' by {
            if m < jj {
                assert(crate::json::spec_is_ws(s[m]));
            } else if m > jj {
                assert(crate::json::spec_is_ws(s[m]));
            }
        }
        lemma_repair_outside_run(s, j0, nk);
        assert(seq!['"'] + (s.subrange(i + 1, jk) + (s.subrange(jk, jv) + (s.subrange(jv, j0) + (
        s.subrange(j0, nk) + (s.subrange(nk, end) + spec_repair_from(s, end, false, false))))))
            =~= s.subrange(i, end) + spec_repair_from(s, end, false, false));
    }
}

/// A parsed value sits inside the text.
proof fn lemma_repair_value_bounds(s: Seq<char>, i: int, fuel: nat, v: JsonV, j: int)
    requires
        0 <= i,
        crate::json::spec_parse_value(s, i, fuel) == Some((v, j)),
    ensures
        i < j <= s.len(),
    decreases fuel, 0int,
{
    let c = s[i];
    if c == '"' {
        lemma_str_body_bounds(s, i + 1);
    } else if c == '-' || crate::text::spec_is_digit(c) {
        lemma_number_token(s, i);
    } else if c == '[' {
        let j0 = crate::json::spec_skip_ws(s, i + 1);
        lemma_skip_ws_region(s, i + 1);
        if !(j0 < s.len() && s[j0] == ']') {
            lemma_arr_rest_bounds(s, j0, (fuel - 1) as nat);
        }
    } else if c == '{' {
        let j0 = crate::json::spec_skip_ws(s, i + 1);
        lemma_skip_ws_region(s, i + 1);
        if !(j0 < s.len() && s[j0] == '}') {
            lemma_obj_rest_bounds(s, j0, (fuel - 1) as nat);
        }
    }
}

/// A parsed string body sits inside the text.
proof fn lemma_str_body_bounds(s: Seq<char>, i: int)
    requires
        0 <= i,
        crate::json::spec_parse_str_body(s, i) is Some,
    ensures
        i < crate::json::spec_parse_str_body(s, i)->Some_0.1 <= s.len(),
    decreases s.len() - i,
{
    let c = s[i];
    if c == '"' {
    } else if c == '\\' {
        let k = crate::json::spec_parse_escape(s, i + 1)->Some_0.1;
        lemma_str_body_bounds(s, k);
    } else {
        lemma_str_body_bounds(s, i + 1);
    }
}

/// Parsed array elements sit inside the text.
proof fn lemma_arr_rest_bounds(s: Seq<char>, i: int, fuel: nat)
    requires
        0 <= i,
        crate::json::spec_parse_arr_rest(s, i, fuel) is Some,
    ensures
        i < crate::json::spec_parse_arr_rest(s, i, fuel)->Some_0.1 <= s.len(),
    decreases fuel, 1int,
{
    let j0 = crate::json::spec_parse_value(s, i, (fuel - 1) as nat)->Some_0.1;
    let v = crate::json::spec_parse_value(s, i, (fuel - 1) as nat)->Some_0.0;
    lemma_repair_value_bounds(s, i, (fuel - 1) as nat, v, j0);
    let jj = crate::json::spec_skip_ws(s, j0);
    lemma_skip_ws_region(s, j0);
    if jj < s.len() && s[jj] == ']' {
    } else {
        let nk = crate::json::spec_skip_ws(s, jj + 1);
        lemma_skip_ws_region(s, jj + 1);
        lemma_arr_rest_bounds(s, nk, (fuel - 1) as nat);
    }
}

/// Parsed object members sit inside the text.
proof fn lemma_obj_rest_bounds(s: Seq<char>, i: int, fuel: nat)
    requires
        0 <= i,
        crate::json::spec_parse_obj_rest(s, i, fuel) is Some,
    ensures
        i < crate::json::spec_parse_obj_rest(s, i, fuel)->Some_0.1 <= s.len(),
    decreases fuel, 1int,
{
    let jk = crate::json::spec_parse_str_body(s, i + 1)->Some_0.1;
    lemma_str_body_bounds(s, i + 1);
    let jc = crate::json::spec_skip_ws(s, jk);
    lemma_skip_ws_region(s, jk);
    let jv = crate::json::spec_skip_ws(s, jc + 1);
    lemma_skip_ws_region(s, jc + 1);
    let j0 = crate::json::spec_parse_value(s, jv, (fuel - 1) as nat)->Some_0.1;
    let v = crate::json::spec_parse_value(s, jv, (fuel - 1) as nat)->Some_0.0;
    lemma_repair_value_bounds(s, jv, (fuel - 1) as nat, v, j0);
    let jj = crate::json::spec_skip_ws(s, j0);
    lemma_skip_ws_region(s, j0);
    if jj < s.len() && s[jj] == '}' {
    } else {
        let nk = crate::json::spec_skip_ws(s, jj + 1);
        lemma_skip_ws_region(s, jj + 1);
        lemma_obj_rest_bounds(s, nk, (fuel - 1) as nat);
    }
}

/// Quote repair is a fixpoint on valid JSON: a text that already parses as
/// one JSON document comes out of the repair pass unchanged, character for
/// character.
pub proof fn lemma_repair_fixpoint_on_valid_json(s: Seq<char>)
    requires
        spec_parse_json(s) is Some,
    ensures
        spec_repair(s) == s,
{
    let start = crate::json::spec_skip_ws(s, 0);
    let fuel = crate::json::spec_doc_fuel(s);
    let v = crate::json::spec_parse_value(s, start, fuel)->Some_0.0;
    let end = crate::json::spec_parse_value(s, start, fuel)->Some_0.1;
    lemma_repair_value_bounds(s, start, fuel, v, end);
    lemma_skip_ws_region(s, 0);
    lemma_skip_ws_region(s, end);
    assert(crate::json::spec_skip_ws(s, end) == s.len());
    lemma_skip_uws_agrees(s, end);
    assert(spec_quote_closes_ok(s, end));
    lemma_repair_value(s, start, fuel, v, end);
    assert forall|m: int| 0 <= m < start implies #[trigger] s[m] != '"' by {
        assert(crate::json::spec_is_ws(s[m]));
    }
    lemma_repair_outside_run(s, 0, start);
    assert forall|m: int| end <= m < s.len() implies #[trigger] s[m] != '"' by {
        assert(crate::json::spec_is_ws(s[m]));
    }
    lemma_repair_outside_run(s, end, s.len() as int);
    assert(spec_repair_from(s, s.len() as int, false, false) =~= Seq::<char>::empty());
    assert(s.subrange(0, start) + (s.subrange(start, end) + (s.subrange(end, s.len() as int)
        + Seq::<char>::empty())) =~= s);
}

/// Whether two character vectors hold the same characters.
fn chars_eq(a: &Vec<char>, b: &Vec<char>) -> (r: bool)
    ensures
        r == (a@ == b@),
{
    if a.len() != b.len() {
        proof {
            assert(a@.len() != b@.len());
        }
        return false;
    }
    let mut k: usize = 0;
    while k < a.len()
        invariant
            k <= a@.len(),
            a@.len() == b@.len(),
            forall|m: int| 0 <= m < k ==> a@[m] == b@[m],
        decreases a@.len() - k,
    {
        if a[k] != b[k] {
            return false;
        }
        k = k + 1;
    }
    proof {
        assert(a@ =~= b@);
    }
    true
}

/// One recovery attempt on a candidate text.
fn attempt(t: &Vec<char>) -> (r: Option<WorkflowPlan>)
    ensures
        match r {
            Some(p) => spec_attempt(t@) == Some(p@),
            None => spec_attempt(t@) is None,
        },
{
    if let Ok(j) = parse_json_chars(t) {
        if let Some(p) = try_all_known_forms(&j) {
            return Some(p);
        }
    }
    if let Some(sub) = extract_first_json_value(t) {
        if let Ok(j) = parse_json_chars(&sub) {
            if let Some(p) = try_all_known_forms(&j) {
                return Some(p);
            }
        }
    }
    None
}

impl WorkflowPlan {
    /// Recovers a plan from raw planner text: strips a surrounding markdown
    /// fence, tries every accepted schema on the text, on its first balanced
    /// bracketed span, and on its quote-repaired form, and reports the most
    /// telling failure otherwise.
    pub fn from_str(value: &str) -> (r: Result<WorkflowPlan, PlanParseError>)
        ensures
            match r {
                Ok(p) => spec_from_str(value@) == Some(p@),
                Err(e) => spec_from_str(value@) is None && (e is InvalidJson <==> spec_parse_json(
                    spec_strip_fence(value@),
                ) is None),
            },
    {
        let raw = str_chars(value);
        let s = strip_markdown_fence(&raw);
        if let Some(p) = attempt(&s) {
            return Ok(p);
        }
        let rep = repair_quotes_chars(&s);
        if !chars_eq(&rep, &s) {
            if let Some(p) = attempt(&rep) {
                return Ok(p);
            }
        }
        match parse_json_chars(&s) {
            Ok(_) => Err(PlanParseError::UnrecognizedShape),
            Err(_) => Err(PlanParseError::InvalidJson),
        }
    }
}

} // verus!
