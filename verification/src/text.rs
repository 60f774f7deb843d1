//! Character-level helpers shared by the parsers and formatters: conversion
//! between `&str`/`String` and `Vec<char>`, string equality, ASCII case
//! folding, and decimal formatting and reading of integers.

use vstd::prelude::*;

verus! {

/// The characters of `s`, in order, as a vector.
pub fn str_chars(s: &str) -> (r: Vec<char>)
    ensures
        r@ == s@,
{
    let n = s.unicode_len();
    let mut r: Vec<char> = Vec::new();
    let mut i: usize = 0;
    while i < n
        invariant
            n == s@.len(),
            i <= n,
            r@ == s@.subrange(0, i as int),
        decreases n - i,
    {
        r.push(s.get_char(i));
        i = i + 1;
        proof {
            assert(r@ =~= s@.subrange(0, i as int));
        }
    }
    proof {
        assert(r@ =~= s@);
    }
    r
}

/// A `String` holding exactly the characters of `v`.
///
/// Relies on `core::iter::Iterator::collect` building a `String` from the
/// characters of the vector, in order.
#[verifier::external_body]
pub fn chars_string(v: &Vec<char>) -> (r: String)
    ensures
        r@ == v@,
{
    v.iter().collect()
}

/// Whether two string slices hold the same characters.
pub fn str_eq_str(a: &str, b: &str) -> (r: bool)
    ensures
        r == (a@ == b@),
{
    let na = a.unicode_len();
    let nb = b.unicode_len();
    if na != nb {
        proof {
            assert(a@.len() != b@.len());
        }
        return false;
    }
    let mut i: usize = 0;
    while i < na
        invariant
            na == a@.len(),
            na == b@.len(),
            i <= na,
            forall|k: int| 0 <= k < i ==> a@[k] == b@[k],
        decreases na - i,
    {
        if a.get_char(i) != b.get_char(i) {
            return false;
        }
        i = i + 1;
    }
    proof {
        assert(a@ =~= b@);
    }
    true
}

/// `c` with an ASCII upper-case letter folded to lower case.
pub open spec fn spec_lower(c: char) -> char {
    if 'A' <= c && c <= 'Z' {
        ((c as u32) + 32) as char
    } else {
        c
    }
}

/// `s` with every ASCII upper-case letter folded to lower case.
pub open spec fn spec_lower_seq(s: Seq<char>) -> Seq<char> {
    s.map_values(|c: char| spec_lower(c))
}

/// `c` with an ASCII upper-case letter folded to lower case.
pub fn lower_char(c: char) -> (r: char)
    ensures
        r == spec_lower(c),
{
    let u = c as u32;
    if 65 <= u && u <= 90 {
        proof {
            assert('A' <= c && c <= 'Z');
        }
        ((u + 32) as u8) as char
    } else {
        proof {
            assert(!('A' <= c && c <= 'Z'));
        }
        c
    }
}

/// Whether `a` equals `b` once both are folded to ASCII lower case.
pub fn eq_ignore_ascii(a: &str, b: &str) -> (r: bool)
    ensures
        r == (spec_lower_seq(a@) == spec_lower_seq(b@)),
{
    let na = a.unicode_len();
    let nb = b.unicode_len();
    if na != nb {
        proof {
            assert(spec_lower_seq(a@).len() != spec_lower_seq(b@).len());
        }
        return false;
    }
    let mut i: usize = 0;
    while i < na
        invariant
            na == a@.len(),
            na == b@.len(),
            i <= na,
            forall|k: int| 0 <= k < i ==> spec_lower(a@[k]) == spec_lower(b@[k]),
        decreases na - i,
    {
        if lower_char(a.get_char(i)) != lower_char(b.get_char(i)) {
            proof {
                assert(spec_lower_seq(a@)[i as int] != spec_lower_seq(b@)[i as int]);
            }
            return false;
        }
        i = i + 1;
    }
    proof {
        assert(spec_lower_seq(a@) =~= spec_lower_seq(b@));
    }
    true
}

/// The decimal digit character for a value below ten.
pub open spec fn spec_digit(n: nat) -> char
    recommends
        n < 10,
{
    ((48 + n) as u8) as char
}

/// The decimal representation of `n`, most significant digit first.
pub open spec fn spec_dec(n: nat) -> Seq<char>
    decreases n,
{
    if n < 10 {
        seq![spec_digit(n)]
    } else {
        spec_dec(n / 10).push(spec_digit(n % 10))
    }
}

/// The decimal digits of `n`, most significant first.
pub fn u64_dec_chars(n: u64) -> (r: Vec<char>)
    ensures
        r@ == spec_dec(n as nat),
    decreases n,
{
    if n < 10 {
        let c = ((48 + n as u32)) as u8 as char;
        proof {
            assert(c == spec_digit(n as nat));
        }
        let mut r: Vec<char> = Vec::new();
        r.push(c);
        proof {
            assert(r@ =~= seq![spec_digit(n as nat)]);
        }
        r
    } else {
        let mut r = u64_dec_chars(n / 10);
        let d = n % 10;
        let c = ((48 + d as u32)) as u8 as char;
        proof {
            assert(c == spec_digit((n % 10) as nat));
        }
        r.push(c);
        r
    }
}

/// The decimal representation of `n` as a `String`.
pub fn u64_dec_string(n: u64) -> (r: String)
    ensures
        r@ == spec_dec(n as nat),
{
    let v = u64_dec_chars(n);
    chars_string(&v)
}

/// Whether `c` is a decimal digit.
pub open spec fn spec_is_digit(c: char) -> bool {
    '0' <= c && c <= '9'
}

/// The numeric value of digit `c`.
pub open spec fn spec_digit_val(c: char) -> nat
    recommends
        spec_is_digit(c),
{
    (c as u32 - 48) as nat
}

/// The value of the digit string `s`, read most significant digit first.
pub open spec fn spec_dec_val(s: Seq<char>) -> nat
    decreases s.len(),
{
    if s.len() == 0 {
        0
    } else {
        spec_dec_val(s.drop_last()) * 10 + spec_digit_val(s.last())
    }
}

/// Whether every character of `s` is a decimal digit.
pub open spec fn spec_all_digits(s: Seq<char>) -> bool {
    forall|k: int| 0 <= k < s.len() ==> spec_is_digit(#[trigger] s[k])
}

/// Whether `c` is a decimal digit.
pub fn is_digit_char(c: char) -> (r: bool)
    ensures
        r == spec_is_digit(c),
{
    let u = c as u32;
    48 <= u && u <= 57
}

/// Reads the digits `s[from..to]` as a `u64`, most significant first.
/// Returns `None` exactly when the value does not fit in a `u64`.
pub fn dec_chars_val(s: &Vec<char>, from: usize, to: usize) -> (r: Option<u64>)
    requires
        from <= to <= s@.len(),
        spec_all_digits(s@.subrange(from as int, to as int)),
    ensures
        match r {
            Some(v) => v as nat == spec_dec_val(s@.subrange(from as int, to as int)),
            None => spec_dec_val(s@.subrange(from as int, to as int)) > u64::MAX,
        },
{
    let mut acc: u64 = 0;
    let mut i: usize = from;
    while i < to
        invariant
            from <= i <= to <= s@.len(),
            spec_all_digits(s@.subrange(from as int, to as int)),
            acc as nat == spec_dec_val(s@.subrange(from as int, i as int)),
        decreases to - i,
    {
        proof {
            assert(s@.subrange(from as int, to as int)[i - from] == s@[i as int]);
        }
        let c = s[i];
        let d = (c as u32 - 48) as u64;
        proof {
            let whole = s@.subrange(from as int, (i + 1) as int);
            assert(whole.drop_last() =~= s@.subrange(from as int, i as int));
            assert(whole.last() == s@[i as int]);
        }
        if acc > (u64::MAX - d) / 10 {
            proof {
                assert(acc * 10 + d > u64::MAX) by (nonlinear_arith)
                    requires
                        acc > (u64::MAX - d) / 10,
                        d <= 9,
                ;
                lemma_dec_val_grows(s@.subrange(from as int, to as int), (i + 1 - from) as int);
                assert(s@.subrange(from as int, to as int).subrange(0, (i + 1 - from) as int)
                    =~= s@.subrange(from as int, (i + 1) as int));
            }
            return None;
        }
        proof {
            assert(acc * 10 + d <= u64::MAX) by (nonlinear_arith)
                requires
                    acc <= (u64::MAX - d) / 10,
                    d <= 9,
            ;
        }
        acc = acc * 10 + d;
        i = i + 1;
    }
    proof {
        assert(s@.subrange(from as int, i as int) =~= s@.subrange(from as int, to as int));
    }
    Some(acc)
}

/// A digit string's value is at least the value of any of its prefixes.
proof fn lemma_dec_val_grows(s: Seq<char>, k: int)
    requires
        0 <= k <= s.len(),
    ensures
        spec_dec_val(s) >= spec_dec_val(s.subrange(0, k)),
    decreases s.len() - k,
{
    if k < s.len() {
        lemma_dec_val_grows(s, k + 1);
        let longer = s.subrange(0, k + 1);
        assert(longer.drop_last() =~= s.subrange(0, k));
        assert(spec_dec_val(longer) == spec_dec_val(s.subrange(0, k)) * 10 + spec_digit_val(
            longer.last(),
        ));
        assert(spec_dec_val(s.subrange(0, k)) * 10 >= spec_dec_val(s.subrange(0, k))) by (
        nonlinear_arith);
    } else {
        assert(s.subrange(0, k) =~= s);
    }
}

} // verus!
