//! The executable JSON printer, verified against a specification-level
//! printer. Output is minimal: no insignificant whitespace, strings escaped
//! with `\"`, `\\` and `\u00XX` for control characters.

use vstd::prelude::*;

use crate::json::{json_view, json_view_list, json_view_fields, lemma_json_view_list_index,
    lemma_json_view_fields_index, Json, JsonV};
use crate::text::{chars_string, spec_dec, u64_dec_chars};

verus! {

broadcast use
    vstd::std_specs::vec::axiom_vec_decreases_to_view,
    vstd::seq::axiom_seq_index_decreases,
    vstd::seq::axiom_seq_subrange_decreases,
;

/// The lower-case hexadecimal digit character for a value below sixteen.
pub open spec fn spec_hex_digit_char(n: int) -> char {
    if n < 10 {
        ((48 + n) as u32) as char
    } else {
        ((87 + n) as u32) as char
    }
}

/// The printed form of one string character: itself, or its escape.
pub open spec fn spec_escape_char(c: char) -> Seq<char> {
    if c == '"' {
        seq!['\\', '"']
    } else if c == '\\' {
        seq!['\\', '\\']
    } else if (c as u32) < 0x20 {
        seq!['\\', 'u', '0', '0', spec_hex_digit_char((c as u32 / 16) as int), spec_hex_digit_char(
            (c as u32 % 16) as int,
        )]
    } else {
        seq![c]
    }
}

/// The printed form of a string body, character by character.
pub open spec fn spec_escape(s: Seq<char>) -> Seq<char>
    decreases s.len(),
{
    if s.len() == 0 {
        Seq::empty()
    } else {
        spec_escape(s.drop_last()) + spec_escape_char(s.last())
    }
}

/// The printed form of an integer.
pub open spec fn spec_print_int(n: int) -> Seq<char> {
    if n < 0 {
        seq!['-'] + spec_dec((-n) as nat)
    } else {
        spec_dec(n as nat)
    }
}

/// The printed form of a JSON value.
pub open spec fn spec_unparse(j: JsonV) -> Seq<char>
    decreases j,
{
    match j {
        JsonV::Null => seq!['n', 'u', 'l', 'l'],
        JsonV::Bool(b) => if b {
            seq!['t', 'r', 'u', 'e']
        } else {
            seq!['f', 'a', 'l', 's', 'e']
        },
        JsonV::Int(n) => spec_print_int(n),
        JsonV::NumLit(t) => t,
        JsonV::Str(s) => seq!['"'] + spec_escape(s) + seq!['"'],
        JsonV::Arr(items) => seq!['['] + spec_unparse_items(items) + seq![']'],
        JsonV::Obj(fields) => seq!['{'] + spec_unparse_fields(fields) + seq!['}'],
    }
}

/// The printed forms of array elements, joined by commas.
pub open spec fn spec_unparse_items(items: Seq<JsonV>) -> Seq<char>
    decreases items,
{
    if items.len() == 0 {
        Seq::empty()
    } else if items.len() == 1 {
        spec_unparse(items[0])
    } else {
        spec_unparse_items(items.drop_last()) + seq![','] + spec_unparse(items.last())
    }
}

/// The printed forms of object members, joined by commas.
pub open spec fn spec_unparse_fields(fields: Seq<(Seq<char>, JsonV)>) -> Seq<char>
    decreases fields,
{
    if fields.len() == 0 {
        Seq::empty()
    } else if fields.len() == 1 {
        spec_unparse_field(fields[0])
    } else {
        spec_unparse_fields(fields.drop_last()) + seq![','] + spec_unparse_field(fields.last())
    }
}

/// The printed form of one object member: key, colon, value.
pub open spec fn spec_unparse_field(field: (Seq<char>, JsonV)) -> Seq<char>
    decreases field,
{
    seq!['"'] + spec_escape(field.0) + seq!['"', ':'] + spec_unparse(field.1)
}

/// Appends the printed form of one string character to `out`.
fn write_escape_char(c: char, out: &mut Vec<char>)
    ensures
        final(out)@ == old(out)@ + spec_escape_char(c),
{
    if c == '"' {
        out.push('\\');
        out.push('"');
        proof {
            assert(final(out)@ =~= old(out)@ + spec_escape_char(c));
        }
    } else if c == '\\' {
        out.push('\\');
        out.push('\\');
        proof {
            assert(final(out)@ =~= old(out)@ + spec_escape_char(c));
        }
    } else if (c as u32) < 0x20 {
        let hi = (c as u32) / 16;
        let lo = (c as u32) % 16;
        let hi_c = if hi < 10 {
            ((48 + hi) as u8) as char
        } else {
            ((87 + hi) as u8) as char
        };
        let lo_c = if lo < 10 {
            ((48 + lo) as u8) as char
        } else {
            ((87 + lo) as u8) as char
        };
        out.push('\\');
        out.push('u');
        out.push('0');
        out.push('0');
        out.push(hi_c);
        out.push(lo_c);
        proof {
            assert(hi_c == spec_hex_digit_char((c as u32 / 16) as int));
            assert(lo_c == spec_hex_digit_char((c as u32 % 16) as int));
            assert(final(out)@ =~= old(out)@ + spec_escape_char(c));
        }
    } else {
        out.push(c);
        proof {
            assert(final(out)@ =~= old(out)@ + spec_escape_char(c));
        }
    }
}

/// Appends the escaped body of `s` to `out`.
fn write_escaped(s: &str, out: &mut Vec<char>)
    ensures
        final(out)@ == old(out)@ + spec_escape(s@),
{
    let n = s.unicode_len();
    let mut i: usize = 0;
    while i < n
        invariant
            n == s@.len(),
            i <= n,
            out@ == old(out)@ + spec_escape(s@.subrange(0, i as int)),
        decreases n - i,
    {
        let c = s.get_char(i);
        write_escape_char(c, out);
        i = i + 1;
        proof {
            let pre = s@.subrange(0, i as int);
            assert(pre.drop_last() =~= s@.subrange(0, i - 1));
            assert(pre.last() == c);
            assert(old(out)@ + spec_escape(s@.subrange(0, i - 1)) + spec_escape_char(c)
                =~= old(out)@ + spec_escape(pre));
        }
    }
    proof {
        assert(s@.subrange(0, n as int) =~= s@);
    }
}

/// Appends the decimal form of `x` to `out`.
fn write_int(x: i64, out: &mut Vec<char>)
    ensures
        final(out)@ == old(out)@ + spec_print_int(x as int),
{
    let mag: u64 = if x < 0 {
        if x == i64::MIN {
            9223372036854775808u64
        } else {
            (-x) as u64
        }
    } else {
        x as u64
    };
    if x < 0 {
        out.push('-');
    }
    let digits = u64_dec_chars(mag);
    let ghost mid = out@;
    let mut k: usize = 0;
    while k < digits.len()
        invariant
            k <= digits@.len(),
            out@ == mid + digits@.subrange(0, k as int),
            digits@ == spec_dec(mag as nat),
        decreases digits@.len() - k,
    {
        out.push(digits[k]);
        k = k + 1;
        proof {
            assert(mid + digits@.subrange(0, k - 1) + seq![digits@[k - 1]] =~= mid
                + digits@.subrange(0, k as int));
        }
    }
    proof {
        assert(digits@.subrange(0, digits@.len() as int) =~= digits@);
        if x < 0 {
            assert(mag as nat == (-(x as int)) as nat);
            assert(mid =~= old(out)@ + seq!['-']);
            assert(old(out)@ + seq!['-'] + spec_dec(mag as nat) =~= old(out)@ + spec_print_int(
                x as int,
            ));
        } else {
            assert(old(out)@ + spec_dec(mag as nat) =~= old(out)@ + spec_print_int(x as int));
        }
    }
}

/// Appends the characters of `s` to `out`, untouched.
fn write_raw(s: &str, out: &mut Vec<char>)
    ensures
        final(out)@ == old(out)@ + s@,
{
    let n = s.unicode_len();
    let mut i: usize = 0;
    while i < n
        invariant
            n == s@.len(),
            i <= n,
            out@ == old(out)@ + s@.subrange(0, i as int),
        decreases n - i,
    {
        out.push(s.get_char(i));
        i = i + 1;
        proof {
            assert(out@ =~= old(out)@ + s@.subrange(0, i as int));
        }
    }
    proof {
        assert(s@.subrange(0, n as int) =~= s@);
    }
}

/// Appends the printed form of `j` to `out`.
#[verifier::loop_isolation(false)]
#[verifier::rlimit(60)]
fn write_json(j: &Json, out: &mut Vec<char>)
    ensures
        final(out)@ == old(out)@ + spec_unparse(j@),
    decreases *j,
{
    match j {
        Json::Null => {
            out.push('n');
            out.push('u');
            out.push('l');
            out.push('l');
            proof {
                assert(final(out)@ =~= old(out)@ + spec_unparse(j@));
            }
        },
        Json::Bool(b) => {
            if *b {
                out.push('t');
                out.push('r');
                out.push('u');
                out.push('e');
            } else {
                out.push('f');
                out.push('a');
                out.push('l');
                out.push('s');
                out.push('e');
            }
            proof {
                assert(final(out)@ =~= old(out)@ + spec_unparse(j@));
            }
        },
        Json::Int(x) => {
            write_int(*x, out);
        },
        Json::NumLit(t) => {
            write_raw(t.as_str(), out);
        },
        Json::Str(s) => {
            out.push('"');
            write_escaped(s.as_str(), out);
            out.push('"');
            proof {
                assert(final(out)@ =~= old(out)@ + spec_unparse(j@));
            }
        },
        Json::Arr(items) => {
            out.push('[');
            let ghost mid = out@;
            let ghost views = json_view_list(items@);
            proof {
                lemma_json_view_list_index(items@);
            }
            let mut k: usize = 0;
            while k < items.len()
                invariant
                    k <= items@.len(),
                    views == json_view_list(items@),
                    views.len() == items@.len(),
                    forall|m: int| 0 <= m < items@.len() ==> views[m] == json_view(
                        #[trigger] items@[m],
                    ),
                    out@ == mid + spec_unparse_items(views.subrange(0, k as int)),
                decreases items@.len() - k,
            {
                if k > 0 {
                    out.push(',');
                }
                let ghost before = out@;
                write_json(&items[k], out);
                proof {
                    let prev = views.subrange(0, k as int);
                    let cur = views.subrange(0, k + 1);
                    assert(cur.drop_last() =~= prev);
                    assert(cur.last() == views[k as int]);
                    if k == 0 {
                        assert(spec_unparse_items(cur) == spec_unparse(views[0]));
                        assert(out@ =~= mid + spec_unparse_items(cur));
                    } else {
                        assert(spec_unparse_items(cur) == spec_unparse_items(prev) + seq![',']
                            + spec_unparse(views[k as int]));
                        assert(out@ =~= mid + spec_unparse_items(cur));
                    }
                }
                k = k + 1;
            }
            out.push(']');
            proof {
                assert(views.subrange(0, views.len() as int) =~= views);
                assert(final(out)@ =~= old(out)@ + spec_unparse(j@));
            }
        },
        Json::Obj(fields) => {
            out.push('{');
            let ghost mid = out@;
            let ghost views = json_view_fields(fields@);
            proof {
                lemma_json_view_fields_index(fields@);
            }
            let mut k: usize = 0;
            while k < fields.len()
                invariant
                    k <= fields@.len(),
                    views == json_view_fields(fields@),
                    views.len() == fields@.len(),
                    forall|m: int| 0 <= m < fields@.len() ==> views[m] == (
                        (#[trigger] fields@[m]).0@,
                        json_view(fields@[m].1),
                    ),
                    out@ == mid + spec_unparse_fields(views.subrange(0, k as int)),
                decreases fields@.len() - k,
            {
                if k > 0 {
                    out.push(',');
                }
                let ghost before = out@;
                out.push('"');
                write_escaped(fields[k].0.as_str(), out);
                out.push('"');
                out.push(':');
                write_json(&fields[k].1, out);
                proof {
                    let prev = views.subrange(0, k as int);
                    let cur = views.subrange(0, k + 1);
                    assert(cur.drop_last() =~= prev);
                    assert(cur.last() == views[k as int]);
                    assert(out@ =~= before + spec_unparse_field(views[k as int]));
                    if k == 0 {
                        assert(spec_unparse_fields(cur) == spec_unparse_field(views[0]));
                        assert(out@ =~= mid + spec_unparse_fields(cur));
                    } else {
                        assert(spec_unparse_fields(cur) == spec_unparse_fields(prev) + seq![',']
                            + spec_unparse_field(views[k as int]));
                        assert(out@ =~= mid + spec_unparse_fields(cur));
                    }
                }
                k = k + 1;
            }
            out.push('}');
            proof {
                assert(views.subrange(0, views.len() as int) =~= views);
                assert(final(out)@ =~= old(out)@ + spec_unparse(j@));
            }
        },
    }
}

/// The printed form of `j` as a `String`.
pub fn json_to_string(j: &Json) -> (r: String)
    ensures
        r@ == spec_unparse(j@),
{
    let mut out: Vec<char> = Vec::new();
    write_json(j, &mut out);
    chars_string(&out)
}

} // verus!
