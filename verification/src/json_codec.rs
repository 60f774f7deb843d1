//! The codec round trip: the printer's output parses back to the very tree
//! it was printed from. This is what lets an encoded plan be decoded without
//! loss.

use vstd::prelude::*;

use crate::json::{
    spec_digits_end, spec_hex4, spec_hex_val, spec_is_hex, spec_is_ws, spec_parse_arr_rest,
    spec_parse_escape, spec_parse_json, spec_parse_number, spec_parse_obj_rest,
    spec_parse_str_body, spec_parse_value, spec_skip_ws, spec_doc_fuel, JsonV,
};
use crate::json_print::{
    spec_escape, spec_escape_char, spec_hex_digit_char, spec_print_int, spec_unparse,
    spec_unparse_field, spec_unparse_fields, spec_unparse_items,
};
use crate::text::{spec_dec, spec_dec_val, spec_digit, spec_is_digit};

verus! {

broadcast use
    vstd::seq::axiom_seq_index_decreases,
    vstd::seq::axiom_seq_subrange_decreases,
;

/// Whether every number in the tree fits the parser's integer type.
pub open spec fn spec_json_i64(j: JsonV) -> bool
    decreases j,
{
    match j {
        JsonV::Int(n) => i64::MIN <= n <= i64::MAX,
        JsonV::NumLit(_) => false,
        JsonV::Arr(items) => spec_json_i64_items(items),
        JsonV::Obj(fields) => spec_json_i64_fields(fields),
        _ => true,
    }
}

/// Whether every number in a run of trees fits the parser's integer type.
pub open spec fn spec_json_i64_items(items: Seq<JsonV>) -> bool
    decreases items,
{
    if items.len() == 0 {
        true
    } else {
        spec_json_i64(items[0]) && spec_json_i64_items(items.drop_first())
    }
}

/// Whether every number under a run of members fits the parser's integer
/// type.
pub open spec fn spec_json_i64_fields(fields: Seq<(Seq<char>, JsonV)>) -> bool
    decreases fields,
{
    if fields.len() == 0 {
        true
    } else {
        spec_json_i64(fields[0].1) && spec_json_i64_fields(fields.drop_first())
    }
}

/// Whether position `b` can follow a printed value: the end of the text, or
/// a separator or closer.
pub open spec fn spec_after_value_ok(s: Seq<char>, b: int) -> bool {
    b == s.len() || (0 <= b < s.len() && (s[b] == ',' || s[b] == ']' || s[b] == '}'))
}

/// A decimal representation is never empty and holds only digits.
proof fn lemma_dec_shape(n: nat)
    ensures
        spec_dec(n).len() >= 1,
        forall|m: int|
            0 <= m < spec_dec(n).len() ==> spec_is_digit(#[trigger] spec_dec(n)[m]),
        spec_dec(n)[0] == (if n < 10 {
            spec_digit(n)
        } else {
            spec_dec(n / 10)[0]
        }),
    decreases n,
{
    if n < 10 {
        assert(spec_dec(n) =~= seq![spec_digit(n)]);
        assert(spec_digit(n) as u32 == 48 + n);
    } else {
        lemma_dec_shape(n / 10);
        assert(spec_digit(n % 10) as u32 == 48 + n % 10);
        assert forall|m: int|
            0 <= m < spec_dec(n).len() implies spec_is_digit(#[trigger] spec_dec(n)[m]) by {
            if m < spec_dec(n).len() - 1 {
                assert(spec_dec(n)[m] == spec_dec(n / 10)[m]);
            } else {
                assert(spec_dec(n)[m] == spec_digit(n % 10));
            }
        }
    }
}

/// A number at least ten never prints with a leading zero.
proof fn lemma_dec_no_leading_zero(n: nat)
    requires
        n >= 1,
    ensures
        spec_dec(n)[0] != '0',
    decreases n,
{
    lemma_dec_shape(n);
    if n < 10 {
        assert(spec_digit(n) as u32 == 48 + n);
    } else {
        lemma_dec_no_leading_zero(n / 10);
    }
}

/// Reading the digits of a printed number gives the number back.
proof fn lemma_dec_val_of_dec(n: nat)
    ensures
        spec_dec_val(spec_dec(n)) == n,
    decreases n,
{
    if n < 10 {
        assert(spec_dec(n) =~= seq![spec_digit(n)]);
        assert(spec_dec_val(seq![spec_digit(n)].drop_last()) == 0) by {
            assert(seq![spec_digit(n)].drop_last() =~= Seq::<char>::empty());
        }
        assert(spec_digit(n) as u32 == 48 + n);
    } else {
        lemma_dec_val_of_dec(n / 10);
        assert(spec_dec(n).drop_last() =~= spec_dec(n / 10));
        assert(spec_dec(n).last() == spec_digit(n % 10));
        assert(spec_digit(n % 10) as u32 == 48 + n % 10);
    }
}

/// Every character of a slice equality, one index at a time.
proof fn lemma_slice_chars(s: Seq<char>, i: int, t: Seq<char>)
    requires
        0 <= i,
        i + t.len() <= s.len(),
        s.subrange(i, i + t.len() as int) == t,
    ensures
        forall|m: int| 0 <= m < t.len() ==> s[i + m] == #[trigger] t[m],
{
    assert forall|m: int| 0 <= m < t.len() implies s[i + m] == #[trigger] t[m] by {
        assert(s.subrange(i, i + t.len() as int)[m] == t[m]);
    }
}

/// A digit run bounded by a non-digit ends exactly at the bound.
proof fn lemma_digits_end_run(s: Seq<char>, i: int, j: int)
    requires
        0 <= i <= j <= s.len(),
        forall|m: int| i <= m < j ==> spec_is_digit(#[trigger] s[m]),
        j == s.len() || !spec_is_digit(s[j]),
    ensures
        spec_digits_end(s, i) == j,
    decreases j - i,
{
    if i < j {
        lemma_digits_end_run(s, i + 1, j);
    }
}

/// A character is recovered from its numeric value.
proof fn lemma_char_round(c: char)
    ensures
        ((c as u32) as char) == c,
{
}

/// Text that continues with a non-blank character skips no whitespace.
proof fn lemma_skip_ws_here(s: Seq<char>, i: int)
    requires
        i >= s.len() || (0 <= i && !spec_is_ws(s[i])),
    ensures
        spec_skip_ws(s, i) == i,
{
}

/// A printed value is never empty, and its first character is never blank
/// and never a separator or closer.
proof fn lemma_unparse_head(j: JsonV)
    requires
        !(j is NumLit),
    ensures
        spec_unparse(j).len() >= 1,
        !spec_is_ws(spec_unparse(j)[0]),
        spec_unparse(j)[0] != ',' && spec_unparse(j)[0] != ']' && spec_unparse(j)[0] != '}',
        spec_unparse(j)[0] != ':',
{
    match j {
        JsonV::Int(n) => {
            if n >= 0 {
                lemma_dec_shape(n as nat);
                assert(spec_unparse(j)[0] == spec_dec(n as nat)[0]);
                assert(spec_dec(n as nat)[0] as u32 >= 48 && spec_dec(n as nat)[0] as u32 <= 57)
                    by {
                    lemma_dec_shape(n as nat);
                    assert(spec_is_digit(spec_dec(n as nat)[0]));
                }
            } else {
                assert(spec_unparse(j)[0] == '-');
            }
        },
        _ => {
        },
    }
}

/// The printed form of a string splits at its first character.
proof fn lemma_escape_first(s: Seq<char>)
    requires
        s.len() > 0,
    ensures
        spec_escape(s) == spec_escape_char(s[0]) + spec_escape(s.drop_first()),
    decreases s.len(),
{
    if s.len() == 1 {
        assert(s.drop_last() =~= Seq::<char>::empty());
        assert(s.drop_first() =~= Seq::<char>::empty());
        assert(spec_escape(s) == spec_escape(s.drop_last()) + spec_escape_char(s.last()));
        assert(Seq::<char>::empty() + spec_escape_char(s[0]) =~= spec_escape_char(s[0]));
        assert(spec_escape_char(s[0]) + Seq::<char>::empty() =~= spec_escape_char(s[0]));
    } else {
        lemma_escape_first(s.drop_last());
        assert(s.drop_last()[0] == s[0]);
        assert(s.drop_last().drop_first() =~= s.drop_first().drop_last());
        assert(s.drop_first().last() == s.last());
        assert(spec_escape(s) == spec_escape(s.drop_last()) + spec_escape_char(s.last()));
        assert(spec_escape(s.drop_last()) == spec_escape_char(s[0]) + spec_escape(
            s.drop_last().drop_first(),
        ));
        assert(spec_escape(s.drop_first()) == spec_escape(s.drop_first().drop_last())
            + spec_escape_char(s.drop_first().last()));
        assert((spec_escape_char(s[0]) + spec_escape(s.drop_first().drop_last()))
            + spec_escape_char(s.last()) =~= spec_escape_char(s[0]) + (spec_escape(
            s.drop_first().drop_last(),
        ) + spec_escape_char(s.last())));
    }
}

/// A printed hexadecimal digit reads back as its value.
proof fn lemma_hex_digit_round(d: int)
    requires
        0 <= d < 16,
    ensures
        spec_is_hex(spec_hex_digit_char(d)),
        spec_hex_val(spec_hex_digit_char(d)) == d,
{
    if d < 10 {
        assert(spec_hex_digit_char(d) as u32 == 48 + d);
    } else {
        assert(spec_hex_digit_char(d) as u32 == 87 + d);
    }
}

/// Reading a printed string body, from just after its opening quote, gives
/// the string back and stops just after its closing quote.
proof fn lemma_parse_str_body_of_print(s: Seq<char>, i: int, content: Seq<char>)
    requires
        0 <= i,
        i + spec_escape(content).len() + 1 <= s.len(),
        s.subrange(i, i + spec_escape(content).len() + 1) == spec_escape(content) + seq!['"'],
    ensures
        spec_parse_str_body(s, i) == Some((content, i + spec_escape(content).len() + 1)),
    decreases content.len(),
{
    let whole = spec_escape(content) + seq!['"'];
    lemma_slice_chars(s, i, whole);
    if content.len() == 0 {
        assert(spec_escape(content) =~= Seq::<char>::empty());
        assert(s[i] == whole[0]);
        assert(s[i] == '"');
        assert(spec_parse_str_body(s, i) == Some((Seq::<char>::empty(), i + 1)));
        assert(Seq::<char>::empty() =~= content);
    } else {
        let c = content[0];
        let rest = content.drop_first();
        lemma_escape_first(content);
        let ec = spec_escape_char(c);
        let tail = spec_escape(rest) + seq!['"'];
        assert(whole =~= ec + tail);
        assert forall|m: int| 0 <= m < ec.len() implies s[i + m] == ec[m] by {
            assert(whole[m] == ec[m]);
        }
        let j = i + ec.len();
        assert(s.subrange(j, j + tail.len() as int) =~= tail) by {
            assert forall|m: int| 0 <= m < tail.len() implies s[j + m] == tail[m] by {
                assert(whole[ec.len() + m] == tail[m]);
            }
        }
        lemma_parse_str_body_of_print(s, j, rest);
        if c == '"' {
            assert(s[i] == whole[0] && s[i + 1] == whole[1]);
            assert(whole[0] == ec[0] && whole[1] == ec[1]);
            assert(s[i] == '\\' && s[i + 1] == '"');
            assert(spec_parse_escape(s, i + 1) == Some(('"', i + 2)));
            assert(seq![c] + rest =~= content);
        } else if c == '\\' {
            assert(s[i] == whole[0] && s[i + 1] == whole[1]);
            assert(whole[0] == ec[0] && whole[1] == ec[1]);
            assert(s[i] == '\\' && s[i + 1] == '\\');
            assert(spec_parse_escape(s, i + 1) == Some(('\\', i + 2)));
            assert(seq![c] + rest =~= content);
        } else if (c as u32) < 0x20 {
            let hi = (c as u32 / 16) as int;
            let lo = (c as u32 % 16) as int;
            lemma_hex_digit_round(hi);
            lemma_hex_digit_round(lo);
            assert forall|m: int| 0 <= m < 6 implies s[i + m] == ec[m] by {
                assert(s[i + m] == whole[m]);
                assert(whole[m] == ec[m]);
            }
            assert(s[i] == '\\' && s[i + 1] == 'u' && s[i + 2] == '0' && s[i + 3] == '0' && s[i
                + 4] == spec_hex_digit_char(hi) && s[i + 5] == spec_hex_digit_char(lo));
            assert('0' as u32 == 48 && spec_is_hex('0') && spec_hex_val('0') == 0);
            assert(spec_hex4(s, i + 2) == Some(hi * 0x10 + lo));
            assert(hi * 0x10 + lo == c as u32) by {
                assert(c as u32 == (c as u32 / 16) * 16 + (c as u32 % 16));
            }
            assert(spec_parse_escape(s, i + 1) == Some(
                ((((hi * 0x10 + lo) as u32) as char), i + 6),
            ));
            assert((((hi * 0x10 + lo) as u32) as char) == c) by {
                lemma_char_round(c);
            }
            assert(seq![c] + rest =~= content);
        } else {
            assert(s[i] == whole[0]);
            assert(whole[0] == ec[0]);
            assert(ec[0] == c);
            assert(c != '"' && c != '\\' && (c as u32) >= 0x20);
            assert(seq![c] + rest =~= content);
        }
    }
}

/// Reading a printed integer gives the integer back and stops at its end.
proof fn lemma_parse_number_of_print(s: Seq<char>, i: int, n: int)
    requires
        0 <= i,
        i64::MIN <= n <= i64::MAX,
        i + spec_print_int(n).len() <= s.len(),
        s.subrange(i, i + spec_print_int(n).len()) == spec_print_int(n),
        spec_after_value_ok(s, i + spec_print_int(n).len()),
    ensures
        spec_parse_number(s, i) == Some((Some(n), i + spec_print_int(n).len())),
        spec_is_digit(s[i]) || s[i] == '-',
{
    let txt = spec_print_int(n);
    let b = i + txt.len();
    lemma_slice_chars(s, i, txt);
    if n >= 0 {
        lemma_dec_shape(n as nat);
        assert(txt == spec_dec(n as nat));
        assert forall|m: int| i <= m < b implies spec_is_digit(#[trigger] s[m]) by {
            assert(s[m] == txt[m - i]);
        }
        assert(b == s.len() || !spec_is_digit(s[b]));
        lemma_digits_end_run(s, i, b);
        assert(s[i] == txt[0]);
        assert(!(s[i] == '-'));
        if n >= 10 {
            lemma_dec_no_leading_zero(n as nat);
            assert(s[i] != '0');
        } else {
            assert(b == i + 1);
        }
        assert(b == s.len() || (s[b] != '.' && s[b] != 'e' && s[b] != 'E'));
        assert(s.subrange(i, b) =~= txt);
        lemma_dec_val_of_dec(n as nat);
        assert(spec_parse_number(s, i) == Some((Some(n), b)));
    } else {
        assert(txt == seq!['-'] + spec_dec((-n) as nat));
        assert(s[i] == txt[0]);
        assert(txt[0] == '-');
        lemma_dec_shape((-n) as nat);
        assert forall|m: int| i + 1 <= m < b implies spec_is_digit(#[trigger] s[m]) by {
            assert(s[m] == txt[m - i]);
            assert(txt[m - i] == spec_dec((-n) as nat)[m - i - 1]);
        }
        lemma_digits_end_run(s, i + 1, b);
        lemma_dec_no_leading_zero((-n) as nat);
        assert(s[i + 1] == spec_dec((-n) as nat)[0]) by {
            assert(s[i + 1] == txt[1]);
            assert(txt[1] == spec_dec((-n) as nat)[0]);
        }
        assert(s[i + 1] != '0');
        assert(b == s.len() || (s[b] != '.' && s[b] != 'e' && s[b] != 'E'));
        assert(s.subrange(i + 1, b) =~= spec_dec((-n) as nat)) by {
            assert forall|m: int| 0 <= m < b - i - 1 implies #[trigger] s.subrange(i + 1, b)[m]
                == spec_dec((-n) as nat)[m] by {
                assert(s.subrange(i + 1, b)[m] == s[i + 1 + m]);
                assert(s[i + 1 + m] == txt[1 + m]);
                assert(txt[1 + m] == spec_dec((-n) as nat)[m]);
            }
        }
        lemma_dec_val_of_dec((-n) as nat);
        assert(spec_parse_number(s, i) == Some((Some(n), b)));
    }
}

/// The printed elements of a non-empty array split at the first element.
proof fn lemma_unparse_items_first(items: Seq<JsonV>)
    requires
        items.len() > 0,
    ensures
        spec_unparse_items(items) == spec_unparse(items[0]) + (if items.len() == 1 {
            Seq::<char>::empty()
        } else {
            seq![','] + spec_unparse_items(items.drop_first())
        }),
    decreases items.len(),
{
    if items.len() == 1 {
        assert(spec_unparse(items[0]) + Seq::<char>::empty() =~= spec_unparse(items[0]));
    } else if items.len() == 2 {
        assert(items.drop_last() =~= seq![items[0]]);
        assert(items.drop_first() =~= seq![items[1]]);
        assert(spec_unparse_items(items) == spec_unparse_items(seq![items[0]]) + seq![',']
            + spec_unparse(items[1]));
        assert(spec_unparse_items(seq![items[0]]) == spec_unparse(items[0]));
        assert(spec_unparse_items(items.drop_first()) == spec_unparse(items[1]));
        assert(spec_unparse(items[0]) + seq![','] + spec_unparse(items[1]) =~= spec_unparse(
            items[0],
        ) + (seq![','] + spec_unparse(items[1])));
    } else {
        lemma_unparse_items_first(items.drop_last());
        assert(items.drop_last()[0] == items[0]);
        assert(items.drop_last().drop_first() =~= items.drop_first().drop_last());
        assert(items.drop_first().last() == items.last());
        assert(items.drop_last().len() >= 2);
        assert(spec_unparse_items(items) == spec_unparse_items(items.drop_last()) + seq![',']
            + spec_unparse(items.last()));
        assert(spec_unparse_items(items.drop_last()) == spec_unparse(items[0]) + (seq![',']
            + spec_unparse_items(items.drop_last().drop_first())));
        assert(spec_unparse_items(items.drop_first()) == spec_unparse_items(
            items.drop_first().drop_last(),
        ) + seq![','] + spec_unparse(items.drop_first().last()));
        assert((spec_unparse(items[0]) + (seq![','] + spec_unparse_items(
            items.drop_first().drop_last(),
        ))) + seq![','] + spec_unparse(items.last()) =~= spec_unparse(items[0]) + (seq![',']
            + (spec_unparse_items(items.drop_first().drop_last()) + seq![','] + spec_unparse(
            items.drop_first().last(),
        ))));
    }
}

/// The printed members of a non-empty object split at the first member.
proof fn lemma_unparse_fields_first(fields: Seq<(Seq<char>, JsonV)>)
    requires
        fields.len() > 0,
    ensures
        spec_unparse_fields(fields) == spec_unparse_field(fields[0]) + (if fields.len() == 1 {
            Seq::<char>::empty()
        } else {
            seq![','] + spec_unparse_fields(fields.drop_first())
        }),
    decreases fields.len(),
{
    if fields.len() == 1 {
        assert(spec_unparse_field(fields[0]) + Seq::<char>::empty() =~= spec_unparse_field(
            fields[0],
        ));
    } else if fields.len() == 2 {
        assert(fields.drop_last() =~= seq![fields[0]]);
        assert(fields.drop_first() =~= seq![fields[1]]);
        assert(spec_unparse_fields(seq![fields[0]]) == spec_unparse_field(fields[0]));
        assert(spec_unparse_fields(fields.drop_first()) == spec_unparse_field(fields[1]));
        assert(spec_unparse_field(fields[0]) + seq![','] + spec_unparse_field(fields[1])
            =~= spec_unparse_field(fields[0]) + (seq![','] + spec_unparse_field(fields[1])));
    } else {
        lemma_unparse_fields_first(fields.drop_last());
        assert(fields.drop_last()[0] == fields[0]);
        assert(fields.drop_last().drop_first() =~= fields.drop_first().drop_last());
        assert(fields.drop_first().last() == fields.last());
        assert(fields.drop_last().len() >= 2);
        assert((spec_unparse_field(fields[0]) + (seq![','] + spec_unparse_fields(
            fields.drop_first().drop_last(),
        ))) + seq![','] + spec_unparse_field(fields.last()) =~= spec_unparse_field(fields[0]) + (
        seq![','] + (spec_unparse_fields(fields.drop_first().drop_last()) + seq![',']
            + spec_unparse_field(fields.drop_first().last()))));
    }
}

/// Reading printed text starting at a printed value gives that value back
/// and stops just after it.
#[verifier::rlimit(100)]
proof fn lemma_parse_value_of_print(s: Seq<char>, i: int, j: JsonV, fuel: nat)
    requires
        0 <= i,
        spec_json_i64(j),
        i + spec_unparse(j).len() <= s.len(),
        s.subrange(i, i + spec_unparse(j).len()) == spec_unparse(j),
        spec_after_value_ok(s, i + spec_unparse(j).len()),
        fuel >= 2 * (s.len() - i) + 1,
    ensures
        spec_parse_value(s, i, fuel) == Some((j, i + spec_unparse(j).len())),
    decreases j, 0int,
{
    let txt = spec_unparse(j);
    let b = i + txt.len();
    assert(!(j is NumLit));
    lemma_unparse_head(j);
    lemma_slice_chars(s, i, txt);
    match j {
        JsonV::Null => {
            assert(s[i] == 'n' && s[i + 1] == 'u' && s[i + 2] == 'l' && s[i + 3] == 'l');
            assert(txt.len() == 4);
            assert(spec_parse_value(s, i, fuel) == Some((JsonV::Null, i + 4)));
        },
        JsonV::Bool(v) => {
            if v {
                assert(s[i] == 't' && s[i + 1] == 'r' && s[i + 2] == 'u' && s[i + 3] == 'e');
                assert(txt.len() == 4);
                assert(spec_parse_value(s, i, fuel) == Some((JsonV::Bool(true), i + 4)));
            } else {
                assert(s[i] == 'f' && s[i + 1] == 'a' && s[i + 2] == 'l' && s[i + 3] == 's' && s[i
                    + 4] == 'e');
                assert(txt.len() == 5);
                assert(spec_parse_value(s, i, fuel) == Some((JsonV::Bool(false), i + 5)));
            }
        },
        JsonV::NumLit(_) => {
            assert(false);
        },
        JsonV::Int(n) => {
            assert(s.subrange(i, i + spec_print_int(n).len()) == spec_print_int(n));
            lemma_parse_number_of_print(s, i, n);
            assert(s[i] != 'n' && s[i] != 't' && s[i] != 'f' && s[i] != '"' && s[i] != '[' && s[i]
                != '{') by {
                if spec_is_digit(s[i]) {
                } else {
                    assert(s[i] == '-');
                }
            }
            assert(spec_parse_value(s, i, fuel) == Some((JsonV::Int(n), i + txt.len())));
        },
        JsonV::Str(content) => {
            assert(s[i] == '"');
            assert(txt =~= seq!['"'] + (spec_escape(content) + seq!['"']));
            assert(s.subrange(i + 1, i + 1 + spec_escape(content).len() + 1) =~= spec_escape(
                content,
            ) + seq!['"']) by {
                assert forall|m: int|
                    0 <= m < spec_escape(content).len() + 1 implies s[i + 1 + m] == (spec_escape(
                    content,
                ) + seq!['"'])[m] by {
                    assert(s[i + 1 + m] == txt[1 + m]);
                    assert(txt[1 + m] == (spec_escape(content) + seq!['"'])[m]);
                }
            }
            lemma_parse_str_body_of_print(s, i + 1, content);
            assert(txt.len() == spec_escape(content).len() + 2);
            assert(spec_parse_value(s, i, fuel) == Some(
                (JsonV::Str(content), i + txt.len()),
            ));
        },
        JsonV::Arr(items) => {
            assert(s[i] == '[');
            if items.len() == 0 {
                assert(spec_unparse_items(items) =~= Seq::<char>::empty());
                assert(s[i + 1] == txt[1]);
                assert(txt[1] == ']');
                lemma_skip_ws_here(s, i + 1);
                assert(txt.len() == 2);
                assert(items =~= Seq::<JsonV>::empty());
                assert(spec_parse_value(s, i, fuel) == Some((JsonV::Arr(items), i + 2)));
            } else {
                lemma_unparse_items_first(items);
                assert(spec_json_i64(items[0]));
                lemma_unparse_head(items[0]);
                assert(s[i + 1] == spec_unparse(items[0])[0]) by {
                    assert(txt[1] == s[i + 1]);
                    assert(spec_unparse_items(items)[0] == spec_unparse(items[0])[0]);
                }
                assert(!spec_is_ws(s[i + 1]));
                lemma_skip_ws_here(s, i + 1);
                assert(s[i + 1] != ']');
                assert(s.subrange(i + 1, i + 1 + spec_unparse_items(items).len() + 1)
                    =~= spec_unparse_items(items) + seq![']']) by {
                    assert forall|m: int|
                        0 <= m < spec_unparse_items(items).len() + 1 implies s[i + 1 + m] == (
                    spec_unparse_items(items) + seq![']'])[m] by {
                        assert(s[i + 1 + m] == txt[1 + m]);
                        assert(txt[1 + m] == (spec_unparse_items(items) + seq![']'])[m]);
                    }
                }
                lemma_parse_arr_rest_of_print(s, i + 1, items, (fuel - 1) as nat);
                assert(txt.len() == spec_unparse_items(items).len() + 2);
                assert(spec_parse_value(s, i, fuel) == Some(
                    (JsonV::Arr(items), i + txt.len()),
                ));
            }
        },
        JsonV::Obj(fields) => {
            assert(s[i] == '{');
            if fields.len() == 0 {
                assert(spec_unparse_fields(fields) =~= Seq::<char>::empty());
                assert(s[i + 1] == txt[1]);
                assert(txt[1] == '}');
                lemma_skip_ws_here(s, i + 1);
                assert(txt.len() == 2);
                assert(fields =~= Seq::<(Seq<char>, JsonV)>::empty());
                assert(spec_parse_value(s, i, fuel) == Some((JsonV::Obj(fields), i + 2)));
            } else {
                lemma_unparse_fields_first(fields);
                assert(s[i + 1] == '"') by {
                    assert(txt[1] == s[i + 1]);
                    assert(spec_unparse_fields(fields)[0] == spec_unparse_field(fields[0])[0]);
                }
                lemma_skip_ws_here(s, i + 1);
                assert(s[i + 1] != '}');
                assert(s.subrange(i + 1, i + 1 + spec_unparse_fields(fields).len() + 1)
                    =~= spec_unparse_fields(fields) + seq!['}']) by {
                    assert forall|m: int|
                        0 <= m < spec_unparse_fields(fields).len() + 1 implies s[i + 1 + m] == (
                    spec_unparse_fields(fields) + seq!['}'])[m] by {
                        assert(s[i + 1 + m] == txt[1 + m]);
                        assert(txt[1 + m] == (spec_unparse_fields(fields) + seq!['}'])[m]);
                    }
                }
                lemma_parse_obj_rest_of_print(s, i + 1, fields, (fuel - 1) as nat);
                assert(txt.len() == spec_unparse_fields(fields).len() + 2);
                assert(spec_parse_value(s, i, fuel) == Some(
                    (JsonV::Obj(fields), i + txt.len()),
                ));
            }
        },
    }
}

/// Reading the printed elements of a non-empty array, the first starting at
/// `i`, gives the elements back and stops just after the closing bracket.
#[verifier::rlimit(100)]
proof fn lemma_parse_arr_rest_of_print(s: Seq<char>, i: int, items: Seq<JsonV>, fuel: nat)
    requires
        0 <= i,
        items.len() > 0,
        spec_json_i64_items(items),
        i + spec_unparse_items(items).len() + 1 <= s.len(),
        s.subrange(i, i + spec_unparse_items(items).len() + 1) == spec_unparse_items(items)
            + seq![']'],
        spec_after_value_ok(s, i + spec_unparse_items(items).len() + 1),
        fuel >= 2 * (s.len() - i) + 2,
    ensures
        spec_parse_arr_rest(s, i, fuel) == Some(
            (items, i + spec_unparse_items(items).len() + 1),
        ),
    decreases items, 1int,
{
    let whole = spec_unparse_items(items) + seq![']'];
    lemma_slice_chars(s, i, whole);
    lemma_unparse_items_first(items);
    let head = spec_unparse(items[0]);
    assert(spec_json_i64(items[0]));
    let j0 = i + head.len();
    assert(s.subrange(i, j0) =~= head) by {
        assert forall|m: int| 0 <= m < head.len() implies s[i + m] == head[m] by {
            assert(s[i + m] == whole[m]);
            assert(whole[m] == spec_unparse_items(items)[m]);
            if items.len() == 1 {
            } else {
                assert(spec_unparse_items(items)[m] == head[m]);
            }
        }
    }
    if items.len() == 1 {
        assert(s[j0] == ']') by {
            assert(whole[head.len() as int] == s[j0]);
        }
        lemma_parse_value_of_print(s, i, items[0], (fuel - 1) as nat);
        lemma_skip_ws_here(s, j0);
        assert(seq![items[0]] =~= items);
    } else {
        let rest = items.drop_first();
        assert(rest.len() > 0);
        assert(spec_json_i64_items(rest));
        assert(s[j0] == ',') by {
            assert(whole[head.len() as int] == s[j0]);
        }
        lemma_parse_value_of_print(s, i, items[0], (fuel - 1) as nat);
        lemma_skip_ws_here(s, j0);
        let nk = j0 + 1;
        assert(s.subrange(nk, nk + spec_unparse_items(rest).len() + 1) =~= spec_unparse_items(
            rest,
        ) + seq![']']) by {
            assert forall|m: int|
                0 <= m < spec_unparse_items(rest).len() + 1 implies s[nk + m] == (
            spec_unparse_items(rest) + seq![']'])[m] by {
                assert(whole[head.len() + 1 + m] == s[nk + m]);
            }
        }
        lemma_unparse_items_first(rest);
        assert(spec_json_i64(rest[0]));
        lemma_unparse_head(rest[0]);
        lemma_slice_chars(s, nk, spec_unparse_items(rest) + seq![']']);
        assert(!spec_is_ws(s[nk])) by {
            assert(s[nk] == (spec_unparse_items(rest) + seq![']'])[0]);
            assert(spec_unparse_items(rest)[0] == spec_unparse(rest[0])[0]);
        }
        lemma_skip_ws_here(s, nk);
        lemma_parse_arr_rest_of_print(s, nk, rest, (fuel - 1) as nat);
        assert(seq![items[0]] + rest =~= items);
    }
}

/// Reading the printed members of a non-empty object, the first key's quote
/// standing at `i`, gives the members back and stops just after the closing
/// brace.
#[verifier::rlimit(100)]
proof fn lemma_parse_obj_rest_of_print(
    s: Seq<char>,
    i: int,
    fields: Seq<(Seq<char>, JsonV)>,
    fuel: nat,
)
    requires
        0 <= i,
        fields.len() > 0,
        spec_json_i64_fields(fields),
        i + spec_unparse_fields(fields).len() + 1 <= s.len(),
        s.subrange(i, i + spec_unparse_fields(fields).len() + 1) == spec_unparse_fields(fields)
            + seq!['}'],
        spec_after_value_ok(s, i + spec_unparse_fields(fields).len() + 1),
        fuel >= 2 * (s.len() - i) + 2,
    ensures
        spec_parse_obj_rest(s, i, fuel) == Some(
            (fields, i + spec_unparse_fields(fields).len() + 1),
        ),
    decreases fields, 1int,
{
    let whole = spec_unparse_fields(fields) + seq!['}'];
    lemma_slice_chars(s, i, whole);
    lemma_unparse_fields_first(fields);
    let head = spec_unparse_field(fields[0]);
    assert(spec_json_i64(fields[0].1));
    let key = fields[0].0;
    let val = fields[0].1;
    assert(head =~= seq!['"'] + spec_escape(key) + seq!['"', ':'] + spec_unparse(val));
    assert forall|m: int| 0 <= m < head.len() implies s[i + m] == head[m] by {
        assert(s[i + m] == whole[m]);
        assert(whole[m] == spec_unparse_fields(fields)[m]);
        if fields.len() == 1 {
        } else {
            assert(spec_unparse_fields(fields)[m] == head[m]);
        }
    }
    assert(s[i] == head[0]);
    assert(head[0] == '"');
    let jk = i + 1 + spec_escape(key).len() + 1;
    assert(s.subrange(i + 1, jk) =~= spec_escape(key) + seq!['"']) by {
        assert forall|m: int|
            0 <= m < spec_escape(key).len() + 1 implies s[i + 1 + m] == (spec_escape(key)
            + seq!['"'])[m] by {
            assert(s[i + 1 + m] == head[1 + m]);
        }
    }
    lemma_parse_str_body_of_print(s, i + 1, key);
    assert(s[jk] == ':') by {
        assert(head[jk - i] == s[jk]);
    }
    lemma_skip_ws_here(s, jk);
    let jv = jk + 1;
    let j0 = jv + spec_unparse(val).len();
    assert(s.subrange(jv, j0) =~= spec_unparse(val)) by {
        assert forall|m: int| 0 <= m < spec_unparse(val).len() implies s[jv + m] == spec_unparse(
            val,
        )[m] by {
            assert(s[jv + m] == head[jv - i + m]);
        }
    }
    assert(!(val is NumLit));
    lemma_unparse_head(val);
    lemma_skip_ws_here(s, jv);
    if fields.len() == 1 {
        assert(s[j0] == '}') by {
            assert(whole[head.len() as int] == s[j0]);
        }
        lemma_parse_value_of_print(s, jv, val, (fuel - 1) as nat);
        lemma_skip_ws_here(s, j0);
        assert(seq![(key, val)] =~= fields);
        assert(spec_parse_obj_rest(s, i, fuel) == Some((seq![(key, val)], j0 + 1)));
    } else {
        let rest = fields.drop_first();
        assert(rest.len() > 0);
        assert(spec_json_i64_fields(rest));
        assert(s[j0] == ',') by {
            assert(whole[head.len() as int] == s[j0]);
        }
        lemma_parse_value_of_print(s, jv, val, (fuel - 1) as nat);
        lemma_skip_ws_here(s, j0);
        let nk = j0 + 1;
        assert(s.subrange(nk, nk + spec_unparse_fields(rest).len() + 1) =~= spec_unparse_fields(
            rest,
        ) + seq!['}']) by {
            assert forall|m: int|
                0 <= m < spec_unparse_fields(rest).len() + 1 implies s[nk + m] == (
            spec_unparse_fields(rest) + seq!['}'])[m] by {
                assert(whole[head.len() + 1 + m] == s[nk + m]);
            }
        }
        lemma_unparse_fields_first(rest);
        lemma_slice_chars(s, nk, spec_unparse_fields(rest) + seq!['}']);
        assert(!spec_is_ws(s[nk])) by {
            assert(s[nk] == (spec_unparse_fields(rest) + seq!['}'])[0]);
            assert(spec_unparse_fields(rest)[0] == spec_unparse_field(rest[0])[0]);
            assert(spec_unparse_field(rest[0])[0] == '"');
        }
        lemma_skip_ws_here(s, nk);
        lemma_parse_obj_rest_of_print(s, nk, rest, (fuel - 1) as nat);
        assert(seq![(key, val)] + rest =~= fields);
    }
}

/// The round trip: parsing the printed form of a tree gives the tree back,
/// whenever its numbers fit the parser's integer type.
pub proof fn lemma_parse_of_unparse(j: JsonV)
    requires
        spec_json_i64(j),
    ensures
        spec_parse_json(spec_unparse(j)) == Some(j),
{
    let s = spec_unparse(j);
    assert(!(j is NumLit));
    lemma_unparse_head(j);
    lemma_skip_ws_here(s, 0);
    assert(s.subrange(0, s.len() as int) =~= s);
    lemma_parse_value_of_print(s, 0, j, spec_doc_fuel(s));
    lemma_skip_ws_here(s, s.len() as int);
}

} // verus!
