//! A JSON document model with its own verified text parser and printer.
//!
//! Plans travel as JSON: the planner's raw output is decoded from text, and a
//! job envelope is framed as text before submission. The grammar is the JSON
//! standard's; whole numbers that fit an `i64` become integers, and any other
//! number — a fraction, an exponent form, or one out of range — is carried as
//! its written form, since every numeric field of the plan schema is an
//! unsigned integer and such a value can only be refused by a schema, never
//! read into one.

use vstd::prelude::*;

use crate::text::{
    spec_all_digits, spec_dec, spec_dec_val, spec_digit, spec_is_digit,
};

verus! {

broadcast use
    vstd::std_specs::vec::axiom_vec_decreases_to_view,
    vstd::seq::axiom_seq_index_decreases,
    vstd::seq::axiom_seq_subrange_decreases,
;

/// A JSON value.
#[derive(Debug)]
pub enum Json {
    Null,
    Bool(bool),
    Int(i64),
    /// A number that is not a whole `i64` — a fraction, an exponent form, or
    /// one out of range — kept as written.
    NumLit(String),
    Str(String),
    Arr(Vec<Json>),
    Obj(Vec<(String, Json)>),
}

/// The mathematical model of a JSON value.
#[verifier::ext_equal]
pub ghost enum JsonV {
    Null,
    Bool(bool),
    Int(int),
    NumLit(Seq<char>),
    Str(Seq<char>),
    Arr(Seq<JsonV>),
    Obj(Seq<(Seq<char>, JsonV)>),
}

/// The model of `j`: the same tree over `Seq` and `int`.
pub open spec fn json_view(j: Json) -> JsonV
    decreases j,
{
    match j {
        Json::Null => JsonV::Null,
        Json::Bool(b) => JsonV::Bool(b),
        Json::Int(n) => JsonV::Int(n as int),
        Json::NumLit(t) => JsonV::NumLit(t@),
        Json::Str(s) => JsonV::Str(s@),
        Json::Arr(items) => JsonV::Arr(json_view_list(items@)),
        Json::Obj(fields) => JsonV::Obj(json_view_fields(fields@)),
    }
}

/// The models of a sequence of JSON values, element by element.
pub open spec fn json_view_list(s: Seq<Json>) -> Seq<JsonV>
    decreases s,
{
    if s.len() == 0 {
        Seq::empty()
    } else {
        json_view_list(s.drop_last()).push(json_view(s.last()))
    }
}

/// The models of a sequence of object members, member by member.
pub open spec fn json_view_fields(s: Seq<(String, Json)>) -> Seq<(Seq<char>, JsonV)>
    decreases s,
{
    if s.len() == 0 {
        Seq::empty()
    } else {
        json_view_fields(s.drop_last()).push((s.last().0@, json_view(s.last().1)))
    }
}

impl View for Json {
    type V = JsonV;

    open spec fn view(&self) -> JsonV {
        json_view(*self)
    }
}

/// `json_view_list` maps the sequence element by element.
pub proof fn lemma_json_view_list_index(s: Seq<Json>)
    ensures
        json_view_list(s).len() == s.len(),
        forall|k: int| 0 <= k < s.len() ==> json_view_list(s)[k] == json_view(#[trigger] s[k]),
    decreases s.len(),
{
    if s.len() > 0 {
        lemma_json_view_list_index(s.drop_last());
        assert forall|k: int| 0 <= k < s.len() implies json_view_list(s)[k] == json_view(
            #[trigger] s[k],
        ) by {
            if k < s.len() - 1 {
                assert(s.drop_last()[k] == s[k]);
            }
        }
    }
}

/// `json_view_fields` maps the sequence member by member.
pub proof fn lemma_json_view_fields_index(s: Seq<(String, Json)>)
    ensures
        json_view_fields(s).len() == s.len(),
        forall|k: int| 0 <= k < s.len() ==> json_view_fields(s)[k] == ((#[trigger] s[k]).0@,
            json_view(s[k].1)),
    decreases s.len(),
{
    if s.len() > 0 {
        lemma_json_view_fields_index(s.drop_last());
        assert forall|k: int| 0 <= k < s.len() implies json_view_fields(s)[k] == (
            (#[trigger] s[k]).0@,
            json_view(s[k].1),
        ) by {
            if k < s.len() - 1 {
                assert(s.drop_last()[k] == s[k]);
            }
        }
    }
}

/// `json_view_list` distributes over concatenation.
pub proof fn lemma_json_view_list_concat(a: Seq<Json>, b: Seq<Json>)
    ensures
        json_view_list(a + b) == json_view_list(a) + json_view_list(b),
    decreases b.len(),
{
    if b.len() == 0 {
        assert(a + b =~= a);
        assert(json_view_list(a) + json_view_list(b) =~= json_view_list(a));
    } else {
        lemma_json_view_list_concat(a, b.drop_last());
        assert((a + b).drop_last() =~= a + b.drop_last());
        assert((a + b).last() == b.last());
        assert(json_view_list(a) + json_view_list(b.drop_last()).push(json_view(b.last()))
            =~= (json_view_list(a) + json_view_list(b.drop_last())).push(json_view(b.last())));
    }
}

/// `json_view_fields` distributes over concatenation.
pub proof fn lemma_json_view_fields_concat(a: Seq<(String, Json)>, b: Seq<(String, Json)>)
    ensures
        json_view_fields(a + b) == json_view_fields(a) + json_view_fields(b),
    decreases b.len(),
{
    if b.len() == 0 {
        assert(a + b =~= a);
        assert(json_view_fields(a) + json_view_fields(b) =~= json_view_fields(a));
    } else {
        lemma_json_view_fields_concat(a, b.drop_last());
        assert((a + b).drop_last() =~= a + b.drop_last());
        assert((a + b).last() == b.last());
        assert(json_view_fields(a) + json_view_fields(b.drop_last()).push(
            (b.last().0@, json_view(b.last().1)),
        ) =~= (json_view_fields(a) + json_view_fields(b.drop_last())).push(
            (b.last().0@, json_view(b.last().1)),
        ));
    }
}

/// Whether `c` is JSON insignificant whitespace.
pub open spec fn spec_is_ws(c: char) -> bool {
    c == ' ' || c == '\t' || c == '\n' || c == '\r'
}

/// The first index at or after `i` holding a non-whitespace character, or the
/// end of `s`.
pub open spec fn spec_skip_ws(s: Seq<char>, i: int) -> int
    decreases s.len() - i,
{
    if 0 <= i < s.len() && spec_is_ws(s[i]) {
        spec_skip_ws(s, i + 1)
    } else {
        i
    }
}

/// The first index at or after `i` holding a non-digit character, or the end
/// of `s`.
pub open spec fn spec_digits_end(s: Seq<char>, i: int) -> int
    decreases s.len() - i,
{
    if 0 <= i < s.len() && spec_is_digit(s[i]) {
        spec_digits_end(s, i + 1)
    } else {
        i
    }
}

/// Whether `c` is a hexadecimal digit.
pub open spec fn spec_is_hex(c: char) -> bool {
    spec_is_digit(c) || ('a' <= c && c <= 'f') || ('A' <= c && c <= 'F')
}

/// The value of the hexadecimal digit `c`.
pub open spec fn spec_hex_val(c: char) -> int
    recommends
        spec_is_hex(c),
{
    if spec_is_digit(c) {
        c as u32 - 48
    } else if 'a' <= c && c <= 'f' {
        c as u32 - 87
    } else {
        c as u32 - 55
    }
}

/// Whether `n` is a Unicode scalar value, that is, the value of some `char`.
pub open spec fn spec_is_scalar(n: int) -> bool {
    (0 <= n < 0xD800) || (0xE000 <= n <= 0x10FFFF)
}

/// The value of the four hexadecimal digits `s[i..i+4]`, or `None` if they
/// are not four hexadecimal digits.
pub open spec fn spec_hex4(s: Seq<char>, i: int) -> Option<int> {
    if i + 4 <= s.len() && spec_is_hex(s[i]) && spec_is_hex(s[i + 1]) && spec_is_hex(s[i + 2])
        && spec_is_hex(s[i + 3]) {
        Some(
            spec_hex_val(s[i]) * 0x1000 + spec_hex_val(s[i + 1]) * 0x100 + spec_hex_val(s[i + 2])
                * 0x10 + spec_hex_val(s[i + 3]),
        )
    } else {
        None
    }
}

/// The result of reading one escape sequence just after its backslash:
/// the character it denotes and the index after it.
pub open spec fn spec_parse_escape(s: Seq<char>, i: int) -> Option<(char, int)> {
    if i < s.len() {
        let c = s[i];
        if c == '"' {
            Some(('"', i + 1))
        } else if c == '\\' {
            Some(('\\', i + 1))
        } else if c == '/' {
            Some(('/', i + 1))
        } else if c == 'b' {
            Some(('\u{8}', i + 1))
        } else if c == 'f' {
            Some(('\u{c}', i + 1))
        } else if c == 'n' {
            Some(('\n', i + 1))
        } else if c == 'r' {
            Some(('\r', i + 1))
        } else if c == 't' {
            Some(('\t', i + 1))
        } else if c == 'u' {
            match spec_hex4(s, i + 1) {
                Some(n1) => {
                    if 0xD800 <= n1 < 0xDC00 {
                        // A high surrogate must be followed by an escaped low
                        // surrogate; together they denote one supplementary
                        // character.
                        if i + 7 <= s.len() && s[i + 5] == '\\' && s[i + 6] == 'u' {
                            match spec_hex4(s, i + 7) {
                                Some(n2) => {
                                    if 0xDC00 <= n2 < 0xE000 {
                                        let scalar = 0x10000 + (n1 - 0xD800) * 0x400 + (n2
                                            - 0xDC00);
                                        Some(((scalar as u32) as char, i + 11))
                                    } else {
                                        None
                                    }
                                },
                                None => None,
                            }
                        } else {
                            None
                        }
                    } else if 0xDC00 <= n1 < 0xE000 {
                        None
                    } else {
                        Some((((n1 as u32) as char), i + 5))
                    }
                },
                None => None,
            }
        } else {
            None
        }
    } else {
        None
    }
}

/// The result of reading a string body starting at `i` (just after the
/// opening quote): the decoded content and the index after the closing quote.
pub open spec fn spec_parse_str_body(s: Seq<char>, i: int) -> Option<(Seq<char>, int)>
    decreases s.len() - i,
{
    if 0 <= i < s.len() {
        let c = s[i];
        if c == '"' {
            Some((Seq::empty(), i + 1))
        } else if c == '\\' {
            match spec_parse_escape(s, i + 1) {
                Some((e, j)) => if j > i {
                    match spec_parse_str_body(s, j) {
                        Some((rest, end)) => Some((seq![e] + rest, end)),
                        None => None,
                    }
                } else {
                    None
                },
                None => None,
            }
        } else if (c as u32) < 0x20 {
            None
        } else {
            match spec_parse_str_body(s, i + 1) {
                Some((rest, end)) => Some((seq![c] + rest, end)),
                None => None,
            }
        }
    } else {
        None
    }
}

/// The result of reading a number starting at `i`: its value when it is a
/// whole number within `i64` — otherwise no value — and the index after the
/// whole numeric token. A sign without digits, a point without digits, or an
/// exponent marker without digits refuses the text.
pub open spec fn spec_parse_number(s: Seq<char>, i: int) -> Option<(Option<int>, int)> {
    let neg = 0 <= i < s.len() && s[i] == '-';
    let d0 = if neg {
        i + 1
    } else {
        i
    };
    let end0 = spec_digits_end(s, d0);
    if end0 == d0 {
        None
    } else if s[d0] == '0' && end0 > d0 + 1 {
        None
    } else {
        let frac = end0 < s.len() && s[end0] == '.';
        let end1 = if frac {
            spec_digits_end(s, end0 + 1)
        } else {
            end0
        };
        if frac && end1 == end0 + 1 {
            None
        } else {
            let has_exp = end1 < s.len() && (s[end1] == 'e' || s[end1] == 'E');
            let es = if has_exp && end1 + 1 < s.len() && (s[end1 + 1] == '+' || s[end1 + 1]
                == '-') {
                end1 + 2
            } else {
                end1 + 1
            };
            let end2 = if has_exp {
                spec_digits_end(s, es)
            } else {
                end1
            };
            if has_exp && end2 == es {
                None
            } else if !frac && !has_exp {
                let mag = spec_dec_val(s.subrange(d0, end0)) as int;
                let val = if neg {
                    -mag
                } else {
                    mag
                };
                if i64::MIN <= val <= i64::MAX {
                    Some((Some(val), end0))
                } else {
                    Some((None, end0))
                }
            } else {
                Some((None, end2))
            }
        }
    }
}

/// The result of reading one JSON value starting exactly at `i` (no leading
/// whitespace): the value and the index just after it. `fuel` bounds the
/// recursion; parsing a document of length `n` never needs more than `n + 1`.
pub open spec fn spec_parse_value(s: Seq<char>, i: int, fuel: nat) -> Option<(JsonV, int)>
    decreases fuel,
{
    if fuel == 0 {
        None
    } else if 0 <= i < s.len() {
        let c = s[i];
        if c == 'n' {
            if i + 4 <= s.len() && s[i + 1] == 'u' && s[i + 2] == 'l' && s[i + 3] == 'l' {
                Some((JsonV::Null, i + 4))
            } else {
                None
            }
        } else if c == 't' {
            if i + 4 <= s.len() && s[i + 1] == 'r' && s[i + 2] == 'u' && s[i + 3] == 'e' {
                Some((JsonV::Bool(true), i + 4))
            } else {
                None
            }
        } else if c == 'f' {
            if i + 5 <= s.len() && s[i + 1] == 'a' && s[i + 2] == 'l' && s[i + 3] == 's' && s[i + 4]
                == 'e' {
                Some((JsonV::Bool(false), i + 5))
            } else {
                None
            }
        } else if c == '"' {
            match spec_parse_str_body(s, i + 1) {
                Some((content, end)) => Some((JsonV::Str(content), end)),
                None => None,
            }
        } else if c == '-' || spec_is_digit(c) {
            match spec_parse_number(s, i) {
                Some((Some(val), end)) => Some((JsonV::Int(val), end)),
                Some((None, end)) => Some((JsonV::NumLit(s.subrange(i, end)), end)),
                None => None,
            }
        } else if c == '[' {
            let j = spec_skip_ws(s, i + 1);
            if j < s.len() && s[j] == ']' {
                Some((JsonV::Arr(Seq::empty()), j + 1))
            } else {
                match spec_parse_arr_rest(s, j, (fuel - 1) as nat) {
                    Some((items, end)) => Some((JsonV::Arr(items), end)),
                    None => None,
                }
            }
        } else if c == '{' {
            let j = spec_skip_ws(s, i + 1);
            if j < s.len() && s[j] == '}' {
                Some((JsonV::Obj(Seq::empty()), j + 1))
            } else {
                match spec_parse_obj_rest(s, j, (fuel - 1) as nat) {
                    Some((fields, end)) => Some((JsonV::Obj(fields), end)),
                    None => None,
                }
            }
        } else {
            None
        }
    } else {
        None
    }
}

/// The result of reading the elements of a non-empty array, the first element
/// starting exactly at `i`: the elements and the index after the closing
/// bracket.
pub open spec fn spec_parse_arr_rest(s: Seq<char>, i: int, fuel: nat) -> Option<
    (Seq<JsonV>, int),
>
    decreases fuel,
{
    if fuel == 0 {
        None
    } else {
        match spec_parse_value(s, i, (fuel - 1) as nat) {
            Some((v, j0)) => {
                let j = spec_skip_ws(s, j0);
                if j < s.len() && s[j] == ']' {
                    Some((seq![v], j + 1))
                } else if j < s.len() && s[j] == ',' {
                    match spec_parse_arr_rest(s, spec_skip_ws(s, j + 1), (fuel - 1) as nat) {
                        Some((rest, end)) => Some((seq![v] + rest, end)),
                        None => None,
                    }
                } else {
                    None
                }
            },
            None => None,
        }
    }
}

/// The result of reading the members of a non-empty object, the first key's
/// quote standing exactly at `i`: the members and the index after the closing
/// brace.
pub open spec fn spec_parse_obj_rest(s: Seq<char>, i: int, fuel: nat) -> Option<
    (Seq<(Seq<char>, JsonV)>, int),
>
    decreases fuel,
{
    if fuel == 0 {
        None
    } else if 0 <= i < s.len() && s[i] == '"' {
        match spec_parse_str_body(s, i + 1) {
            Some((key, jk)) => {
                let jc = spec_skip_ws(s, jk);
                if jc < s.len() && s[jc] == ':' {
                    match spec_parse_value(s, spec_skip_ws(s, jc + 1), (fuel - 1) as nat) {
                        Some((v, j0)) => {
                            let j = spec_skip_ws(s, j0);
                            if j < s.len() && s[j] == '}' {
                                Some((seq![(key, v)], j + 1))
                            } else if j < s.len() && s[j] == ',' {
                                let nk = spec_skip_ws(s, j + 1);
                                match spec_parse_obj_rest(s, nk, (fuel - 1) as nat) {
                                    Some((rest, end)) => Some((seq![(key, v)] + rest, end)),
                                    None => None,
                                }
                            } else {
                                None
                            }
                        },
                        None => None,
                    }
                } else {
                    None
                }
            },
            None => None,
        }
    } else {
        None
    }
}

/// The fuel with which a whole document is parsed. Parsing descends one fuel
/// step per `[` or `{` and one per element, and at least one character is
/// consumed for every two steps, so this bound is never exhausted.
pub open spec fn spec_doc_fuel(s: Seq<char>) -> nat {
    2 * s.len() + 2
}

/// The result of parsing `s` as one JSON document: a value, possibly
/// surrounded by whitespace, with nothing after it.
pub open spec fn spec_parse_json(s: Seq<char>) -> Option<JsonV> {
    match spec_parse_value(s, spec_skip_ws(s, 0), spec_doc_fuel(s)) {
        Some((v, end)) => if spec_skip_ws(s, end) == s.len() {
            Some(v)
        } else {
            None
        },
        None => None,
    }
}

} // verus!
