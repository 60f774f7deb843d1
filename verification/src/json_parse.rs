//! The executable JSON parser, verified against the specification-level
//! parser in [`crate::json`].

use vstd::prelude::*;

use crate::json::{
    json_view_fields, json_view_list, lemma_json_view_fields_concat,
    lemma_json_view_fields_index, lemma_json_view_list_concat, lemma_json_view_list_index,
    spec_doc_fuel, spec_hex4, spec_hex_val, spec_is_hex, spec_is_scalar, spec_is_ws,
    spec_parse_arr_rest, spec_parse_escape, spec_parse_json, spec_parse_number,
    spec_parse_obj_rest, spec_parse_str_body, spec_parse_value, spec_skip_ws, spec_digits_end,
    Json,
};
use crate::text::{chars_string, spec_all_digits, spec_is_digit, str_chars};

verus! {

/// Failure to read a text as one JSON document.
#[derive(Debug)]
pub struct JsonError;

impl JsonError {
    /// A short account of the failure.
    pub fn describe(&self) -> (r: String)
        ensures
            r@ == "invalid JSON document"@,
    {
        "invalid JSON document".to_owned()
    }
}

/// Whether `c` is JSON insignificant whitespace.
fn is_ws(c: char) -> (r: bool)
    ensures
        r == spec_is_ws(c),
{
    c == ' ' || c == '\t' || c == '\n' || c == '\r'
}

/// The first index at or after `i` holding a non-whitespace character.
fn skip_ws(v: &Vec<char>, i: usize) -> (r: usize)
    requires
        i <= v@.len(),
    ensures
        r as int == spec_skip_ws(v@, i as int),
        i <= r <= v@.len(),
{
    let mut k = i;
    while k < v.len() && is_ws(v[k])
        invariant
            i <= k <= v@.len(),
            spec_skip_ws(v@, i as int) == spec_skip_ws(v@, k as int),
        decreases v@.len() - k,
    {
        k = k + 1;
    }
    k
}

/// The first index at or after `i` holding a non-digit character.
fn digits_end(v: &Vec<char>, i: usize) -> (r: usize)
    requires
        i <= v@.len(),
    ensures
        r as int == spec_digits_end(v@, i as int),
        i <= r <= v@.len(),
        forall|k: int| i <= k < r ==> spec_is_digit(#[trigger] v@[k]),
{
    let mut k = i;
    while k < v.len() && crate::text::is_digit_char(v[k])
        invariant
            i <= k <= v@.len(),
            spec_digits_end(v@, i as int) == spec_digits_end(v@, k as int),
            forall|m: int| i <= m < k ==> spec_is_digit(#[trigger] v@[m]),
        decreases v@.len() - k,
    {
        k = k + 1;
    }
    k
}

/// The value of the hexadecimal digit `c`, if it is one.
fn hex_digit_val(c: char) -> (r: Option<u32>)
    ensures
        spec_is_hex(c) ==> r == Some((spec_hex_val(c) as u32)),
        !spec_is_hex(c) ==> r is None,
        r matches Some(n) ==> n < 16,
{
    let u = c as u32;
    if 48 <= u && u <= 57 {
        Some(u - 48)
    } else if 97 <= u && u <= 102 {
        Some(u - 87)
    } else if 65 <= u && u <= 70 {
        Some(u - 55)
    } else {
        None
    }
}

/// The value of the four hexadecimal digits at `i`, if they are there.
fn hex4(v: &Vec<char>, i: usize) -> (r: Option<u32>)
    requires
        i <= v@.len(),
    ensures
        match r {
            Some(n) => spec_hex4(v@, i as int) == Some(n as int) && n <= 0xFFFF,
            None => spec_hex4(v@, i as int) is None,
        },
{
    if v.len() - i < 4 {
        return None;
    }
    let d0 = hex_digit_val(v[i]);
    let d1 = hex_digit_val(v[i + 1]);
    let d2 = hex_digit_val(v[i + 2]);
    let d3 = hex_digit_val(v[i + 3]);
    match (d0, d1, d2, d3) {
        (Some(a), Some(b), Some(c), Some(d)) => Some(a * 0x1000 + b * 0x100 + c * 0x10 + d),
        _ => None,
    }
}

/// Copies `v[from..to]` out.
fn copy_chars(v: &Vec<char>, from: usize, to: usize) -> (r: Vec<char>)
    requires
        from <= to <= v@.len(),
    ensures
        r@ == v@.subrange(from as int, to as int),
{
    let mut out: Vec<char> = Vec::new();
    let mut m = from;
    while m < to
        invariant
            from <= m <= to <= v@.len(),
            out@ == v@.subrange(from as int, m as int),
        decreases to - m,
    {
        out.push(v[m]);
        m = m + 1;
        proof {
            assert(out@ =~= v@.subrange(from as int, m as int));
        }
    }
    out
}

/// Converts a code value to the character it denotes.
///
/// Relies on `char::from_u32`: it returns `Some` exactly on Unicode scalar
/// values (codes that are not surrogates and are at most 0x10FFFF), and the
/// returned character has the given value.
#[verifier::external_body]
fn char_from_u32(n: u32) -> (r: Option<char>)
    ensures
        r == (if spec_is_scalar(n as int) {
            Some(n as char)
        } else {
            None::<char>
        }),
{
    char::from_u32(n)
}

/// Reads one escape sequence just after its backslash.
fn parse_escape(v: &Vec<char>, i: usize) -> (r: Option<(char, usize)>)
    requires
        i <= v@.len(),
    ensures
        match r {
            Some((c, j)) => spec_parse_escape(v@, i as int) == Some((c, j as int)) && i < j
                <= v@.len(),
            None => spec_parse_escape(v@, i as int) is None,
        },
{
    if i >= v.len() {
        return None;
    }
    let c = v[i];
    if c == '"' {
        Some(('"', i + 1))
    } else if c == '\\' {
        Some(('\\', i + 1))
    } else if c == '/' {
        Some(('/', i + 1))
    } else if c == 'b' {
        Some(('\u{8}', i + 1))
    } else if c == 'f' {
        Some(('\u{c}', i + 1))
    } else if c == 'n' {
        Some(('\n', i + 1))
    } else if c == 'r' {
        Some(('\r', i + 1))
    } else if c == 't' {
        Some(('\t', i + 1))
    } else if c == 'u' {
        let n1 = match hex4(v, i + 1) {
            Some(n) => n,
            None => {
                return None;
            },
        };
        if 0xD800 <= n1 && n1 < 0xDC00 {
            if v.len() - i >= 7 && v[i + 5] == '\\' && v[i + 6] == 'u' {
                let n2 = match hex4(v, i + 7) {
                    Some(n) => n,
                    None => {
                        return None;
                    },
                };
                if 0xDC00 <= n2 && n2 < 0xE000 {
                    let scalar = 0x10000 + (n1 - 0xD800) * 0x400 + (n2 - 0xDC00);
                    match char_from_u32(scalar) {
                        Some(e) => Some((e, i + 11)),
                        None => None,
                    }
                } else {
                    None
                }
            } else {
                None
            }
        } else if 0xDC00 <= n1 && n1 < 0xE000 {
            None
        } else {
            match char_from_u32(n1) {
                Some(e) => Some((e, i + 5)),
                None => None,
            }
        }
    } else {
        None
    }
}

/// Reads a string body starting just after its opening quote; returns the
/// decoded content and the index after the closing quote.
fn parse_str_body(v: &Vec<char>, i: usize) -> (r: Option<(Vec<char>, usize)>)
    requires
        i <= v@.len(),
    ensures
        match r {
            Some((content, j)) => spec_parse_str_body(v@, i as int) == Some((content@, j as int))
                && i < j <= v@.len(),
            None => spec_parse_str_body(v@, i as int) is None,
        },
{
    let mut out: Vec<char> = Vec::new();
    let mut k = i;
    loop
        invariant
            i <= k <= v@.len(),
            forall|rest: Seq<char>, end: int|
                spec_parse_str_body(v@, k as int) == Some::<(Seq<char>, int)>((rest, end))
                    ==> spec_parse_str_body(v@, i as int) == Some::<(Seq<char>, int)>((
                    out@ + rest,
                    end,
                )),
            spec_parse_str_body(v@, k as int) is None ==> spec_parse_str_body(v@, i as int)
                is None,
        decreases v@.len() - k,
    {
        if k >= v.len() {
            return None;
        }
        let c = v[k];
        if c == '"' {
            proof {
                assert(spec_parse_str_body(v@, k as int) == Some::<(Seq<char>, int)>((
                    Seq::<char>::empty(),
                    k + 1,
                )));
                assert(out@ + Seq::<char>::empty() =~= out@);
            }
            return Some((out, k + 1));
        } else if c == '\\' {
            match parse_escape(v, k + 1) {
                Some((e, j)) => {
                    proof {
                        let ghost ke = spec_parse_str_body(v@, j as int);
                        if ke is Some {
                            let (rest, end) = ke->Some_0;
                            assert(spec_parse_str_body(v@, k as int) == Some::<(Seq<char>, int)>((
                                seq![e] + rest,
                                end,
                            )));
                            assert(out@ + (seq![e] + rest) =~= out@.push(e) + rest);
                        }
                    }
                    out.push(e);
                    k = j;
                },
                None => {
                    return None;
                },
            }
        } else if (c as u32) < 0x20 {
            return None;
        } else {
            proof {
                let ghost ke = spec_parse_str_body(v@, (k + 1) as int);
                if ke is Some {
                    let (rest, end) = ke->Some_0;
                    assert(spec_parse_str_body(v@, k as int) == Some::<(Seq<char>, int)>((
                        seq![c] + rest,
                        end,
                    )));
                    assert(out@ + (seq![c] + rest) =~= out@.push(c) + rest);
                }
            }
            out.push(c);
            k = k + 1;
        }
    }
}

/// Reads a number starting at `i`.
fn parse_number(v: &Vec<char>, i: usize) -> (r: Option<(Option<i64>, usize)>)
    requires
        i < v@.len(),
    ensures
        match r {
            Some((val, j)) => spec_parse_number(v@, i as int) == Some(
                (
                    match val {
                        Some(n) => Some(n as int),
                        None => None::<int>,
                    },
                    j as int,
                ),
            ) && i < j <= v@.len(),
            None => spec_parse_number(v@, i as int) is None,
        },
{
    let n = v.len();
    let neg = v[i] == '-';
    let d0 = if neg {
        i + 1
    } else {
        i
    };
    let end0 = digits_end(v, d0);
    if end0 == d0 {
        return None;
    }
    if v[d0] == '0' && end0 > d0 + 1 {
        return None;
    }
    // optional fraction
    let frac = end0 < n && v[end0] == '.';
    let end1 = if frac {
        digits_end(v, end0 + 1)
    } else {
        end0
    };
    if frac && end1 == end0 + 1 {
        return None;
    }
    // optional exponent
    let has_exp = end1 < n && (v[end1] == 'e' || v[end1] == 'E');
    let end2: usize;
    if has_exp {
        let es = if end1 + 1 < n && (v[end1 + 1] == '+' || v[end1 + 1] == '-') {
            end1 + 2
        } else {
            end1 + 1
        };
        end2 = digits_end(v, es);
        if end2 == es {
            return None;
        }
    } else {
        end2 = end1;
    }
    if frac || has_exp {
        return Some((None, end2));
    }
    proof {
        assert(spec_all_digits(v@.subrange(d0 as int, end0 as int)));
    }
    let mag = match crate::text::dec_chars_val(v, d0, end0) {
        Some(m) => m,
        None => {
            return Some((None, end0));
        },
    };
    if neg {
        if mag > 9223372036854775808u64 {
            return Some((None, end0));
        }
        if mag == 9223372036854775808u64 {
            Some((Some(i64::MIN), end0))
        } else {
            Some((Some(-(mag as i64)), end0))
        }
    } else {
        if mag > 9223372036854775807u64 {
            return Some((None, end0));
        }
        Some((Some(mag as i64), end0))
    }
}

/// Reads one JSON value starting exactly at `i`.
fn parse_value(v: &Vec<char>, i: usize, Ghost(fuel): Ghost<nat>) -> (r: Option<(Json, usize)>)
    requires
        i <= v@.len(),
        fuel >= 2 * (v@.len() - i) + 1,
    ensures
        match r {
            Some((j, n)) => spec_parse_value(v@, i as int, fuel) == Some((j@, n as int)) && i < n
                <= v@.len(),
            None => spec_parse_value(v@, i as int, fuel) is None,
        },
    decreases fuel,
{
    if i >= v.len() {
        return None;
    }
    let n = v.len();
    let c = v[i];
    if c == 'n' {
        if n - i >= 4 && v[i + 1] == 'u' && v[i + 2] == 'l' && v[i + 3] == 'l' {
            Some((Json::Null, i + 4))
        } else {
            None
        }
    } else if c == 't' {
        if n - i >= 4 && v[i + 1] == 'r' && v[i + 2] == 'u' && v[i + 3] == 'e' {
            Some((Json::Bool(true), i + 4))
        } else {
            None
        }
    } else if c == 'f' {
        if n - i >= 5 && v[i + 1] == 'a' && v[i + 2] == 'l' && v[i + 3] == 's' && v[i + 4] == 'e' {
            Some((Json::Bool(false), i + 5))
        } else {
            None
        }
    } else if c == '"' {
        match parse_str_body(v, i + 1) {
            Some((content, end)) => {
                let s = chars_string(&content);
                Some((Json::Str(s), end))
            },
            None => None,
        }
    } else if c == '-' || {
        let u = c as u32;
        48 <= u && u <= 57
    } {
        match parse_number(v, i) {
            Some((Some(x), end)) => Some((Json::Int(x), end)),
            Some((None, end)) => {
                let text = copy_chars(v, i, end);
                let text = chars_string(&text);
                Some((Json::NumLit(text), end))
            },
            None => None,
        }
    } else if c == '[' {
        let j = skip_ws(v, i + 1);
        if j < v.len() && v[j] == ']' {
            Some((Json::Arr(Vec::new()), j + 1))
        } else {
            match parse_arr_rest(v, j, Ghost((fuel - 1) as nat)) {
                Some((items, end)) => Some((Json::Arr(items), end)),
                None => None,
            }
        }
    } else if c == '{' {
        let j = skip_ws(v, i + 1);
        if j < v.len() && v[j] == '}' {
            Some((Json::Obj(Vec::new()), j + 1))
        } else {
            match parse_obj_rest(v, j, Ghost((fuel - 1) as nat)) {
                Some((fields, end)) => Some((Json::Obj(fields), end)),
                None => None,
            }
        }
    } else {
        None
    }
}

/// Reads the elements of a non-empty array, the first starting exactly at
/// `i`; returns them and the index after the closing bracket.
fn parse_arr_rest(v: &Vec<char>, i: usize, Ghost(fuel): Ghost<nat>) -> (r: Option<
    (Vec<Json>, usize),
>)
    requires
        i <= v@.len(),
        fuel >= 2 * (v@.len() - i) + 2,
    ensures
        match r {
            Some((items, n)) => spec_parse_arr_rest(v@, i as int, fuel) == Some((
                json_view_list(items@),
                n as int,
            )) && i < n <= v@.len(),
            None => spec_parse_arr_rest(v@, i as int, fuel) is None,
        },
    decreases fuel,
{
    let first = match parse_value(v, i, Ghost((fuel - 1) as nat)) {
        Some(p) => p,
        None => {
            return None;
        },
    };
    let (val, j0) = first;
    let j = skip_ws(v, j0);
    if j < v.len() && v[j] == ']' {
        let mut items: Vec<Json> = Vec::new();
        items.push(val);
        proof {
            lemma_json_view_list_index(items@);
            assert(json_view_list(items@) =~= seq![val@]);
        }
        Some((items, j + 1))
    } else if j < v.len() && v[j] == ',' {
        let nk = skip_ws(v, j + 1);
        match parse_arr_rest(v, nk, Ghost((fuel - 1) as nat)) {
            Some((rest, end)) => {
                let mut items: Vec<Json> = Vec::new();
                items.push(val);
                let ghost rest0 = rest@;
                let mut rest = rest;
                items.append(&mut rest);
                proof {
                    lemma_json_view_list_concat(seq![val], rest0);
                    assert(seq![val] + rest0 =~= items@);
                    lemma_json_view_list_index(seq![val]);
                    assert(json_view_list(seq![val]) =~= seq![val@]);
                }
                Some((items, end))
            },
            None => None,
        }
    } else {
        None
    }
}

/// Reads the members of a non-empty object, the first key's quote standing
/// exactly at `i`; returns them and the index after the closing brace.
fn parse_obj_rest(v: &Vec<char>, i: usize, Ghost(fuel): Ghost<nat>) -> (r: Option<
    (Vec<(String, Json)>, usize),
>)
    requires
        i <= v@.len(),
        fuel >= 2 * (v@.len() - i) + 2,
    ensures
        match r {
            Some((fields, n)) => spec_parse_obj_rest(v@, i as int, fuel) == Some((
                json_view_fields(fields@),
                n as int,
            )) && i < n <= v@.len(),
            None => spec_parse_obj_rest(v@, i as int, fuel) is None,
        },
    decreases fuel,
{
    if !(i < v.len() && v[i] == '"') {
        return None;
    }
    let (key, jk) = match parse_str_body(v, i + 1) {
        Some(p) => p,
        None => {
            return None;
        },
    };
    let jc = skip_ws(v, jk);
    if !(jc < v.len() && v[jc] == ':') {
        return None;
    }
    let jv = skip_ws(v, jc + 1);
    let (val, j0) = match parse_value(v, jv, Ghost((fuel - 1) as nat)) {
        Some(p) => p,
        None => {
            return None;
        },
    };
    let key_s = chars_string(&key);
    let j = skip_ws(v, j0);
    if j < v.len() && v[j] == '}' {
        let mut fields: Vec<(String, Json)> = Vec::new();
        fields.push((key_s, val));
        proof {
            lemma_json_view_fields_index(fields@);
            assert(json_view_fields(fields@) =~= seq![(key@, val@)]);
        }
        Some((fields, j + 1))
    } else if j < v.len() && v[j] == ',' {
        let nk = skip_ws(v, j + 1);
        match parse_obj_rest(v, nk, Ghost((fuel - 1) as nat)) {
            Some((rest, end)) => {
                let mut fields: Vec<(String, Json)> = Vec::new();
                fields.push((key_s, val));
                let ghost head = fields@;
                let ghost rest0 = rest@;
                let mut rest = rest;
                fields.append(&mut rest);
                proof {
                    lemma_json_view_fields_concat(head, rest0);
                    assert(head + rest0 =~= fields@);
                    lemma_json_view_fields_index(head);
                    assert(json_view_fields(head) =~= seq![(key@, val@)]);
                }
                Some((fields, end))
            },
            None => None,
        }
    } else {
        None
    }
}

/// Parses `text` as one JSON document.
pub fn parse_json(text: &str) -> (r: Result<Json, JsonError>)
    ensures
        r matches Ok(j) ==> spec_parse_json(text@) == Some(j@),
        r is Err ==> spec_parse_json(text@) is None,
{
    let v = str_chars(text);
    parse_json_chars(&v)
}

/// Parses the characters `v` as one JSON document.
pub fn parse_json_chars(v: &Vec<char>) -> (r: Result<Json, JsonError>)
    ensures
        r matches Ok(j) ==> spec_parse_json(v@) == Some(j@),
        r is Err ==> spec_parse_json(v@) is None,
{
    let start = skip_ws(v, 0);
    let ghost fuel = spec_doc_fuel(v@);
    match parse_value(v, start, Ghost(fuel)) {
        Some((j, end)) => {
            let after = skip_ws(v, end);
            if after == v.len() {
                Ok(j)
            } else {
                Err(JsonError)
            }
        },
        None => Err(JsonError),
    }
}

} // verus!
