//! The wire codec for the remote job queue: length-prefixed, text-framed
//! values. Requests are arrays of bulk strings; a response is one value,
//! parsed from a byte buffer. The parser tells a malformed buffer apart from
//! one that merely does not yet hold a whole value, so a caller can keep
//! reading from its transport until a value completes.

use vstd::prelude::*;

use vstd::string::StringSliceAdditionalSpecFns;
use vstd::utf8::{decode_utf8, encode_utf8, valid_utf8};

use crate::text::{spec_dec, u64_dec_chars};

verus! {

/// One wire value.
#[derive(Debug)]
pub enum RespValue {
    SimpleString(String),
    BulkString(String),
    Error(String),
    Integer(i64),
    Array(Vec<RespValue>),
    Null,
}

/// The mathematical model of a wire value.
pub ghost enum RespValueV {
    SimpleString(Seq<char>),
    BulkString(Seq<char>),
    Error(Seq<char>),
    Integer(int),
    Array(Seq<RespValueV>),
    Null,
}

/// The model of `v`.
pub open spec fn resp_view(v: RespValue) -> RespValueV
    decreases v,
{
    match v {
        RespValue::SimpleString(s) => RespValueV::SimpleString(s@),
        RespValue::BulkString(s) => RespValueV::BulkString(s@),
        RespValue::Error(s) => RespValueV::Error(s@),
        RespValue::Integer(n) => RespValueV::Integer(n as int),
        RespValue::Array(items) => RespValueV::Array(resp_views(items@)),
        RespValue::Null => RespValueV::Null,
    }
}

/// The models of a sequence of wire values.
pub open spec fn resp_views(s: Seq<RespValue>) -> Seq<RespValueV>
    decreases s,
{
    if s.len() == 0 {
        Seq::empty()
    } else {
        resp_views(s.drop_last()).push(resp_view(s.last()))
    }
}

impl View for RespValue {
    type V = RespValueV;

    open spec fn view(&self) -> RespValueV {
        resp_view(*self)
    }
}

/// `resp_views` maps the sequence element by element.
pub proof fn lemma_resp_views_index(s: Seq<RespValue>)
    ensures
        resp_views(s).len() == s.len(),
        forall|k: int| 0 <= k < s.len() ==> resp_views(s)[k] == resp_view(#[trigger] s[k]),
    decreases s.len(),
{
    if s.len() > 0 {
        lemma_resp_views_index(s.drop_last());
        assert forall|k: int| 0 <= k < s.len() implies resp_views(s)[k] == resp_view(
            #[trigger] s[k],
        ) by {
            if k < s.len() - 1 {
                assert(s.drop_last()[k] == s[k]);
            }
        }
    }
}

/// The decimal digits of `n` as bytes.
pub open spec fn spec_dec_bytes(n: nat) -> Seq<u8> {
    Seq::new(spec_dec(n).len(), |k: int| spec_dec(n)[k] as u8)
}

/// The encoding of one request element: `$`, its byte length, CRLF, the
/// bytes, CRLF.
pub open spec fn spec_encode_bulk(item: Seq<u8>) -> Seq<u8> {
    seq![36u8] + spec_dec_bytes(item.len()) + seq![13u8, 10u8] + item + seq![13u8, 10u8]
}

/// The encodings of request elements from position `i` on, concatenated.
pub open spec fn spec_encode_bulks(items: Seq<Seq<u8>>, i: int) -> Seq<u8>
    decreases items.len() - i,
{
    if !(0 <= i < items.len()) {
        Seq::empty()
    } else {
        spec_encode_bulk(items[i]) + spec_encode_bulks(items, i + 1)
    }
}

/// The encoding of a whole request: `*`, the element count, CRLF, then each
/// element as a bulk string.
pub open spec fn spec_encode_array(items: Seq<Seq<u8>>) -> Seq<u8> {
    seq![42u8] + spec_dec_bytes(items.len()) + seq![13u8, 10u8] + spec_encode_bulks(items, 0)
}

/// Appends the decimal digits of `n` as bytes.
fn push_dec(n: u64, out: &mut Vec<u8>)
    ensures
        final(out)@ == old(out)@ + spec_dec_bytes(n as nat),
{
    proof {
        lemma_dec_digits_range(n as nat);
    }
    let digits = u64_dec_chars(n);
    let ghost start = out@;
    let mut k: usize = 0;
    while k < digits.len()
        invariant
            k <= digits@.len(),
            digits@ == spec_dec(n as nat),
            forall|m: int|
                0 <= m < digits@.len() ==> '0' <= #[trigger] digits@[m] && digits@[m] <= '9',
            out@ == start + spec_dec_bytes(n as nat).subrange(0, k as int),
        decreases digits@.len() - k,
    {
        out.push(digits[k] as u8);
        k = k + 1;
        proof {
            assert(out@ =~= start + spec_dec_bytes(n as nat).subrange(0, k as int));
        }
    }
    proof {
        assert(spec_dec_bytes(n as nat).subrange(0, spec_dec_bytes(n as nat).len() as int)
            =~= spec_dec_bytes(n as nat));
    }
}

/// The encodings of the first `k` request elements, concatenated.
spec fn spec_encode_prefix(items: Seq<Seq<u8>>, k: int) -> Seq<u8>
    decreases k,
{
    if k <= 0 {
        Seq::empty()
    } else {
        spec_encode_prefix(items, k - 1) + spec_encode_bulk(items[k - 1])
    }
}

/// The first `k` encodings and the rest together make the whole.
proof fn lemma_encode_split(items: Seq<Seq<u8>>, k: int)
    requires
        0 <= k <= items.len(),
    ensures
        spec_encode_prefix(items, k) + spec_encode_bulks(items, k) == spec_encode_bulks(items, 0),
    decreases k,
{
    if k == 0 {
        assert(Seq::<u8>::empty() + spec_encode_bulks(items, 0) =~= spec_encode_bulks(items, 0));
    } else {
        lemma_encode_split(items, k - 1);
        assert(spec_encode_bulks(items, k - 1) == spec_encode_bulk(items[k - 1])
            + spec_encode_bulks(items, k));
        assert(spec_encode_prefix(items, k - 1) + (spec_encode_bulk(items[k - 1])
            + spec_encode_bulks(items, k)) =~= (spec_encode_prefix(items, k - 1)
            + spec_encode_bulk(items[k - 1])) + spec_encode_bulks(items, k));
    }
}

/// All decimal digit characters lie between `'0'` and `'9'`.
proof fn lemma_dec_digits_range(n: nat)
    ensures
        forall|m: int|
            0 <= m < spec_dec(n).len() ==> '0' <= #[trigger] spec_dec(n)[m] && spec_dec(n)[m]
                <= '9',
    decreases n,
{
    if n < 10 {
        assert(spec_dec(n) =~= seq![crate::text::spec_digit(n)]);
        assert(crate::text::spec_digit(n) as u32 == 48 + n);
        assert('0' <= crate::text::spec_digit(n) && crate::text::spec_digit(n) <= '9');
    } else {
        lemma_dec_digits_range(n / 10);
        assert(crate::text::spec_digit(n % 10) as u32 == 48 + n % 10);
        assert forall|m: int|
            0 <= m < spec_dec(n).len() implies '0' <= #[trigger] spec_dec(n)[m] && spec_dec(
            n,
        )[m] <= '9' by {
            if m < spec_dec(n).len() - 1 {
                assert(spec_dec(n)[m] == spec_dec(n / 10)[m]);
            } else {
                assert(spec_dec(n)[m] == crate::text::spec_digit(n % 10));
            }
        }
    }
}

/// Encodes a request as an array of bulk strings, each element's byte length
/// as its prefix.
pub fn resp_array(items: &Vec<String>) -> (r: Vec<u8>)
    ensures
        r@ == spec_encode_array(Seq::new(items@.len(), |k: int| encode_utf8(items@[k]@))),
{
    let ghost bs = Seq::new(items@.len(), |k: int| encode_utf8(items@[k]@));
    let mut out: Vec<u8> = Vec::new();
    out.push(42u8);
    push_dec(items.len() as u64, &mut out);
    out.push(13u8);
    out.push(10u8);
    proof {
        assert(out@ =~= seq![42u8] + spec_dec_bytes(bs.len()) + seq![13u8, 10u8]);
    }
    let ghost header = out@;
    let mut k: usize = 0;
    while k < items.len()
        invariant
            k <= items@.len(),
            bs == Seq::new(items@.len(), |m: int| encode_utf8(items@[m]@)),
            bs.len() == items@.len(),
            header == seq![42u8] + spec_dec_bytes(bs.len()) + seq![13u8, 10u8],
            out@ == header + spec_encode_prefix(bs, k as int),
        decreases items@.len() - k,
    {
        let item = &items[k];
        let bytes = item.as_str().as_bytes_vec();
        let ghost before = out@;
        out.push(36u8);
        push_dec(bytes.len() as u64, &mut out);
        out.push(13u8);
        out.push(10u8);
        let mut m: usize = 0;
        let ghost mid = out@;
        while m < bytes.len()
            invariant
                m <= bytes@.len(),
                out@ == mid + bytes@.subrange(0, m as int),
            decreases bytes@.len() - m,
        {
            out.push(bytes[m]);
            m = m + 1;
            proof {
                assert(out@ =~= mid + bytes@.subrange(0, m as int));
            }
        }
        out.push(13u8);
        out.push(10u8);
        k = k + 1;
        proof {
            assert(bytes@.subrange(0, bytes@.len() as int) =~= bytes@);
            assert(bytes@ == bs[k - 1]);
            assert(out@ =~= before + spec_encode_bulk(bs[k - 1]));
            assert(out@ =~= header + spec_encode_prefix(bs, k as int));
        }
    }
    proof {
        lemma_encode_split(bs, k as int);
        assert(spec_encode_bulks(bs, k as int) =~= Seq::<u8>::empty());
        assert(spec_encode_prefix(bs, k as int) + Seq::<u8>::empty() =~= spec_encode_prefix(
            bs,
            k as int,
        ));
        assert(out@ =~= spec_encode_array(bs));
    }
    out
}

/// The outcome of reading one value from a byte buffer.
pub ghost enum RespOut {
    /// A whole value, and the index just after it.
    Val(RespValueV, int),
    /// The buffer ends before the value does; reading more bytes may help.
    Incomplete,
    /// The bytes cannot begin a value, however the buffer grows.
    Bad,
}

/// The outcome of reading a counted run of values.
pub ghost enum ItemsOut {
    Items(Seq<RespValueV>, int),
    Incomplete,
    Bad,
}

/// The index of the first line feed at or after `i`, or the end of `b`.
pub open spec fn spec_find_nl(b: Seq<u8>, i: int) -> int
    decreases b.len() - i,
{
    if 0 <= i < b.len() {
        if b[i] == 10 {
            i
        } else {
            spec_find_nl(b, i + 1)
        }
    } else {
        i
    }
}

/// A header remainder with one trailing CRLF pair removed, if present.
pub open spec fn spec_strip_crlf(line: Seq<u8>) -> Seq<u8> {
    if line.len() >= 2 && line[line.len() - 2] == 13 && line[line.len() - 1] == 10 {
        line.subrange(0, line.len() - 2)
    } else {
        line
    }
}

/// Whether `b` is an ASCII decimal digit byte.
pub open spec fn spec_is_digit_byte(b: u8) -> bool {
    48 <= b && b <= 57
}

/// The value of the digit bytes `s`, most significant first.
pub open spec fn spec_dec_val_bytes(s: Seq<u8>) -> nat
    decreases s.len(),
{
    if s.len() == 0 {
        0
    } else {
        spec_dec_val_bytes(s.drop_last()) * 10 + (s.last() - 48) as nat
    }
}

/// Whether every byte of `s` is a decimal digit.
pub open spec fn spec_all_digit_bytes(s: Seq<u8>) -> bool {
    forall|k: int| 0 <= k < s.len() ==> spec_is_digit_byte(#[trigger] s[k])
}

/// The signed integer a header remainder denotes, as `i64::from_str` reads
/// it: an optional sign, then at least one digit, within `i64` range.
pub open spec fn spec_parse_i64_bytes(bs: Seq<u8>) -> Option<int> {
    let neg = bs.len() > 0 && bs[0] == 45;
    let d0: int = if bs.len() > 0 && (bs[0] == 43 || bs[0] == 45) {
        1
    } else {
        0
    };
    let digits = bs.subrange(d0, bs.len() as int);
    if digits.len() == 0 {
        None
    } else if !spec_all_digit_bytes(digits) {
        None
    } else {
        let mag = spec_dec_val_bytes(digits) as int;
        let val = if neg {
            -mag
        } else {
            mag
        };
        if i64::MIN <= val <= i64::MAX {
            Some(val)
        } else {
            None
        }
    }
}

/// The result of reading one value at `i`: the header line up to its line
/// feed names the shape and a length or count; bulk payloads are then taken
/// by length, never scanned.
pub open spec fn spec_parse_resp(b: Seq<u8>, i: int, fuel: nat) -> RespOut
    decreases fuel,
{
    if fuel == 0 {
        RespOut::Bad
    } else {
        let p = spec_find_nl(b, i);
        if p >= b.len() {
            RespOut::Incomplete
        } else {
            let raw = b.subrange(i, p + 1);
            let tag = raw[0];
            let rest = spec_strip_crlf(raw.subrange(1, raw.len() as int));
            if tag == 43 {
                if valid_utf8(rest) {
                    RespOut::Val(RespValueV::SimpleString(decode_utf8(rest)), p + 1)
                } else {
                    RespOut::Bad
                }
            } else if tag == 45 {
                if valid_utf8(rest) {
                    RespOut::Val(RespValueV::Error(decode_utf8(rest)), p + 1)
                } else {
                    RespOut::Bad
                }
            } else if tag == 58 {
                match spec_parse_i64_bytes(rest) {
                    Some(v) => RespOut::Val(RespValueV::Integer(v), p + 1),
                    None => RespOut::Bad,
                }
            } else if tag == 36 {
                match spec_parse_i64_bytes(rest) {
                    Some(len) => if len < 0 {
                        RespOut::Val(RespValueV::Null, p + 1)
                    } else if p + 1 + len + 2 > b.len() {
                        RespOut::Incomplete
                    } else {
                        let body = b.subrange(p + 1, p + 1 + len);
                        if valid_utf8(body) {
                            RespOut::Val(RespValueV::BulkString(decode_utf8(body)), p + 1 + len + 2)
                        } else {
                            RespOut::Bad
                        }
                    },
                    None => RespOut::Bad,
                }
            } else if tag == 42 {
                match spec_parse_i64_bytes(rest) {
                    Some(count) => if count < 0 {
                        RespOut::Val(RespValueV::Null, p + 1)
                    } else {
                        match spec_parse_items(b, p + 1, count, (fuel - 1) as nat) {
                            ItemsOut::Items(items, end) => RespOut::Val(
                                RespValueV::Array(items),
                                end,
                            ),
                            ItemsOut::Incomplete => RespOut::Incomplete,
                            ItemsOut::Bad => RespOut::Bad,
                        }
                    },
                    None => RespOut::Bad,
                }
            } else {
                RespOut::Bad
            }
        }
    }
}

/// The result of reading `count` values one after another, starting at `i`.
pub open spec fn spec_parse_items(b: Seq<u8>, i: int, count: int, fuel: nat) -> ItemsOut
    decreases fuel,
{
    if fuel == 0 {
        ItemsOut::Bad
    } else if count <= 0 {
        ItemsOut::Items(Seq::empty(), i)
    } else {
        match spec_parse_resp(b, i, (fuel - 1) as nat) {
            RespOut::Val(v, j) => match spec_parse_items(b, j, count - 1, (fuel - 1) as nat) {
                ItemsOut::Items(rest, end) => ItemsOut::Items(seq![v] + rest, end),
                ItemsOut::Incomplete => ItemsOut::Incomplete,
                ItemsOut::Bad => ItemsOut::Bad,
            },
            RespOut::Incomplete => ItemsOut::Incomplete,
            RespOut::Bad => ItemsOut::Bad,
        }
    }
}

/// The result of reading one value from `b` at `i`, with fuel enough that it
/// is never exhausted.
pub open spec fn spec_read_resp(b: Seq<u8>, i: int) -> RespOut {
    spec_parse_resp(b, i, (b.len() - i + 1) as nat)
}

/// Why a buffer does not hold one whole value.
#[derive(Debug, Clone, PartialEq, Eq, Structural)]
pub enum RespError {
    /// The buffer ends before the value does; read more and retry.
    Incomplete,
    /// The bytes cannot begin a value.
    Malformed,
}

/// Decodes UTF-8 bytes.
///
/// Relies on `String::from_utf8`: it succeeds exactly on valid UTF-8 and
/// returns the characters those bytes encode.
#[verifier::external_body]
fn string_from_utf8(v: Vec<u8>) -> (r: Option<String>)
    ensures
        (r is Some) == valid_utf8(v@),
        r matches Some(s) ==> s@ == decode_utf8(v@),
{
    String::from_utf8(v).ok()
}

/// Copies `v[from..to]` out.
fn copy_bytes(v: &Vec<u8>, from: usize, to: usize) -> (r: Vec<u8>)
    requires
        from <= to <= v@.len(),
    ensures
        r@ == v@.subrange(from as int, to as int),
{
    let mut out: Vec<u8> = Vec::new();
    let mut m = from;
    while m < to
        invariant
            from <= m <= to <= v@.len(),
            out@ == v@.subrange(from as int, m as int),
        decreases to - m,
    {
        out.push(v[m]);
        m = m + 1;
        proof {
            assert(out@ =~= v@.subrange(from as int, m as int));
        }
    }
    out
}

/// Reads the signed integer in `v[from..to]`.
fn parse_i64_range(v: &Vec<u8>, from: usize, to: usize) -> (r: Option<i64>)
    requires
        from <= to <= v@.len(),
    ensures
        match r {
            Some(x) => spec_parse_i64_bytes(v@.subrange(from as int, to as int)) == Some(
                x as int,
            ),
            None => spec_parse_i64_bytes(v@.subrange(from as int, to as int)) is None,
        },
{
    let ghost bs = v@.subrange(from as int, to as int);
    let neg = from < to && v[from] == 45;
    let d0 = if from < to && (v[from] == 43 || v[from] == 45) {
        from + 1
    } else {
        from
    };
    proof {
        assert(bs.subrange(d0 - from, bs.len() as int) =~= v@.subrange(d0 as int, to as int));
    }
    if d0 == to {
        return None;
    }
    let ghost digits = v@.subrange(d0 as int, to as int);
    let mut acc: u64 = 0;
    let mut k = d0;
    while k < to
        invariant
            from <= d0 <= k <= to <= v@.len(),
            bs == v@.subrange(from as int, to as int),
            bs.len() > 0,
            neg == (bs[0] == 45),
            d0 == from + (if bs[0] == 43 || bs[0] == 45 {
                1int
            } else {
                0int
            }),
            digits == v@.subrange(d0 as int, to as int),
            digits == bs.subrange(d0 - from, bs.len() as int),
            digits.len() > 0,
            forall|m: int| d0 <= m < k ==> spec_is_digit_byte(#[trigger] v@[m]),
            acc as nat == spec_dec_val_bytes(v@.subrange(d0 as int, k as int)),
        decreases to - k,
    {
        let c = v[k];
        if !(48 <= c && c <= 57) {
            proof {
                assert(digits[k - d0] == v@[k as int]);
                assert(!spec_is_digit_byte(digits[k - d0]));
                assert(!spec_all_digit_bytes(digits));
                assert(spec_parse_i64_bytes(bs) is None);
            }
            return None;
        }
        let d = (c - 48) as u64;
        if acc > (u64::MAX - d) / 10 {
            proof {
                assert(acc * 10 + d > u64::MAX) by (nonlinear_arith)
                    requires
                        acc > (u64::MAX - d) / 10,
                        d <= 9,
                ;
                let upto = v@.subrange(d0 as int, (k + 1) as int);
                assert(upto.drop_last() =~= v@.subrange(d0 as int, k as int));
                assert(upto.last() == v@[k as int]);
                assert(spec_dec_val_bytes(upto) == acc * 10 + d);
                if spec_all_digit_bytes(digits) {
                    lemma_dec_val_bytes_grows(digits, k + 1 - d0);
                    assert(digits.subrange(0, k + 1 - d0) =~= upto);
                    assert(spec_dec_val_bytes(digits) > u64::MAX);
                }
                assert(spec_parse_i64_bytes(bs) is None);
            }
            return None;
        }
        proof {
            assert(acc * 10 + d <= u64::MAX) by (nonlinear_arith)
                requires
                    acc <= (u64::MAX - d) / 10,
                    d <= 9,
            ;
            let whole = v@.subrange(d0 as int, (k + 1) as int);
            assert(whole.drop_last() =~= v@.subrange(d0 as int, k as int));
            assert(whole.last() == v@[k as int]);
        }
        acc = acc * 10 + d;
        k = k + 1;
    }
    proof {
        assert(v@.subrange(d0 as int, k as int) =~= digits);
    }
    if neg {
        if acc > 9223372036854775808u64 {
            return None;
        }
        if acc == 9223372036854775808u64 {
            Some(i64::MIN)
        } else {
            Some(-(acc as i64))
        }
    } else {
        if acc > 9223372036854775807u64 {
            return None;
        }
        Some(acc as i64)
    }
}

/// A digit run's value is at least the value of any of its prefixes.
proof fn lemma_dec_val_bytes_grows(s: Seq<u8>, k: int)
    requires
        0 <= k <= s.len(),
    ensures
        spec_dec_val_bytes(s) >= spec_dec_val_bytes(s.subrange(0, k)),
    decreases s.len() - k,
{
    if k < s.len() {
        lemma_dec_val_bytes_grows(s, k + 1);
        let longer = s.subrange(0, k + 1);
        assert(longer.drop_last() =~= s.subrange(0, k));
        assert(spec_dec_val_bytes(longer) == spec_dec_val_bytes(s.subrange(0, k)) * 10 + (
        longer.last() - 48) as nat);
        assert(spec_dec_val_bytes(s.subrange(0, k)) * 10 >= spec_dec_val_bytes(
            s.subrange(0, k),
        )) by (nonlinear_arith);
    } else {
        assert(s.subrange(0, k) =~= s);
    }
}

/// Finds the first line feed at or after `i`.
fn find_nl(v: &Vec<u8>, i: usize) -> (r: usize)
    requires
        i <= v@.len(),
    ensures
        r as int == spec_find_nl(v@, i as int),
        i <= r <= v@.len(),
        r < v@.len() ==> v@[r as int] == 10,
{
    let mut k = i;
    while k < v.len() && v[k] != 10
        invariant
            i <= k <= v@.len(),
            spec_find_nl(v@, i as int) == spec_find_nl(v@, k as int),
        decreases v@.len() - k,
    {
        k = k + 1;
    }
    k
}

/// Reads one wire value from `buf` at `start`: `Incomplete` when the buffer
/// ends before the value does, `Malformed` when the bytes cannot begin one.
pub fn read_resp_value(buf: &Vec<u8>, start: usize) -> (r: Result<(RespValue, usize), RespError>)
    requires
        start <= buf@.len(),
    ensures
        match r {
            Ok((v, n)) => spec_read_resp(buf@, start as int) == RespOut::Val(v@, n as int) && start
                + 2 <= n <= buf@.len(),
            Err(RespError::Incomplete) => spec_read_resp(buf@, start as int)
                == RespOut::Incomplete,
            Err(RespError::Malformed) => spec_read_resp(buf@, start as int) == RespOut::Bad,
        },
{
    let ghost fuel = (buf@.len() - start + 1) as nat;
    parse_resp_x(buf, start, Ghost(fuel))
}

/// Reads one wire value starting at `i`.
fn parse_resp_x(buf: &Vec<u8>, i: usize, Ghost(fuel): Ghost<nat>) -> (r: Result<
    (RespValue, usize),
    RespError,
>)
    requires
        i <= buf@.len(),
        fuel >= buf@.len() - i + 1,
    ensures
        match r {
            Ok((v, n)) => spec_parse_resp(buf@, i as int, fuel) == RespOut::Val(v@, n as int) && i
                + 2 <= n <= buf@.len(),
            Err(RespError::Incomplete) => spec_parse_resp(buf@, i as int, fuel)
                == RespOut::Incomplete,
            Err(RespError::Malformed) => spec_parse_resp(buf@, i as int, fuel) == RespOut::Bad,
        },
    decreases fuel,
{
    let n = buf.len();
    let p = find_nl(buf, i);
    if p >= n {
        return Err(RespError::Incomplete);
    }
    let ghost raw = buf@.subrange(i as int, p + 1);
    let tag = buf[i];
    proof {
        assert(raw[0] == buf@[i as int]);
    }
    // the header remainder: after the tag, with a trailing CRLF pair dropped
    let rest_start = i + 1;
    let rest_end = if p > i + 1 && buf[p - 1] == 13 {
        p - 1
    } else {
        p + 1
    };
    proof {
        let tail = raw.subrange(1, raw.len() as int);
        assert(tail.len() == p - i);
        if p > i + 1 && buf@[p - 1] == 13 {
            assert(tail[tail.len() - 2] == buf@[p - 1]);
            assert(tail[tail.len() - 1] == buf@[p as int]);
            assert(spec_strip_crlf(tail) =~= buf@.subrange(rest_start as int, rest_end as int));
        } else {
            if tail.len() >= 2 {
                assert(tail[tail.len() - 2] == buf@[p - 1]);
            }
            assert(spec_strip_crlf(tail) =~= buf@.subrange(rest_start as int, rest_end as int));
        }
    }
    if tag == 43 || tag == 45 {
        let body = copy_bytes(buf, rest_start, rest_end);
        match string_from_utf8(body) {
            Some(s) => {
                if tag == 43 {
                    Ok((RespValue::SimpleString(s), p + 1))
                } else {
                    Ok((RespValue::Error(s), p + 1))
                }
            },
            None => Err(RespError::Malformed),
        }
    } else if tag == 58 {
        match parse_i64_range(buf, rest_start, rest_end) {
            Some(v) => Ok((RespValue::Integer(v), p + 1)),
            None => Err(RespError::Malformed),
        }
    } else if tag == 36 {
        let len = match parse_i64_range(buf, rest_start, rest_end) {
            Some(l) => l,
            None => {
                return Err(RespError::Malformed);
            },
        };
        if len < 0 {
            return Ok((RespValue::Null, p + 1));
        }
        let avail = n - (p + 1);
        if avail < 2 || ((avail - 2) as u64) < (len as u64) {
            proof {
                assert(p + 1 + len + 2 > buf@.len());
            }
            return Err(RespError::Incomplete);
        }
        let len_usize = len as usize;
        let body = copy_bytes(buf, p + 1, p + 1 + len_usize);
        match string_from_utf8(body) {
            Some(s) => Ok((RespValue::BulkString(s), p + 1 + len_usize + 2)),
            None => Err(RespError::Malformed),
        }
    } else if tag == 42 {
        let count = match parse_i64_range(buf, rest_start, rest_end) {
            Some(c) => c,
            None => {
                return Err(RespError::Malformed);
            },
        };
        if count < 0 {
            return Ok((RespValue::Null, p + 1));
        }
        match parse_items_x(buf, p + 1, count, Ghost((fuel - 1) as nat)) {
            Ok((items, end)) => Ok((RespValue::Array(items), end)),
            Err(e) => Err(e),
        }
    } else {
        Err(RespError::Malformed)
    }
}

/// Reads `count` wire values one after another, starting at `i`.
fn parse_items_x(buf: &Vec<u8>, i: usize, count: i64, Ghost(fuel): Ghost<nat>) -> (r: Result<
    (Vec<RespValue>, usize),
    RespError,
>)
    requires
        i <= buf@.len(),
        count >= 0,
        fuel >= buf@.len() - i + 2,
    ensures
        match r {
            Ok((items, n)) => spec_parse_items(buf@, i as int, count as int, fuel)
                == ItemsOut::Items(resp_views(items@), n as int) && i <= n <= buf@.len(),
            Err(RespError::Incomplete) => spec_parse_items(buf@, i as int, count as int, fuel)
                == ItemsOut::Incomplete,
            Err(RespError::Malformed) => spec_parse_items(buf@, i as int, count as int, fuel)
                == ItemsOut::Bad,
        },
    decreases fuel,
{
    if count == 0 {
        let items: Vec<RespValue> = Vec::new();
        proof {
            assert(resp_views(items@) =~= Seq::<RespValueV>::empty());
        }
        return Ok((items, i));
    }
    let first = match parse_resp_x(buf, i, Ghost((fuel - 1) as nat)) {
        Ok(p) => p,
        Err(e) => {
            return Err(e);
        },
    };
    let (v, j) = first;
    match parse_items_x(buf, j, count - 1, Ghost((fuel - 1) as nat)) {
        Ok((rest, end)) => {
            let mut items: Vec<RespValue> = Vec::new();
            items.push(v);
            let ghost rest0 = rest@;
            let mut rest = rest;
            items.append(&mut rest);
            proof {
                lemma_resp_views_concat(seq![items@[0]], rest0);
                assert(seq![items@[0]] + rest0 =~= items@);
                lemma_resp_views_index(seq![items@[0]]);
                assert(resp_views(seq![items@[0]]) =~= seq![items@[0]@]);
            }
            Ok((items, end))
        },
        Err(e) => Err(e),
    }
}

/// `resp_views` distributes over concatenation.
proof fn lemma_resp_views_concat(a: Seq<RespValue>, b: Seq<RespValue>)
    ensures
        resp_views(a + b) == resp_views(a) + resp_views(b),
    decreases b.len(),
{
    if b.len() == 0 {
        assert(a + b =~= a);
        assert(resp_views(a) + resp_views(b) =~= resp_views(a));
    } else {
        lemma_resp_views_concat(a, b.drop_last());
        assert((a + b).drop_last() =~= a + b.drop_last());
        assert((a + b).last() == b.last());
        assert(resp_views(a) + resp_views(b.drop_last()).push(resp_view(b.last())) =~= (resp_views(
            a,
        ) + resp_views(b.drop_last())).push(resp_view(b.last())));
    }
}

} // verus!
