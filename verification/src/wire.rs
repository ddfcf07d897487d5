//! The building blocks of the byte format that travels between peers:
//! base-128 varints, fields that carry a number, and fields that carry a run
//! of bytes behind its length.
//!
//! The encoding is the canonical form of the Protocol Buffers wire format.
//! Every value has one encoding, and the parsers accept that encoding only:
//! a field that holds its default (zero, or no bytes) is left out, and a
//! varint has no padding.

use vstd::prelude::*;
use vstd::slice::slice_subrange;

verus! {

/// Tag of field 1 when it carries a varint.
pub const TAG_1_VARINT: u8 = 0x08;

/// Tag of field 2 when it carries a varint.
pub const TAG_2_VARINT: u8 = 0x10;

/// Tag of field 1 when it carries bytes behind their length.
pub const TAG_1_BYTES: u8 = 0x0a;

/// Tag of field 2 when it carries bytes behind their length.
pub const TAG_2_BYTES: u8 = 0x12;

/// Tag of field 3 when it carries bytes behind their length.
pub const TAG_3_BYTES: u8 = 0x1a;

/// The base-128 encoding of `v`: seven bits to a byte, lowest first, the high
/// bit set on every byte but the last.
pub open spec fn varint(v: nat) -> Seq<u8>
    decreases v,
{
    if v < 128 {
        seq![v as u8]
    } else {
        seq![(v % 128 + 128) as u8] + varint(v / 128)
    }
}

/// Reads one varint off the front of `s`: its value and what follows it.
/// A varint that ends in a zero byte after a continuation is padded, and is
/// not accepted.
pub open spec fn parse_varint(s: Seq<u8>) -> Option<(nat, Seq<u8>)>
    decreases s.len(),
{
    if s.len() == 0 {
        None
    } else if s[0] < 128 {
        Some((s[0] as nat, s.skip(1)))
    } else {
        match parse_varint(s.skip(1)) {
            Some((high, rest)) => if high == 0 {
                None
            } else {
                Some(((s[0] - 128 + 128 * high) as nat, rest))
            },
            None => None,
        }
    }
}

/// `parse_varint`, for values that fit in 64 bits.
pub open spec fn parse_u64(s: Seq<u8>) -> Option<(u64, Seq<u8>)> {
    match parse_varint(s) {
        Some((v, rest)) => if v <= u64::MAX {
            Some((v as u64, rest))
        } else {
            None
        },
        None => None,
    }
}

/// A field that carries the number `v`. Zero is the default and takes no
/// bytes.
pub open spec fn uint_field(tag: u8, v: nat) -> Seq<u8> {
    if v == 0 {
        Seq::empty()
    } else {
        seq![tag] + varint(v)
    }
}

/// Reads a number field with tag `tag` off the front of `s`, where `limit` is
/// the largest value that the field can hold. Where `s` starts otherwise the
/// field is absent and holds zero.
pub open spec fn parse_uint_field(tag: u8, limit: nat, s: Seq<u8>) -> Option<(nat, Seq<u8>)> {
    if s.len() > 0 && s[0] == tag {
        match parse_varint(s.skip(1)) {
            Some((v, rest)) => if v == 0 || v > limit {
                None
            } else {
                Some((v, rest))
            },
            None => None,
        }
    } else {
        Some((0, s))
    }
}

/// A run of bytes behind its length.
pub open spec fn delimited(data: Seq<u8>) -> Seq<u8> {
    varint(data.len()) + data
}

/// Reads a run of bytes behind its length off the front of `s`.
pub open spec fn parse_delimited(s: Seq<u8>) -> Option<(Seq<u8>, Seq<u8>)> {
    match parse_varint(s) {
        Some((len, rest)) => if len <= rest.len() {
            Some((rest.take(len as int), rest.skip(len as int)))
        } else {
            None
        },
        None => None,
    }
}

/// A field that carries the bytes `data`. No bytes is the default and takes
/// no bytes.
pub open spec fn bytes_field(tag: u8, data: Seq<u8>) -> Seq<u8> {
    if data.len() == 0 {
        Seq::empty()
    } else {
        seq![tag] + delimited(data)
    }
}

/// Reads a bytes field with tag `tag` off the front of `s`. Where `s` starts
/// otherwise the field is absent and holds no bytes.
pub open spec fn parse_bytes_field(tag: u8, s: Seq<u8>) -> Option<(Seq<u8>, Seq<u8>)> {
    if s.len() > 0 && s[0] == tag {
        match parse_delimited(s.skip(1)) {
            Some((data, rest)) => if data.len() == 0 {
                None
            } else {
                Some((data, rest))
            },
            None => None,
        }
    } else {
        Some((Seq::empty(), s))
    }
}

/// The weight of digit `i` of a varint: 128 to the power `i`.
spec fn weight(i: nat) -> nat
    decreases i,
{
    if i == 0 {
        1
    } else {
        128 * weight((i - 1) as nat)
    }
}

/// What `parse_varint` gives for a varint whose low digits, already read,
/// have the value `acc`, whose next digit weighs `scale`, and whose higher
/// digits parse as `tail`.
spec fn resumed(acc: nat, scale: nat, tail: Option<(nat, Seq<u8>)>, first: bool) -> Option<
    (nat, Seq<u8>),
> {
    match tail {
        Some((high, rest)) => if !first && high == 0 {
            None
        } else {
            Some((acc + scale * high, rest))
        },
        None => None,
    }
}

/// A varint is never empty.
pub proof fn lemma_varint_nonempty(v: nat)
    ensures
        varint(v).len() >= 1,
        v < 128 ==> varint(v) == seq![v as u8],
        varint(v)[0] == (if v < 128 {
            v as u8
        } else {
            (v % 128 + 128) as u8
        }),
    decreases v,
{
    if v >= 128 {
        lemma_varint_nonempty(v / 128);
    }
}

/// Parsing reads back the value that was encoded, and leaves what follows.
pub proof fn lemma_parse_varint(v: nat, rest: Seq<u8>)
    ensures
        parse_varint(varint(v) + rest) == Some((v, rest)),
    decreases v,
{
    let s = varint(v) + rest;
    if v < 128 {
        assert(s.skip(1) =~= rest);
    } else {
        let high = v / 128;
        lemma_parse_varint(high, rest);
        assert(s.skip(1) =~= varint(high) + rest);
        assert(s[0] == (v % 128 + 128) as u8);
    }
}

/// What parses as a varint is the encoding of its value, followed by the
/// rest.
pub proof fn lemma_parse_varint_canonical(s: Seq<u8>)
    ensures
        parse_varint(s) matches Some((v, rest)) ==> s == varint(v) + rest,
    decreases s.len(),
{
    if s.len() > 0 {
        if s[0] < 128 {
            assert(s =~= varint(s[0] as nat) + s.skip(1));
        } else {
            lemma_parse_varint_canonical(s.skip(1));
            match parse_varint(s.skip(1)) {
                Some((high, rest)) => {
                    if high != 0 {
                        let v = (s[0] - 128 + 128 * high) as nat;
                        assert(v / 128 == high);
                        assert(v % 128 == s[0] - 128);
                        assert(s =~= seq![s[0]] + s.skip(1));
                        assert(s =~= varint(v) + rest);
                    }
                },
                None => {},
            }
        }
    }
}

/// Parsing reads back the number that a field carries.
pub proof fn lemma_parse_uint_field(tag: u8, limit: nat, v: nat, rest: Seq<u8>)
    requires
        v <= limit,
        rest.len() > 0 ==> rest[0] != tag,
    ensures
        parse_uint_field(tag, limit, uint_field(tag, v) + rest) == Some((v, rest)),
{
    let s = uint_field(tag, v) + rest;
    if v == 0 {
        assert(s =~= rest);
    } else {
        lemma_parse_varint(v, rest);
        assert(s.skip(1) =~= varint(v) + rest);
    }
}

/// What parses as a number field is the encoding of its number, followed by
/// the rest.
pub proof fn lemma_parse_uint_field_canonical(tag: u8, limit: nat, s: Seq<u8>)
    ensures
        parse_uint_field(tag, limit, s) matches Some((v, rest)) ==> s == uint_field(tag, v) + rest
            && v <= limit && (rest.len() > 0 && rest[0] == tag ==> v != 0),
{
    if s.len() > 0 && s[0] == tag {
        lemma_parse_varint_canonical(s.skip(1));
        match parse_varint(s.skip(1)) {
            Some((v, rest)) => {
                if v != 0 && v <= limit {
                    assert(s =~= seq![tag] + s.skip(1));
                    assert(s =~= uint_field(tag, v) + rest);
                }
            },
            None => {},
        }
    } else {
        assert(s =~= uint_field(tag, 0) + s);
    }
}

/// Parsing reads back the bytes that were put behind their length.
pub proof fn lemma_parse_delimited(data: Seq<u8>, rest: Seq<u8>)
    ensures
        parse_delimited(delimited(data) + rest) == Some((data, rest)),
{
    lemma_parse_varint(data.len(), data + rest);
    assert(delimited(data) + rest =~= varint(data.len()) + (data + rest));
    assert((data + rest).take(data.len() as int) =~= data);
    assert((data + rest).skip(data.len() as int) =~= rest);
}

/// What parses as bytes behind their length is the encoding of those bytes,
/// followed by the rest.
pub proof fn lemma_parse_delimited_canonical(s: Seq<u8>)
    ensures
        parse_delimited(s) matches Some((data, rest)) ==> s == delimited(data) + rest,
{
    lemma_parse_varint_canonical(s);
    match parse_varint(s) {
        Some((len, tail)) => {
            if len <= tail.len() {
                let data = tail.take(len as int);
                let rest = tail.skip(len as int);
                assert(tail =~= data + rest);
                assert(s =~= delimited(data) + rest);
            }
        },
        None => {},
    }
}

/// Parsing reads back the bytes that a field carries.
pub proof fn lemma_parse_bytes_field(tag: u8, data: Seq<u8>, rest: Seq<u8>)
    requires
        rest.len() > 0 ==> rest[0] != tag,
    ensures
        parse_bytes_field(tag, bytes_field(tag, data) + rest) == Some((data, rest)),
{
    let s = bytes_field(tag, data) + rest;
    if data.len() == 0 {
        assert(s =~= rest);
        assert(data =~= Seq::empty());
    } else {
        lemma_parse_delimited(data, rest);
        assert(s.skip(1) =~= delimited(data) + rest);
    }
}

/// What parses as a bytes field is the encoding of its bytes, followed by the
/// rest.
pub proof fn lemma_parse_bytes_field_canonical(tag: u8, s: Seq<u8>)
    ensures
        parse_bytes_field(tag, s) matches Some((data, rest)) ==> s == bytes_field(tag, data) + rest
            && (rest.len() > 0 && rest[0] == tag ==> data.len() != 0),
{
    if s.len() > 0 && s[0] == tag {
        lemma_parse_delimited_canonical(s.skip(1));
        match parse_delimited(s.skip(1)) {
            Some((data, rest)) => {
                if data.len() != 0 {
                    assert(s =~= seq![tag] + s.skip(1));
                    assert(s =~= bytes_field(tag, data) + rest);
                }
            },
            None => {},
        }
    } else {
        assert(s =~= bytes_field(tag, Seq::empty()) + s);
    }
}

/// Appends the varint of `v` to `out`.
pub fn put_varint(out: &mut Vec<u8>, v: u64)
    ensures
        final(out)@ == old(out)@ + varint(v as nat),
{
    let mut left: u64 = v;
    while left >= 128
        invariant
            old(out)@ + varint(v as nat) == out@ + varint(left as nat),
        decreases left,
    {
        let digit: u8 = (left % 128 + 128) as u8;
        proof {
            assert(out@.push(digit) + varint((left / 128) as nat) =~= out@ + varint(left as nat));
        }
        out.push(digit);
        left = left / 128;
    }
    proof {
        assert(out@.push(left as u8) =~= out@ + varint(left as nat));
    }
    out.push(left as u8);
}

/// Reads one varint that fits in 64 bits off the front of `input`.
pub fn take_varint(input: &[u8]) -> (found: Option<(u64, &[u8])>)
    ensures
        found matches Some((v, rest)) ==> parse_u64(input@) == Some((v, rest@)),
        found is None ==> parse_u64(input@) is None,
{
    let mut acc: u128 = 0;
    let mut scale: u128 = 1;
    let mut i: usize = 0;
    proof {
        assert(input@.skip(0) =~= input@);
        lemma_resumed_start(parse_varint(input@));
    }
    while i < input.len() && i < 10
        invariant
            0 <= i <= input@.len(),
            i <= 10,
            scale == weight(i as nat),
            acc < scale,
            parse_varint(input@) == resumed(
                acc as nat,
                scale as nat,
                parse_varint(input@.skip(i as int)),
                i == 0,
            ),
        decreases input@.len() - i,
    {
        let byte = input[i];
        let ghost tail = input@.skip(i as int);
        proof {
            assert(tail[0] == byte);
            assert(tail.skip(1) =~= input@.skip(i + 1));
            lemma_scale_bounds(i as nat);
        }
        if byte < 128 {
            if byte == 0 && i > 0 {
                return None;
            }
            proof {
                assert(scale * byte <= scale * 127) by (nonlinear_arith)
                    requires
                        byte <= 127,
                        scale >= 0,
                ;
            }
            let value: u128 = acc + scale * (byte as u128);
            if value > u64::MAX as u128 {
                return None;
            }
            let rest = slice_subrange(input, i + 1, input.len());
            proof {
                assert(rest@ =~= input@.skip(i + 1));
            }
            return Some((value as u64, rest));
        }
        proof {
            let digit = (byte - 128) as nat;
            assert(scale * digit <= scale * 127) by (nonlinear_arith)
                requires
                    digit <= 127,
                    scale >= 0,
            ;
            assert(acc + scale * digit < scale * 128) by (nonlinear_arith)
                requires
                    acc < scale,
                    digit <= 127,
            ;
            lemma_resumed_step(acc as nat, scale as nat, digit, parse_varint(input@.skip(i + 1)), i == 0);
            assert(weight((i + 1) as nat) == 128 * weight(i as nat));
        }
        acc = acc + scale * ((byte - 128) as u128);
        scale = scale * 128;
        i = i + 1;
    }
    proof {
        if i < input@.len() {
            lemma_scale_bounds(10);
            lemma_resumed_large(
                acc as nat,
                scale as nat,
                parse_varint(input@.skip(i as int)),
            );
        } else {
            assert(input@.skip(i as int).len() == 0);
        }
    }
    None
}

/// Appends the bytes `data` behind their length to `out`.
pub fn put_delimited(out: &mut Vec<u8>, data: &[u8])
    ensures
        final(out)@ == old(out)@ + delimited(data@),
{
    put_varint(out, data.len() as u64);
    out.extend_from_slice(data);
    proof {
        assert(out@ =~= old(out)@ + delimited(data@));
    }
}

/// Reads a run of bytes behind its length off the front of `input`.
pub fn take_delimited(input: &[u8]) -> (found: Option<(&[u8], &[u8])>)
    ensures
        found matches Some((data, rest)) ==> parse_delimited(input@) == Some((data@, rest@)),
        found is None ==> parse_delimited(input@) is None,
{
    match take_varint(input) {
        Some((len, tail)) => {
            if len > tail.len() as u64 {
                return None;
            }
            let len = len as usize;
            let data = slice_subrange(tail, 0, len);
            let rest = slice_subrange(tail, len, tail.len());
            Some((data, rest))
        },
        None => {
            let total = input.len();
            proof {
                assert(input@.len() == total);
                lemma_parse_varint_length(input@);
            }
            None
        },
    }
}

/// Appends to `out` the field with tag `tag` that carries the number `v`.
pub fn put_uint_field(out: &mut Vec<u8>, tag: u8, v: u64)
    ensures
        final(out)@ == old(out)@ + uint_field(tag, v as nat),
{
    if v != 0 {
        out.push(tag);
        put_varint(out, v);
        proof {
            assert(out@ =~= old(out)@ + uint_field(tag, v as nat));
        }
    } else {
        proof {
            assert(out@ =~= old(out)@ + uint_field(tag, v as nat));
        }
    }
}

/// Reads a number field with tag `tag` that holds at most `limit` off the
/// front of `input`.
pub fn take_uint_field(tag: u8, limit: u64, input: &[u8]) -> (found: Option<(u64, &[u8])>)
    ensures
        found matches Some((v, rest)) ==> v <= limit && parse_uint_field(
            tag,
            limit as nat,
            input@,
        ) == Some((v as nat, rest@)),
        found is None ==> parse_uint_field(tag, limit as nat, input@) is None,
{
    if input.len() > 0 && input[0] == tag {
        let body = slice_subrange(input, 1, input.len());
        proof {
            assert(body@ =~= input@.skip(1));
        }
        match take_varint(body) {
            Some((v, rest)) => {
                if v == 0 || v > limit {
                    None
                } else {
                    Some((v, rest))
                }
            },
            None => None,
        }
    } else {
        Some((0, input))
    }
}

/// Appends to `out` the field with tag `tag` that carries the bytes `data`.
pub fn put_bytes_field(out: &mut Vec<u8>, tag: u8, data: &[u8])
    ensures
        final(out)@ == old(out)@ + bytes_field(tag, data@),
{
    if data.len() != 0 {
        out.push(tag);
        put_delimited(out, data);
        proof {
            assert(out@ =~= old(out)@ + bytes_field(tag, data@));
        }
    } else {
        proof {
            assert(out@ =~= old(out)@ + bytes_field(tag, data@));
        }
    }
}

/// Reads a bytes field with tag `tag` off the front of `input`.
pub fn take_bytes_field(tag: u8, input: &[u8]) -> (found: Option<(&[u8], &[u8])>)
    ensures
        found matches Some((data, rest)) ==> parse_bytes_field(tag, input@) == Some(
            (data@, rest@),
        ),
        found is None ==> parse_bytes_field(tag, input@) is None,
{
    if input.len() > 0 && input[0] == tag {
        let body = slice_subrange(input, 1, input.len());
        proof {
            assert(body@ =~= input@.skip(1));
        }
        match take_delimited(body) {
            Some((data, rest)) => {
                if data.len() == 0 {
                    None
                } else {
                    Some((data, rest))
                }
            },
            None => None,
        }
    } else {
        let nothing = slice_subrange(input, 0, 0);
        proof {
            assert(nothing@ =~= Seq::<u8>::empty());
        }
        Some((nothing, input))
    }
}

/// A varint takes up at least one byte, and one that does not fit in 64
/// bits stands for a number greater than the bytes that can follow it.
pub proof fn lemma_parse_varint_length(s: Seq<u8>)
    requires
        s.len() <= usize::MAX,
    ensures
        parse_varint(s) matches Some((v, rest)) ==> rest.len() < s.len() && (v > u64::MAX ==> v
            > rest.len()),
    decreases s.len(),
{
    if s.len() > 0 && s[0] >= 128 {
        lemma_parse_varint_length(s.skip(1));
    }
}

/// Before any digit is read, the parse is the parse.
proof fn lemma_resumed_start(tail: Option<(nat, Seq<u8>)>)
    ensures
        resumed(0, 1, tail, true) == tail,
{
    match tail {
        Some((high, rest)) => {
            assert(0 + 1 * high == high) by (nonlinear_arith);
        },
        None => {},
    }
}

/// Reading one more continuation digit.
proof fn lemma_resumed_step(
    acc: nat,
    scale: nat,
    digit: nat,
    tail: Option<(nat, Seq<u8>)>,
    first: bool,
)
    requires
        digit < 128,
    ensures
        resumed(
            acc,
            scale,
            match tail {
                Some((high, rest)) => if high == 0 {
                    None
                } else {
                    Some(((digit + 128 * high) as nat, rest))
                },
                None => None,
            },
            first,
        ) == resumed(acc + scale * digit, scale * 128, tail, false),
{
    match tail {
        Some((high, rest)) => {
            if high != 0 {
                assert(acc + scale * (digit + 128 * high) == acc + scale * digit + scale * 128
                    * high) by (nonlinear_arith);
            }
        },
        None => {},
    }
}

/// A varint with digits beyond the tenth does not fit in 64 bits.
proof fn lemma_resumed_large(acc: nat, scale: nat, tail: Option<(nat, Seq<u8>)>)
    requires
        scale > u64::MAX,
    ensures
        resumed(acc, scale, tail, false) matches Some((v, rest)) ==> v > u64::MAX,
{
    match tail {
        Some((high, rest)) => {
            if high != 0 {
                assert(acc + scale * high >= scale) by (nonlinear_arith)
                    requires
                        high >= 1,
                ;
            }
        },
        None => {},
    }
}

/// The weights of the first eleven digits.
proof fn lemma_scale_bounds(i: nat)
    requires
        i <= 10,
    ensures
        weight(i) > 0,
        weight(i) <= 0x40_0000_0000_0000_0000,
        i == 10 ==> weight(i) == 0x40_0000_0000_0000_0000,
{
    reveal_with_fuel(weight, 12);
}

} // verus!
