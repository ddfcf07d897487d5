//! The byte format of the typed messages. A message is a run of fields; a
//! request or a response is one field that holds the body of its kind behind
//! its length, and an empty message takes no bytes.
//!
//! Every message has one encoding, and the decoders accept that encoding
//! only: fields come in the order of their tags, none comes twice, and none
//! that the message does not have is passed over.

use crate::horcrust_msg_request::Request;
use crate::horcrust_msg_response::Response;
use crate::messages::{
    GetShareRequest, HorcrustMsgError, HorcrustMsgRequest, HorcrustMsgResponse, PutShareRequest,
    RefreshShareRequest, RequestModel, ResponseModel, ShareResponse,
};
use crate::wire::{
    bytes_field, delimited, lemma_parse_bytes_field, lemma_parse_bytes_field_canonical,
    lemma_parse_delimited, lemma_parse_delimited_canonical, lemma_parse_uint_field,
    lemma_parse_uint_field_canonical, lemma_parse_varint, lemma_parse_varint_canonical,
    lemma_parse_varint_length, lemma_varint_nonempty, parse_bytes_field, parse_delimited, parse_uint_field, parse_varint,
    put_bytes_field, put_delimited, put_uint_field, put_varint, take_bytes_field, take_delimited,
    take_uint_field, take_varint, uint_field, varint, TAG_1_BYTES, TAG_1_VARINT, TAG_2_BYTES,
    TAG_2_VARINT, TAG_3_BYTES,
};
use vstd::prelude::*;
use vstd::slice::slice_subrange;
use vstd::utf8::{decode_utf8, encode_utf8, valid_utf8};

verus! {

/// The varints of `values`, one behind the other.
pub open spec fn varints(values: Seq<u32>) -> Seq<u8>
    decreases values.len(),
{
    if values.len() == 0 {
        Seq::empty()
    } else {
        varint(values[0] as nat) + varints(values.skip(1))
    }
}

/// Reads `s` as a run of varints that fit in 32 bits, to its end.
pub open spec fn parse_varints(s: Seq<u8>) -> Option<Seq<u32>>
    decreases s.len(),
{
    if s.len() == 0 {
        Some(Seq::empty())
    } else {
        match parse_varint(s) {
            Some((v, rest)) => if v <= u32::MAX && rest.len() < s.len() {
                match parse_varints(rest) {
                    Some(tail) => Some(seq![v as u32] + tail),
                    None => None,
                }
            } else {
                None
            },
            None => None,
        }
    }
}

/// The body of a request to put `share` under `key`.
pub open spec fn put_body(key: u32, share: u64) -> Seq<u8> {
    uint_field(TAG_1_VARINT, key as nat) + uint_field(TAG_2_VARINT, share as nat)
}

/// The body of a request for the share under `key`.
pub open spec fn get_body(key: u32) -> Seq<u8> {
    uint_field(TAG_1_VARINT, key as nat)
}

/// The body of a request to apply `mask` to the shares under `keys`.
pub open spec fn refresh_body(keys: Seq<u32>, mask: u64) -> Seq<u8> {
    bytes_field(TAG_1_BYTES, varints(keys)) + uint_field(TAG_2_VARINT, mask as nat)
}

/// The body of a report with the given flag and message.
pub open spec fn error_body(flag: bool, message: Seq<char>) -> Seq<u8> {
    uint_field(TAG_1_VARINT, if flag { 1nat } else { 0nat }) + bytes_field(
        TAG_2_BYTES,
        encode_utf8(message),
    )
}

/// The body of a response that carries `share`.
pub open spec fn share_body(share: u64) -> Seq<u8> {
    uint_field(TAG_1_VARINT, share as nat)
}

/// The encoding of a request.
pub open spec fn request_bytes(request: Option<RequestModel>) -> Seq<u8> {
    match request {
        Some(RequestModel::PutShare { key, share }) => seq![TAG_1_BYTES] + delimited(
            put_body(key, share),
        ),
        Some(RequestModel::GetShare { key }) => seq![TAG_2_BYTES] + delimited(get_body(key)),
        Some(RequestModel::Refresh { keys, mask }) => seq![TAG_3_BYTES] + delimited(
            refresh_body(keys, mask),
        ),
        None => Seq::empty(),
    }
}

/// The encoding of a response.
pub open spec fn response_bytes(response: Option<ResponseModel>) -> Seq<u8> {
    match response {
        Some(ResponseModel::Error { flag, message }) => seq![TAG_1_BYTES] + delimited(
            error_body(flag, message),
        ),
        Some(ResponseModel::Share { share }) => seq![TAG_2_BYTES] + delimited(share_body(share)),
        None => Seq::empty(),
    }
}

/// Reads `s`, to its end, as the body of a put.
pub open spec fn parse_put_body(s: Seq<u8>) -> Option<RequestModel> {
    match parse_uint_field(TAG_1_VARINT, u32::MAX as nat, s) {
        Some((key, after_key)) => match parse_uint_field(
            TAG_2_VARINT,
            u64::MAX as nat,
            after_key,
        ) {
            Some((share, rest)) => if rest.len() == 0 {
                Some(RequestModel::PutShare { key: key as u32, share: share as u64 })
            } else {
                None
            },
            None => None,
        },
        None => None,
    }
}

/// Reads `s`, to its end, as the body of a get.
pub open spec fn parse_get_body(s: Seq<u8>) -> Option<RequestModel> {
    match parse_uint_field(TAG_1_VARINT, u32::MAX as nat, s) {
        Some((key, rest)) => if rest.len() == 0 {
            Some(RequestModel::GetShare { key: key as u32 })
        } else {
            None
        },
        None => None,
    }
}

/// Reads `s`, to its end, as the body of a refresh.
pub open spec fn parse_refresh_body(s: Seq<u8>) -> Option<RequestModel> {
    match parse_bytes_field(TAG_1_BYTES, s) {
        Some((packed, after_keys)) => match parse_varints(packed) {
            Some(keys) => match parse_uint_field(TAG_2_VARINT, u64::MAX as nat, after_keys) {
                Some((mask, rest)) => if rest.len() == 0 {
                    Some(RequestModel::Refresh { keys, mask: mask as u64 })
                } else {
                    None
                },
                None => None,
            },
            None => None,
        },
        None => None,
    }
}

/// Reads `s`, to its end, as the body of a report.
pub open spec fn parse_error_body(s: Seq<u8>) -> Option<ResponseModel> {
    match parse_uint_field(TAG_1_VARINT, 1, s) {
        Some((flag, after_flag)) => match parse_bytes_field(TAG_2_BYTES, after_flag) {
            Some((text, rest)) => if rest.len() == 0 && valid_utf8(text) {
                Some(ResponseModel::Error { flag: flag == 1, message: decode_utf8(text) })
            } else {
                None
            },
            None => None,
        },
        None => None,
    }
}

/// Reads `s`, to its end, as the body of a response that carries a share.
pub open spec fn parse_share_body(s: Seq<u8>) -> Option<ResponseModel> {
    match parse_uint_field(TAG_1_VARINT, u64::MAX as nat, s) {
        Some((share, rest)) => if rest.len() == 0 {
            Some(ResponseModel::Share { share: share as u64 })
        } else {
            None
        },
        None => None,
    }
}

/// Reads `s`, to its end, as a request. The outer `Option` tells whether `s`
/// is the encoding of a request, the inner one whether that request asks for
/// anything.
pub open spec fn parse_request(s: Seq<u8>) -> Option<Option<RequestModel>> {
    if s.len() == 0 {
        Some(None)
    } else {
        match parse_delimited(s.skip(1)) {
            Some((body, rest)) => if rest.len() != 0 {
                None
            } else {
                let request = if s[0] == TAG_1_BYTES {
                    parse_put_body(body)
                } else if s[0] == TAG_2_BYTES {
                    parse_get_body(body)
                } else if s[0] == TAG_3_BYTES {
                    parse_refresh_body(body)
                } else {
                    None
                };
                match request {
                    Some(r) => Some(Some(r)),
                    None => None,
                }
            },
            None => None,
        }
    }
}

/// Reads `s`, to its end, as a response. The outer `Option` tells whether
/// `s` is the encoding of a response, the inner one whether that response
/// says anything.
pub open spec fn parse_response(s: Seq<u8>) -> Option<Option<ResponseModel>> {
    if s.len() == 0 {
        Some(None)
    } else {
        match parse_delimited(s.skip(1)) {
            Some((body, rest)) => if rest.len() != 0 {
                None
            } else {
                let response = if s[0] == TAG_1_BYTES {
                    parse_error_body(body)
                } else if s[0] == TAG_2_BYTES {
                    parse_share_body(body)
                } else {
                    None
                };
                match response {
                    Some(r) => Some(Some(r)),
                    None => None,
                }
            },
            None => None,
        }
    }
}

/// Appending a value appends its varint.
pub proof fn lemma_varints_append(values: Seq<u32>, last: u32)
    ensures
        varints(values.push(last)) == varints(values) + varint(last as nat),
    decreases values.len(),
{
    if values.len() == 0 {
        let one = values.push(last);
        assert(one.skip(1) =~= Seq::<u32>::empty());
        assert(one[0] == last);
        assert(varints(one) == varint(last as nat) + varints(one.skip(1)));
        assert(varints(one) =~= varints(values) + varint(last as nat));
    } else {
        lemma_varints_append(values.skip(1), last);
        assert(values.push(last).skip(1) =~= values.skip(1).push(last));
        assert(varints(values.push(last)) =~= varints(values) + varint(last as nat));
    }
}

/// Parsing reads back the values of a run of varints.
pub proof fn lemma_parse_varints(values: Seq<u32>)
    ensures
        parse_varints(varints(values)) == Some(values),
        values.len() > 0 ==> varints(values).len() > 0,
    decreases values.len(),
{
    if values.len() > 0 {
        let tail = varints(values.skip(1));
        lemma_parse_varints(values.skip(1));
        lemma_parse_varint(values[0] as nat, tail);
        lemma_varint_nonempty(values[0] as nat);
        assert(seq![values[0]] + values.skip(1) =~= values);
    }
}

/// What parses as a run of varints is the encoding of its values.
pub proof fn lemma_parse_varints_canonical(s: Seq<u8>)
    ensures
        parse_varints(s) matches Some(values) ==> s == varints(values),
    decreases s.len(),
{
    if s.len() > 0 {
        lemma_parse_varint_canonical(s);
        match parse_varint(s) {
            Some((v, rest)) => {
                if v <= u32::MAX && rest.len() < s.len() {
                    lemma_parse_varints_canonical(rest);
                    match parse_varints(rest) {
                        Some(tail) => {
                            let values = seq![v as u32] + tail;
                            assert(values.skip(1) =~= tail);
                        },
                        None => {},
                    }
                }
            },
            None => {},
        }
    }
}

/// Parsing a request reads back what was encoded.
pub proof fn lemma_parse_request(request: Option<RequestModel>)
    ensures
        parse_request(request_bytes(request)) == Some(request),
{
    let s = request_bytes(request);
    let nothing = Seq::<u8>::empty();
    match request {
        Some(RequestModel::PutShare { key, share }) => {
            let body = put_body(key, share);
            lemma_parse_delimited(body, nothing);
            assert(s.skip(1) =~= delimited(body) + nothing);
            let tail = uint_field(TAG_2_VARINT, share as nat);
            lemma_parse_uint_field(TAG_1_VARINT, u32::MAX as nat, key as nat, tail);
            lemma_parse_uint_field(TAG_2_VARINT, u64::MAX as nat, share as nat, nothing);
            assert(tail + nothing =~= tail);
        },
        Some(RequestModel::GetShare { key }) => {
            let body = get_body(key);
            lemma_parse_delimited(body, nothing);
            assert(s.skip(1) =~= delimited(body) + nothing);
            lemma_parse_uint_field(TAG_1_VARINT, u32::MAX as nat, key as nat, nothing);
            assert(body + nothing =~= body);
        },
        Some(RequestModel::Refresh { keys, mask }) => {
            let body = refresh_body(keys, mask);
            lemma_parse_delimited(body, nothing);
            assert(s.skip(1) =~= delimited(body) + nothing);
            let tail = uint_field(TAG_2_VARINT, mask as nat);
            lemma_parse_bytes_field(TAG_1_BYTES, varints(keys), tail);
            lemma_parse_varints(keys);
            lemma_parse_uint_field(TAG_2_VARINT, u64::MAX as nat, mask as nat, nothing);
            assert(tail + nothing =~= tail);
        },
        None => {},
    }
}

/// What parses as a request is the encoding of that request.
pub proof fn lemma_parse_request_canonical(s: Seq<u8>)
    ensures
        parse_request(s) matches Some(request) ==> s == request_bytes(request),
{
    if s.len() > 0 {
        lemma_parse_delimited_canonical(s.skip(1));
        match parse_delimited(s.skip(1)) {
            Some((body, rest)) => {
                if rest.len() == 0 {
                    assert(s =~= seq![s[0]] + delimited(body));
                    lemma_parse_uint_field_canonical(TAG_1_VARINT, u32::MAX as nat, body);
                    lemma_parse_bytes_field_canonical(TAG_1_BYTES, body);
                    if s[0] == TAG_1_BYTES {
                        match parse_uint_field(TAG_1_VARINT, u32::MAX as nat, body) {
                            Some((key, after_key)) => {
                                lemma_parse_uint_field_canonical(
                                    TAG_2_VARINT,
                                    u64::MAX as nat,
                                    after_key,
                                );
                                match parse_uint_field(TAG_2_VARINT, u64::MAX as nat, after_key) {
                                    Some((share, tail)) => {
                                        if tail.len() == 0 {
                                            assert(body =~= put_body(key as u32, share as u64));
                                        }
                                    },
                                    None => {},
                                }
                            },
                            None => {},
                        }
                    } else if s[0] == TAG_2_BYTES {
                        match parse_uint_field(TAG_1_VARINT, u32::MAX as nat, body) {
                            Some((key, tail)) => {
                                if tail.len() == 0 {
                                    assert(body =~= get_body(key as u32));
                                }
                            },
                            None => {},
                        }
                    } else if s[0] == TAG_3_BYTES {
                        match parse_bytes_field(TAG_1_BYTES, body) {
                            Some((packed, after_keys)) => {
                                lemma_parse_varints_canonical(packed);
                                lemma_parse_uint_field_canonical(
                                    TAG_2_VARINT,
                                    u64::MAX as nat,
                                    after_keys,
                                );
                                match (
                                    parse_varints(packed),
                                    parse_uint_field(TAG_2_VARINT, u64::MAX as nat, after_keys),
                                ) {
                                    (Some(keys), Some((mask, tail))) => {
                                        if tail.len() == 0 {
                                            assert(body =~= refresh_body(keys, mask as u64));
                                        }
                                    },
                                    _ => {},
                                }
                            },
                            None => {},
                        }
                    }
                }
            },
            None => {},
        }
    }
}

/// Parsing a response reads back what was encoded.
pub proof fn lemma_parse_response(response: Option<ResponseModel>)
    ensures
        parse_response(response_bytes(response)) == Some(response),
{
    broadcast use {vstd::utf8::encode_utf8_valid_utf8, vstd::utf8::encode_utf8_decode_utf8};

    let s = response_bytes(response);
    let nothing = Seq::<u8>::empty();
    match response {
        Some(ResponseModel::Error { flag, message }) => {
            let body = error_body(flag, message);
            lemma_parse_delimited(body, nothing);
            assert(s.skip(1) =~= delimited(body) + nothing);
            let tail = bytes_field(TAG_2_BYTES, encode_utf8(message));
            lemma_parse_uint_field(TAG_1_VARINT, 1, if flag { 1nat } else { 0nat }, tail);
            lemma_parse_bytes_field(TAG_2_BYTES, encode_utf8(message), nothing);
            assert(tail + nothing =~= tail);
        },
        Some(ResponseModel::Share { share }) => {
            let body = share_body(share);
            lemma_parse_delimited(body, nothing);
            assert(s.skip(1) =~= delimited(body) + nothing);
            lemma_parse_uint_field(TAG_1_VARINT, u64::MAX as nat, share as nat, nothing);
            assert(body + nothing =~= body);
        },
        None => {},
    }
}

/// What parses as the body of a report is the encoding of that report.
proof fn lemma_parse_error_body_canonical(body: Seq<u8>)
    ensures
        parse_error_body(body) matches Some(ResponseModel::Error { flag, message }) ==> body
            == error_body(flag, message),
        parse_error_body(body) matches Some(r) ==> r is Error,
{
    lemma_parse_uint_field_canonical(TAG_1_VARINT, 1, body);
    match parse_uint_field(TAG_1_VARINT, 1, body) {
        Some((flag, after_flag)) => {
            lemma_parse_bytes_field_canonical(TAG_2_BYTES, after_flag);
            match parse_bytes_field(TAG_2_BYTES, after_flag) {
                Some((text, tail)) => {
                    if tail.len() == 0 && valid_utf8(text) {
                        vstd::utf8::decode_utf8_encode_utf8(text);
                        assert(after_flag =~= bytes_field(TAG_2_BYTES, text));
                        assert(body =~= error_body(flag == 1, decode_utf8(text)));
                    }
                },
                None => {},
            }
        },
        None => {},
    }
}

/// What parses as the body of a response with a share is the encoding of
/// that response.
proof fn lemma_parse_share_body_canonical(body: Seq<u8>)
    ensures
        parse_share_body(body) matches Some(ResponseModel::Share { share }) ==> body
            == share_body(share),
        parse_share_body(body) matches Some(r) ==> r is Share,
{
    lemma_parse_uint_field_canonical(TAG_1_VARINT, u64::MAX as nat, body);
    match parse_uint_field(TAG_1_VARINT, u64::MAX as nat, body) {
        Some((share, tail)) => {
            if tail.len() == 0 {
                assert(body =~= share_body(share as u64));
            }
        },
        None => {},
    }
}

/// What parses as a response is the encoding of that response.
pub proof fn lemma_parse_response_canonical(s: Seq<u8>)
    ensures
        parse_response(s) matches Some(response) ==> s == response_bytes(response),
{
    if s.len() > 0 {
        lemma_parse_delimited_canonical(s.skip(1));
        match parse_delimited(s.skip(1)) {
            Some((body, rest)) => {
                if rest.len() == 0 {
                    assert(s =~= seq![s[0]] + delimited(body));
                    if s[0] == TAG_1_BYTES {
                        lemma_parse_error_body_canonical(body);
                    } else if s[0] == TAG_2_BYTES {
                        lemma_parse_share_body_canonical(body);
                    }
                }
            },
            None => {},
        }
    }
}

/// What `parse_varints` gives for a run whose first values, already read,
/// are `values`, and whose remainder parses as `tail`.
spec fn continued(values: Seq<u32>, tail: Option<Seq<u32>>) -> Option<Seq<u32>> {
    match tail {
        Some(more) => Some(values + more),
        None => None,
    }
}

/// Appends the varints of `values` to `out`.
pub fn put_varints(out: &mut Vec<u8>, values: &Vec<u32>)
    ensures
        final(out)@ == old(out)@ + varints(values@),
{
    let mut i: usize = 0;
    proof {
        assert(out@ =~= old(out)@ + varints(values@.take(0)));
    }
    while i < values.len()
        invariant
            0 <= i <= values@.len(),
            out@ == old(out)@ + varints(values@.take(i as int)),
        decreases values@.len() - i,
    {
        proof {
            lemma_varints_append(values@.take(i as int), values@[i as int]);
            assert(values@.take(i + 1) =~= values@.take(i as int).push(values@[i as int]));
        }
        put_varint(out, values[i] as u64);
        proof {
            assert(out@ =~= old(out)@ + varints(values@.take(i + 1)));
        }
        i = i + 1;
    }
    proof {
        assert(values@.take(values@.len() as int) =~= values@);
    }
}

/// Reads `input`, to its end, as a run of varints that fit in 32 bits.
pub fn take_varints(input: &[u8]) -> (found: Option<Vec<u32>>)
    ensures
        found matches Some(values) ==> parse_varints(input@) == Some(values@),
        found is None ==> parse_varints(input@) is None,
{
    let mut values: Vec<u32> = Vec::new();
    let mut left: &[u8] = input;
    proof {
        match parse_varints(input@) {
            Some(all) => {
                assert(values@ + all =~= all);
            },
            None => {},
        }
    }
    while left.len() > 0
        invariant
            parse_varints(input@) == continued(values@, parse_varints(left@)),
        decreases left@.len(),
    {
        let total = left.len();
        proof {
            assert(left@.len() == total);
            lemma_parse_varint_length(left@);
        }
        match take_varint(left) {
            Some((v, rest)) => {
                if v > u32::MAX as u64 {
                    return None;
                }
                proof {
                    match parse_varints(rest@) {
                        Some(more) => {
                            assert(values@ + (seq![v as u32] + more) =~= values@.push(v as u32)
                                + more);
                        },
                        None => {},
                    }
                }
                values.push(v as u32);
                left = rest;
            },
            None => {
                return None;
            },
        }
    }
    proof {
        assert(values@ + Seq::<u32>::empty() =~= values@);
    }
    Some(values)
}

/// Reads `body`, to its end, as the body of a put.
fn decode_put_body(body: &[u8]) -> (found: Option<Request>)
    ensures
        found matches Some(r) ==> parse_put_body(body@) == Some(r@),
        found is None ==> parse_put_body(body@) is None,
{
    let (key, after_key) = match take_uint_field(TAG_1_VARINT, u32::MAX as u64, body) {
        Some(found) => found,
        None => {
            return None;
        },
    };
    let (share, rest) = match take_uint_field(TAG_2_VARINT, u64::MAX, after_key) {
        Some(found) => found,
        None => {
            return None;
        },
    };
    if rest.len() != 0 {
        return None;
    }
    Some(Request::PutShare(PutShareRequest { key: key as u32, share }))
}

/// Reads `body`, to its end, as the body of a get.
fn decode_get_body(body: &[u8]) -> (found: Option<Request>)
    ensures
        found matches Some(r) ==> parse_get_body(body@) == Some(r@),
        found is None ==> parse_get_body(body@) is None,
{
    let (key, rest) = match take_uint_field(TAG_1_VARINT, u32::MAX as u64, body) {
        Some(found) => found,
        None => {
            return None;
        },
    };
    if rest.len() != 0 {
        return None;
    }
    Some(Request::GetShare(GetShareRequest { key: key as u32 }))
}

/// Reads `body`, to its end, as the body of a refresh.
fn decode_refresh_body(body: &[u8]) -> (found: Option<Request>)
    ensures
        found matches Some(r) ==> parse_refresh_body(body@) == Some(r@),
        found is None ==> parse_refresh_body(body@) is None,
{
    let (packed, after_keys) = match take_bytes_field(TAG_1_BYTES, body) {
        Some(found) => found,
        None => {
            return None;
        },
    };
    let keys = match take_varints(packed) {
        Some(keys) => keys,
        None => {
            return None;
        },
    };
    let (mask, rest) = match take_uint_field(TAG_2_VARINT, u64::MAX, after_keys) {
        Some(found) => found,
        None => {
            return None;
        },
    };
    if rest.len() != 0 {
        return None;
    }
    Some(Request::Refresh(RefreshShareRequest { key: keys, random: mask }))
}

/// Reads `body`, to its end, as the body of a report.
fn decode_error_body(body: &[u8]) -> (found: Option<Response>)
    ensures
        found matches Some(r) ==> parse_error_body(body@) == Some(r@),
        found is None ==> parse_error_body(body@) is None,
{
    let (flag, after_flag) = match take_uint_field(TAG_1_VARINT, 1, body) {
        Some(found) => found,
        None => {
            return None;
        },
    };
    let (text, rest) = match take_bytes_field(TAG_2_BYTES, after_flag) {
        Some(found) => found,
        None => {
            return None;
        },
    };
    if rest.len() != 0 {
        return None;
    }
    match string_from_utf8(vstd::slice::slice_to_vec(text)) {
        Ok(error_string) => Some(Response::Error(HorcrustMsgError { error: flag == 1, error_string })),
        Err(_) => None,
    }
}

/// Reads `body`, to its end, as the body of a response that carries a share.
fn decode_share_body(body: &[u8]) -> (found: Option<Response>)
    ensures
        found matches Some(r) ==> parse_share_body(body@) == Some(r@),
        found is None ==> parse_share_body(body@) is None,
{
    let (share, rest) = match take_uint_field(TAG_1_VARINT, u64::MAX, body) {
        Some(found) => found,
        None => {
            return None;
        },
    };
    if rest.len() != 0 {
        return None;
    }
    Some(Response::ShareResponse(ShareResponse { share }))
}

impl HorcrustMsgRequest {
    /// The encoding of the request.
    pub fn encode_to_vec(&self) -> (bytes: Vec<u8>)
        ensures
            bytes@ == request_bytes(self@),
            parse_request(bytes@) == Some(self@),
    {
        let mut bytes: Vec<u8> = Vec::new();
        let mut body: Vec<u8> = Vec::new();
        match &self.request {
            Some(Request::PutShare(put)) => {
                put_uint_field(&mut body, TAG_1_VARINT, put.key as u64);
                put_uint_field(&mut body, TAG_2_VARINT, put.share);
                bytes.push(TAG_1_BYTES);
                put_delimited(&mut bytes, body.as_slice());
            },
            Some(Request::GetShare(get)) => {
                put_uint_field(&mut body, TAG_1_VARINT, get.key as u64);
                bytes.push(TAG_2_BYTES);
                put_delimited(&mut bytes, body.as_slice());
            },
            Some(Request::Refresh(refresh)) => {
                let mut packed: Vec<u8> = Vec::new();
                put_varints(&mut packed, &refresh.key);
                put_bytes_field(&mut body, TAG_1_BYTES, packed.as_slice());
                put_uint_field(&mut body, TAG_2_VARINT, refresh.random);
                bytes.push(TAG_3_BYTES);
                put_delimited(&mut bytes, body.as_slice());
            },
            None => {},
        }
        proof {
            assert(bytes@ =~= request_bytes(self@));
            lemma_parse_request(self@);
        }
        bytes
    }

    /// The request that `bytes` encode, where they encode one.
    pub fn decode(bytes: &[u8]) -> (request: Option<HorcrustMsgRequest>)
        ensures
            request matches Some(r) ==> parse_request(bytes@) == Some(r@) && bytes@
                == request_bytes(r@),
            request is None ==> parse_request(bytes@) is None,
    {
        proof {
            lemma_parse_request_canonical(bytes@);
        }
        if bytes.len() == 0 {
            return Some(HorcrustMsgRequest { request: None });
        }
        let tag = bytes[0];
        let tail = slice_subrange(bytes, 1, bytes.len());
        proof {
            assert(tail@ =~= bytes@.skip(1));
        }
        let (body, rest) = match take_delimited(tail) {
            Some(found) => found,
            None => {
                return None;
            },
        };
        if rest.len() != 0 {
            return None;
        }
        let found = if tag == TAG_1_BYTES {
            decode_put_body(body)
        } else if tag == TAG_2_BYTES {
            decode_get_body(body)
        } else if tag == TAG_3_BYTES {
            decode_refresh_body(body)
        } else {
            None
        };
        match found {
            Some(request) => Some(HorcrustMsgRequest { request: Some(request) }),
            None => None,
        }
    }
}

impl HorcrustMsgResponse {
    /// The encoding of the response.
    pub fn encode_to_vec(&self) -> (bytes: Vec<u8>)
        ensures
            bytes@ == response_bytes(self@),
            parse_response(bytes@) == Some(self@),
    {
        let mut bytes: Vec<u8> = Vec::new();
        let mut body: Vec<u8> = Vec::new();
        match &self.response {
            Some(Response::Error(report)) => {
                put_uint_field(&mut body, TAG_1_VARINT, if report.error { 1 } else { 0 });
                put_bytes_field(&mut body, TAG_2_BYTES, report.error_string.as_str().as_bytes());
                bytes.push(TAG_1_BYTES);
                put_delimited(&mut bytes, body.as_slice());
            },
            Some(Response::ShareResponse(found)) => {
                put_uint_field(&mut body, TAG_1_VARINT, found.share);
                bytes.push(TAG_2_BYTES);
                put_delimited(&mut bytes, body.as_slice());
            },
            None => {},
        }
        proof {
            assert(bytes@ =~= response_bytes(self@));
            lemma_parse_response(self@);
        }
        bytes
    }

    /// The response that `bytes` encode, where they encode one.
    pub fn decode(bytes: &[u8]) -> (response: Option<HorcrustMsgResponse>)
        ensures
            response matches Some(r) ==> parse_response(bytes@) == Some(r@) && bytes@
                == response_bytes(r@),
            response is None ==> parse_response(bytes@) is None,
    {
        proof {
            lemma_parse_response_canonical(bytes@);
        }
        if bytes.len() == 0 {
            return Some(HorcrustMsgResponse { response: None });
        }
        let tag = bytes[0];
        let tail = slice_subrange(bytes, 1, bytes.len());
        proof {
            assert(tail@ =~= bytes@.skip(1));
        }
        let (body, rest) = match take_delimited(tail) {
            Some(found) => found,
            None => {
                return None;
            },
        };
        if rest.len() != 0 {
            return None;
        }
        let found = if tag == TAG_1_BYTES {
            decode_error_body(body)
        } else if tag == TAG_2_BYTES {
            decode_share_body(body)
        } else {
            None
        };
        match found {
            Some(response) => Some(HorcrustMsgResponse { response: Some(response) }),
            None => None,
        }
    }
}

/// `String::from_utf8`: the text that `bytes` encode, where they are valid
/// UTF-8, and an error where they are not.
#[verifier::external_body]
fn string_from_utf8(bytes: Vec<u8>) -> (out: Result<String, std::string::FromUtf8Error>)
    ensures
        out is Ok <==> valid_utf8(bytes@),
        out matches Ok(text) ==> text@ == decode_utf8(bytes@),
{
    String::from_utf8(bytes)
}

} // verus!
