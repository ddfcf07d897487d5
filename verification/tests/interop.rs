//! The bytes of this library against a Protocol Buffers implementation, both
//! ways: what one writes the other reads.

use horcrust::connection::RawMessage;
use horcrust::horcrust_msg_request::Request;
use horcrust::horcrust_msg_response::Response;
use horcrust::{
    msg_error_response, msg_put_share_request, msg_refresh_share_request,
    msg_retrieve_secret_request, msg_share_response, msg_success_response, HorcrustMsgRequest,
    HorcrustMsgResponse,
};
use prost::bytes::{Buf, BufMut};
use prost::encoding::{self, DecodeContext, WireType};
use prost::{DecodeError, Message};

#[derive(Debug, Default, PartialEq)]
struct Envelope {
    nonce: Vec<u8>,
    encrypted_payload: Vec<u8>,
}

impl Message for Envelope {
    fn encode_raw<B>(&self, buf: &mut B)
    where
        B: BufMut,
        Self: Sized,
    {
        if !self.nonce.is_empty() {
            encoding::bytes::encode(1, &self.nonce, buf);
        }
        if !self.encrypted_payload.is_empty() {
            encoding::bytes::encode(2, &self.encrypted_payload, buf);
        }
    }

    fn merge_field<B>(
        &mut self,
        tag: u32,
        wire_type: WireType,
        buf: &mut B,
        ctx: DecodeContext,
    ) -> Result<(), DecodeError>
    where
        B: Buf,
        Self: Sized,
    {
        match tag {
            1 => encoding::bytes::merge(wire_type, &mut self.nonce, buf, ctx),
            2 => encoding::bytes::merge(wire_type, &mut self.encrypted_payload, buf, ctx),
            _ => encoding::skip_field(wire_type, tag, buf, ctx),
        }
    }

    fn encoded_len(&self) -> usize {
        let mut len = 0;
        if !self.nonce.is_empty() {
            len += encoding::bytes::encoded_len(1, &self.nonce);
        }
        if !self.encrypted_payload.is_empty() {
            len += encoding::bytes::encoded_len(2, &self.encrypted_payload);
        }
        len
    }

    fn clear(&mut self) {
        self.nonce.clear();
        self.encrypted_payload.clear();
    }
}

/// A message of up to three nested messages, each kept as the bytes of its body.
#[derive(Debug, Default, PartialEq)]
struct OneOf {
    first: Option<Vec<u8>>,
    second: Option<Vec<u8>>,
    third: Option<Vec<u8>>,
}

impl OneOf {
    fn merge_into<B: Buf>(
        slot: &mut Option<Vec<u8>>,
        wire_type: WireType,
        buf: &mut B,
        ctx: DecodeContext,
    ) -> Result<(), DecodeError> {
        let mut body = Vec::new();
        encoding::bytes::merge(wire_type, &mut body, buf, ctx)?;
        *slot = Some(body);
        Ok(())
    }
}

impl Message for OneOf {
    fn encode_raw<B>(&self, buf: &mut B)
    where
        B: BufMut,
        Self: Sized,
    {
        if let Some(body) = &self.first {
            encoding::bytes::encode(1, body, buf);
        }
        if let Some(body) = &self.second {
            encoding::bytes::encode(2, body, buf);
        }
        if let Some(body) = &self.third {
            encoding::bytes::encode(3, body, buf);
        }
    }

    fn merge_field<B>(
        &mut self,
        tag: u32,
        wire_type: WireType,
        buf: &mut B,
        ctx: DecodeContext,
    ) -> Result<(), DecodeError>
    where
        B: Buf,
        Self: Sized,
    {
        match tag {
            1 => Self::merge_into(&mut self.first, wire_type, buf, ctx),
            2 => Self::merge_into(&mut self.second, wire_type, buf, ctx),
            3 => Self::merge_into(&mut self.third, wire_type, buf, ctx),
            _ => encoding::skip_field(wire_type, tag, buf, ctx),
        }
    }

    fn encoded_len(&self) -> usize {
        let mut len = 0;
        if let Some(body) = &self.first {
            len += encoding::bytes::encoded_len(1, body);
        }
        if let Some(body) = &self.second {
            len += encoding::bytes::encoded_len(2, body);
        }
        if let Some(body) = &self.third {
            len += encoding::bytes::encoded_len(3, body);
        }
        len
    }

    fn clear(&mut self) {
        self.first = None;
        self.second = None;
        self.third = None;
    }
}

/// The bodies of all requests and responses: a run of keys, two numbers, a flag and a text.
#[derive(Debug, Default, PartialEq)]
struct Body {
    keys: Vec<u32>,
    key: u32,
    number: u64,
    flag: bool,
    text: String,
    /// Which fields hold what: for each of the tags 1 and 2, one of `k` (run of
    /// keys), `u` (32-bit number), `n` (64-bit number), `f` (flag), `t` (text).
    layout: [char; 2],
}

impl Body {
    fn with_layout(layout: [char; 2]) -> Self {
        Body { layout, ..Body::default() }
    }
}

impl Message for Body {
    fn encode_raw<B>(&self, buf: &mut B)
    where
        B: BufMut,
        Self: Sized,
    {
        for (i, kind) in self.layout.iter().enumerate() {
            let tag = i as u32 + 1;
            match kind {
                'k' => encoding::uint32::encode_packed(tag, &self.keys, buf),
                'u' if self.key != 0 => encoding::uint32::encode(tag, &self.key, buf),
                'n' if self.number != 0 => encoding::uint64::encode(tag, &self.number, buf),
                'f' if self.flag => encoding::bool::encode(tag, &self.flag, buf),
                't' if !self.text.is_empty() => encoding::string::encode(tag, &self.text, buf),
                _ => {}
            }
        }
    }

    fn merge_field<B>(
        &mut self,
        tag: u32,
        wire_type: WireType,
        buf: &mut B,
        ctx: DecodeContext,
    ) -> Result<(), DecodeError>
    where
        B: Buf,
        Self: Sized,
    {
        if tag == 0 || tag > 2 {
            return encoding::skip_field(wire_type, tag, buf, ctx);
        }
        match self.layout[tag as usize - 1] {
            'k' => encoding::uint32::merge_repeated(wire_type, &mut self.keys, buf, ctx),
            'u' => encoding::uint32::merge(wire_type, &mut self.key, buf, ctx),
            'n' => encoding::uint64::merge(wire_type, &mut self.number, buf, ctx),
            'f' => encoding::bool::merge(wire_type, &mut self.flag, buf, ctx),
            't' => encoding::string::merge(wire_type, &mut self.text, buf, ctx),
            _ => encoding::skip_field(wire_type, tag, buf, ctx),
        }
    }

    fn encoded_len(&self) -> usize {
        let mut out = Vec::new();
        self.encode_raw(&mut out);
        out.len()
    }

    fn clear(&mut self) {
        *self = Body::with_layout(self.layout);
    }
}

fn read_body(layout: [char; 2], bytes: &[u8]) -> Body {
    let mut body = Body::with_layout(layout);
    body.merge(bytes).unwrap();
    body
}

#[test]
fn envelope_is_read_and_written_alike() {
    let cases = vec![
        (vec![], vec![]),
        (vec![1; 12], vec![]),
        (vec![], vec![2; 40]),
        ((1..=12).collect::<Vec<u8>>(), (0..=255).collect::<Vec<u8>>()),
        (vec![0x0a; 12], vec![0x12; 300]),
    ];
    for (nonce, payload) in cases {
        let theirs = Envelope { nonce: nonce.clone(), encrypted_payload: payload.clone() };
        let ours = RawMessage { nonce, encrypted_payload: payload };
        let written = ours.encode();
        assert_eq!(written, theirs.encode_to_vec());
        assert_eq!(Envelope::decode(written.as_slice()).unwrap(), theirs);
        assert_eq!(RawMessage::decode(&theirs.encode_to_vec()), Some(ours));
    }
}

#[test]
fn put_request_is_read_and_written_alike() {
    for (key, share) in [(0u32, 0u64), (123, 321), (0, 7), (9, 0), (u32::MAX, u64::MAX)] {
        let written = msg_put_share_request(key, share).encode_to_vec();
        let outer = OneOf::decode(written.as_slice()).unwrap();
        assert!(outer.second.is_none() && outer.third.is_none());
        let body = read_body(['u', 'n'], &outer.first.clone().unwrap());
        assert_eq!((body.key, body.number), (key, share));

        let theirs = OneOf { first: Some(body.encode_to_vec()), second: None, third: None };
        assert_eq!(theirs.encode_to_vec(), written);
        match HorcrustMsgRequest::decode(&theirs.encode_to_vec()).unwrap().request {
            Some(Request::PutShare(put)) => assert_eq!((put.key, put.share), (key, share)),
            other => panic!("not a put: {:?}", other),
        }
    }
}

#[test]
fn get_request_is_read_and_written_alike() {
    for key in [0u32, 1, 123, u32::MAX] {
        let written = msg_retrieve_secret_request(key).encode_to_vec();
        let outer = OneOf::decode(written.as_slice()).unwrap();
        assert!(outer.first.is_none() && outer.third.is_none());
        let body = read_body(['u', 'n'], &outer.second.clone().unwrap());
        assert_eq!(body.key, key);

        let theirs = OneOf { first: None, second: Some(body.encode_to_vec()), third: None };
        assert_eq!(theirs.encode_to_vec(), written);
        assert_eq!(
            HorcrustMsgRequest::decode(&theirs.encode_to_vec()),
            Some(msg_retrieve_secret_request(key))
        );
    }
}

#[test]
fn refresh_request_is_read_and_written_alike() {
    let cases: Vec<(Vec<u32>, u64)> = vec![
        (vec![], 0),
        (vec![], 5),
        (vec![0], 0),
        (vec![1, 2, 3], 430),
        (vec![0, 127, 128, 300, u32::MAX], u64::MAX),
        ((0..500).collect(), 17),
    ];
    for (keys, mask) in cases {
        let written = msg_refresh_share_request(keys.clone(), mask).encode_to_vec();
        let outer = OneOf::decode(written.as_slice()).unwrap();
        assert!(outer.first.is_none() && outer.second.is_none());
        let body = read_body(['k', 'n'], &outer.third.clone().unwrap());
        assert_eq!((body.keys.clone(), body.number), (keys.clone(), mask));

        let theirs = OneOf { first: None, second: None, third: Some(body.encode_to_vec()) };
        assert_eq!(theirs.encode_to_vec(), written);
        assert_eq!(
            HorcrustMsgRequest::decode(&theirs.encode_to_vec()),
            Some(msg_refresh_share_request(keys, mask))
        );
    }
}

#[test]
fn report_is_read_and_written_alike() {
    let cases = vec![
        msg_success_response(),
        msg_error_response(""),
        msg_error_response("Key not found. Use store-key to store a key first."),
        msg_error_response("grüße, 世界 🦀"),
    ];
    for response in cases {
        let (flag, text) = match &response.response {
            Some(Response::Error(report)) => (report.error, report.error_string.clone()),
            other => panic!("not a report: {:?}", other),
        };
        let written = response.encode_to_vec();
        let outer = OneOf::decode(written.as_slice()).unwrap();
        assert!(outer.second.is_none() && outer.third.is_none());
        let body = read_body(['f', 't'], &outer.first.clone().unwrap());
        assert_eq!((body.flag, body.text.clone()), (flag, text));

        let theirs = OneOf { first: Some(body.encode_to_vec()), second: None, third: None };
        assert_eq!(theirs.encode_to_vec(), written);
        assert_eq!(HorcrustMsgResponse::decode(&theirs.encode_to_vec()), Some(response));
    }
}

#[test]
fn share_response_is_read_and_written_alike() {
    for share in [0u64, 1, 321, 430, u64::MAX] {
        let written = msg_share_response(share).encode_to_vec();
        let outer = OneOf::decode(written.as_slice()).unwrap();
        assert!(outer.first.is_none() && outer.third.is_none());
        let body = read_body(['n', 'u'], &outer.second.clone().unwrap());
        assert_eq!(body.number, share);

        let theirs = OneOf { first: None, second: Some(body.encode_to_vec()), third: None };
        assert_eq!(theirs.encode_to_vec(), written);
        assert_eq!(
            HorcrustMsgResponse::decode(&theirs.encode_to_vec()),
            Some(msg_share_response(share))
        );
    }
}

#[test]
fn empty_messages_are_read_and_written_alike() {
    assert_eq!(OneOf::default().encode_to_vec(), Vec::<u8>::new());
    assert_eq!(HorcrustMsgRequest { request: None }.encode_to_vec(), Vec::<u8>::new());
    assert_eq!(
        OneOf::decode(HorcrustMsgResponse { response: None }.encode_to_vec().as_slice()).unwrap(),
        OneOf::default()
    );
}
