//! Binary framing codec for the speech-recognition wire protocol.
//!
//! Every frame starts with a 4-byte header; full server responses and error
//! responses carry an 8-byte pre-payload region (a reserved word and a
//! big-endian 32-bit length) before the payload bytes.

use vstd::prelude::*;
use vstd::utf8::{decode_utf8, encode_utf8, valid_utf8};
use crate::text::{utf8_lossy, utf8_lossy_of};

verus! {

pub const PROTO_VERSION: u8 = 0b0001;
pub const HEADER_SIZE_4B: u8 = 0b0001;
pub const MSG_FULL_CLIENT_REQUEST: u8 = 0b0001;
pub const MSG_AUDIO_ONLY_REQUEST: u8 = 0b0010;
pub const MSG_FULL_SERVER_RESPONSE: u8 = 0b1001;
pub const MSG_ERROR_RESPONSE: u8 = 0b1111;
pub const FLAG_NO_SEQUENCE: u8 = 0b0000;
pub const FLAG_LAST_NO_SEQUENCE: u8 = 0b0010;
pub const SERIALIZATION_JSON: u8 = 0b0001;
pub const SERIALIZATION_NONE: u8 = 0b0000;
pub const COMPRESSION_NONE: u8 = 0b0000;

/// The server's final-response sentinel: a response frame with these flags
/// ends the session.
pub const FLAGS_FINAL_RESPONSE: u8 = 0b0011;

/// The four header bytes of an outgoing frame.
pub open spec fn spec_header(message_type: u8, flags: u8, serialization: u8, compression: u8) -> Seq<u8> {
    seq![
        ((PROTO_VERSION & 0xF) << 4) | (HEADER_SIZE_4B & 0xF),
        ((message_type & 0xF) << 4) | (flags & 0xF),
        ((serialization & 0xF) << 4) | (compression & 0xF),
        0u8,
    ]
}

/// A 32-bit value read big-endian from four bytes.
pub open spec fn be32(b0: u8, b1: u8, b2: u8, b3: u8) -> u32 {
    ((b0 as u32) << 24) | ((b1 as u32) << 16) | ((b2 as u32) << 8) | (b3 as u32)
}

/// The four big-endian bytes of `n` truncated to 32 bits.
pub open spec fn spec_u32be(n: int) -> Seq<u8> {
    let m = n % 0x1_0000_0000;
    seq![
        (m / 0x100_0000) as u8,
        ((m / 0x1_0000) % 0x100) as u8,
        ((m / 0x100) % 0x100) as u8,
        (m % 0x100) as u8,
    ]
}

pub fn build_header(message_type: u8, flags: u8, serialization: u8, compression: u8) -> (r: [u8; 4])
    ensures
        r@ == spec_header(message_type, flags, serialization, compression),
{
    let b0: u8 = ((PROTO_VERSION & 0xF) << 4) | (HEADER_SIZE_4B & 0xF);
    let b1: u8 = ((message_type & 0xF) << 4) | (flags & 0xF);
    let b2: u8 = ((serialization & 0xF) << 4) | (compression & 0xF);
    let r: [u8; 4] = [b0, b1, b2, 0x00];
    assert(r@ =~= spec_header(message_type, flags, serialization, compression));
    r
}

pub fn u32be(n: usize) -> (r: [u8; 4])
    ensures
        r@ == spec_u32be(n as int),
{
    let m: u32 = #[verifier::truncate] (n as u32);
    let b0: u8 = (m >> 24) as u8;
    let b1: u8 = ((m >> 16) & 0xFF) as u8;
    let b2: u8 = ((m >> 8) & 0xFF) as u8;
    let b3: u8 = (m & 0xFF) as u8;
    proof {
        assert(m == n as int % 0x1_0000_0000) by (bit_vector)
            requires m == n as u32;
        assert((m >> 24) < 0x100 && (m >> 24) == (m as int) / 0x100_0000) by (bit_vector);
        assert(((m >> 16) & 0xFF) == ((m as int) / 0x1_0000) % 0x100) by (bit_vector);
        assert(((m >> 8) & 0xFF) == ((m as int) / 0x100) % 0x100) by (bit_vector);
        assert((m & 0xFF) == (m as int) % 0x100) by (bit_vector);
    }
    let r: [u8; 4] = [b0, b1, b2, b3];
    assert(r@ =~= spec_u32be(n as int));
    r
}

/// The encoded form of a full client request carrying `payload` bytes:
/// header, big-endian length, payload.
pub open spec fn spec_full_client_request(payload: Seq<u8>) -> Seq<u8> {
    spec_header(MSG_FULL_CLIENT_REQUEST, FLAG_NO_SEQUENCE, SERIALIZATION_JSON, COMPRESSION_NONE)
        + spec_u32be(payload.len() as int) + payload
}

/// The encoded form of an audio-only request.
pub open spec fn spec_audio_only_request(payload: Seq<u8>, last: bool) -> Seq<u8> {
    spec_header(
        MSG_AUDIO_ONLY_REQUEST,
        if last { FLAG_LAST_NO_SEQUENCE } else { FLAG_NO_SEQUENCE },
        SERIALIZATION_NONE,
        COMPRESSION_NONE,
    ) + spec_u32be(payload.len() as int) + payload
}

pub fn build_full_client_request(payload_json_text: &str) -> (r: Vec<u8>)
    ensures
        r@ == spec_full_client_request(encode_utf8(payload_json_text@)),
        r@.len() == 8 + encode_utf8(payload_json_text@).len(),
{
    let payload: &[u8] = payload_json_text.as_bytes();
    let mut out: Vec<u8> = Vec::new();
    let header: [u8; 4] = build_header(
        MSG_FULL_CLIENT_REQUEST,
        FLAG_NO_SEQUENCE,
        SERIALIZATION_JSON,
        COMPRESSION_NONE,
    );
    out.extend_from_slice(header.as_slice());
    let len_bytes: [u8; 4] = u32be(payload.len());
    out.extend_from_slice(len_bytes.as_slice());
    out.extend_from_slice(payload);
    assert(out@ =~= spec_full_client_request(payload@));
    out
}

pub fn build_audio_only_request(pcm_bytes: &[u8], last: bool) -> (r: Vec<u8>)
    ensures
        r@ == spec_audio_only_request(pcm_bytes@, last),
        r@.len() == 8 + pcm_bytes@.len(),
{
    let mut out: Vec<u8> = Vec::new();
    let header: [u8; 4] = build_header(
        MSG_AUDIO_ONLY_REQUEST,
        if last { FLAG_LAST_NO_SEQUENCE } else { FLAG_NO_SEQUENCE },
        SERIALIZATION_NONE,
        COMPRESSION_NONE,
    );
    out.extend_from_slice(header.as_slice());
    let len_bytes: [u8; 4] = u32be(pcm_bytes.len());
    out.extend_from_slice(len_bytes.as_slice());
    out.extend_from_slice(pcm_bytes);
    assert(out@ =~= spec_audio_only_request(pcm_bytes@, last));
    out
}

/// What an incoming frame means, at byte level.
pub enum ServerFrame {
    Unknown { flags: u8 },
    Response { flags: u8, payload: Seq<u8> },
    Error { flags: u8, code: u32, message: Seq<u8> },
}

/// The decoder, as a function of the raw bytes.  Malformed or truncated input
/// means `Unknown`; the decoder never rejects a frame outright.
pub open spec fn parse_frame(data: Seq<u8>) -> ServerFrame {
    if data.len() < 4 {
        ServerFrame::Unknown { flags: 0 }
    } else if (data[0] >> 4) & 0xF != PROTO_VERSION || data[0] & 0xF != HEADER_SIZE_4B {
        ServerFrame::Unknown { flags: 0 }
    } else {
        let message_type = (data[1] >> 4) & 0xF;
        let flags = data[1] & 0xF;
        if message_type == MSG_FULL_SERVER_RESPONSE {
            if data.len() < 12 {
                ServerFrame::Unknown { flags }
            } else {
                let payload_size = be32(data[8], data[9], data[10], data[11]) as int;
                if data.len() < 12 + payload_size {
                    ServerFrame::Unknown { flags }
                } else {
                    ServerFrame::Response { flags, payload: data.subrange(12, 12 + payload_size) }
                }
            }
        } else if message_type == MSG_ERROR_RESPONSE {
            if data.len() < 12 {
                ServerFrame::Unknown { flags }
            } else {
                let msg_size = be32(data[8], data[9], data[10], data[11]) as int;
                if data.len() < 12 + msg_size {
                    ServerFrame::Unknown { flags }
                } else {
                    ServerFrame::Error {
                        flags,
                        code: be32(data[4], data[5], data[6], data[7]),
                        message: data.subrange(12, 12 + msg_size),
                    }
                }
            }
        } else {
            ServerFrame::Unknown { flags }
        }
    }
}

#[derive(Debug)]
pub struct ParsedServerMessage {
    pub kind: &'static str,
    pub flags: u8,
    pub json_text: Option<String>,
    pub _error_code: Option<u32>,
    pub error_msg: Option<String>,
}

impl ParsedServerMessage {
    /// The parsed message agrees with what the raw bytes say.
    pub open spec fn matches(self, frame: ServerFrame) -> bool {
        match frame {
            ServerFrame::Unknown { flags } => {
                &&& self.kind@ == "unknown"@
                &&& self.flags == flags
                &&& self.json_text is None
                &&& self._error_code is None
                &&& self.error_msg is None
            },
            ServerFrame::Response { flags, payload } => {
                &&& self.kind@ == "response"@
                &&& self.flags == flags
                &&& self.json_text matches Some(t) && t@ == utf8_lossy_of(payload)
                    && (valid_utf8(payload) ==> t@ == decode_utf8(payload))
                &&& self._error_code is None
                &&& self.error_msg is None
            },
            ServerFrame::Error { flags, code, message } => {
                &&& self.kind@ == "error"@
                &&& self.flags == flags
                &&& self.json_text is None
                &&& self._error_code == Some(code)
                &&& self.error_msg matches Some(m) && m@ == utf8_lossy_of(message)
                    && (valid_utf8(message) ==> m@ == decode_utf8(message))
            },
        }
    }
}

/// Copies `data[start..end]` into a fresh vector.
fn copy_range(data: &[u8], start: usize, end: usize) -> (r: Vec<u8>)
    requires
        start <= end <= data@.len(),
    ensures
        r@ == data@.subrange(start as int, end as int),
{
    let mut out: Vec<u8> = Vec::new();
    let mut i: usize = start;
    while i < end
        invariant
            start <= i <= end <= data@.len(),
            out@ == data@.subrange(start as int, i as int),
        decreases end - i,
    {
        out.push(data[i]);
        assert(out@ =~= data@.subrange(start as int, (i + 1) as int));
        i = i + 1;
    }
    out
}

fn be32_at(data: &[u8], at: usize) -> (r: u32)
    requires
        at + 4 <= data@.len(),
    ensures
        r == be32(data@[at as int], data@[at as int + 1], data@[at as int + 2], data@[at as int + 3]),
{
    ((data[at] as u32) << 24) | ((data[at + 1] as u32) << 16) | ((data[at + 2] as u32) << 8)
        | (data[at + 3] as u32)
}

pub fn parse_server_message(data: &[u8]) -> (r: ParsedServerMessage)
    ensures
        r.matches(parse_frame(data@)),
{
    if data.len() < 4 {
        return ParsedServerMessage {
            kind: "unknown",
            flags: 0,
            json_text: None,
            _error_code: None,
            error_msg: None,
        };
    }

    let b0: u8 = data[0];
    let b1: u8 = data[1];
    let version: u8 = (b0 >> 4) & 0xF;
    let header_size_4: u8 = b0 & 0xF;
    if version != PROTO_VERSION || header_size_4 != HEADER_SIZE_4B {
        return ParsedServerMessage {
            kind: "unknown",
            flags: 0,
            json_text: None,
            _error_code: None,
            error_msg: None,
        };
    }

    let message_type: u8 = (b1 >> 4) & 0xF;
    let flags: u8 = b1 & 0xF;

    if message_type == MSG_FULL_SERVER_RESPONSE {
        if data.len() < 12 {
            return ParsedServerMessage {
                kind: "unknown",
                flags,
                json_text: None,
                _error_code: None,
                error_msg: None,
            };
        }
        let payload_size: usize = be32_at(data, 8) as usize;
        if data.len() - 12 < payload_size {
            return ParsedServerMessage {
                kind: "unknown",
                flags,
                json_text: None,
                _error_code: None,
                error_msg: None,
            };
        }
        let payload: Vec<u8> = copy_range(data, 12, 12 + payload_size);
        let json_text: String = utf8_lossy(payload.as_slice());
        return ParsedServerMessage {
            kind: "response",
            flags,
            json_text: Some(json_text),
            _error_code: None,
            error_msg: None,
        };
    }

    if message_type == MSG_ERROR_RESPONSE {
        if data.len() < 12 {
            return ParsedServerMessage {
                kind: "unknown",
                flags,
                json_text: None,
                _error_code: None,
                error_msg: None,
            };
        }
        let code: u32 = be32_at(data, 4);
        let msg_size: usize = be32_at(data, 8) as usize;
        if data.len() - 12 < msg_size {
            return ParsedServerMessage {
                kind: "unknown",
                flags,
                json_text: None,
                _error_code: None,
                error_msg: None,
            };
        }
        let message: Vec<u8> = copy_range(data, 12, 12 + msg_size);
        let msg: String = utf8_lossy(message.as_slice());
        return ParsedServerMessage {
            kind: "error",
            flags,
            json_text: None,
            _error_code: Some(code),
            error_msg: Some(msg),
        };
    }

    ParsedServerMessage {
        kind: "unknown",
        flags,
        json_text: None,
        _error_code: None,
        error_msg: None,
    }
}

/// A server-response frame around `payload`, shaped as the server sends it:
/// header, a 4-byte reserved word, the payload length, the payload.
pub open spec fn spec_server_response(flags: u8, payload: Seq<u8>) -> Seq<u8> {
    seq![
        ((PROTO_VERSION & 0xF) << 4) | (HEADER_SIZE_4B & 0xF),
        ((MSG_FULL_SERVER_RESPONSE & 0xF) << 4) | (flags & 0xF),
        ((SERIALIZATION_JSON & 0xF) << 4) | (COMPRESSION_NONE & 0xF),
        0u8, 0u8, 0u8, 0u8, 0u8,
    ] + spec_u32be(payload.len() as int) + payload
}

/// Round trip: a well-shaped server response decodes back to its own payload,
/// and — because valid UTF-8 survives the lossy decode — the parsed text of a
/// frame built around `encode_utf8(s)` is `s` itself.
pub proof fn lemma_server_response_round_trip(flags: u8, payload: Seq<u8>)
    requires
        flags < 0x10,
        payload.len() < 0x1_0000_0000,
    ensures
        parse_frame(spec_server_response(flags, payload))
            == (ServerFrame::Response { flags, payload }),
{
    let data = spec_server_response(flags, payload);
    assert(data.len() == 12 + payload.len());
    let b0: u8 = ((PROTO_VERSION & 0xF) << 4) | (HEADER_SIZE_4B & 0xF);
    let b1: u8 = ((MSG_FULL_SERVER_RESPONSE & 0xF) << 4) | (flags & 0xF);
    assert(data[0] == b0 && data[1] == b1);
    assert((b0 >> 4) & 0xF == 1 && b0 & 0xF == 1) by (bit_vector)
        requires b0 == ((1u8 & 0xF) << 4) | (1u8 & 0xF);
    assert((b1 >> 4) & 0xF == 9 && b1 & 0xF == flags) by (bit_vector)
        requires flags < 0x10, b1 == ((9u8 & 0xF) << 4) | (flags & 0xF);
    let n = payload.len() as int;
    lemma_be32_of_u32be(n);
    assert(be32(data[8], data[9], data[10], data[11]) as int == n);
    assert(parse_frame(data) matches ServerFrame::Response { flags: f2, payload: p2 }
        && f2 == flags && p2 == payload) by {
        assert(data.subrange(12, 12 + n) =~= payload);
    }
}

/// Reading back the four big-endian bytes of `n` gives `n` modulo 2^32.
pub proof fn lemma_be32_of_u32be(n: int)
    requires
        0 <= n,
    ensures
        be32(spec_u32be(n)[0], spec_u32be(n)[1], spec_u32be(n)[2], spec_u32be(n)[3]) as int
            == n % 0x1_0000_0000,
{
    let m = n % 0x1_0000_0000;
    let b0 = (m / 0x100_0000) as u8;
    let b1 = ((m / 0x1_0000) % 0x100) as u8;
    let b2 = ((m / 0x100) % 0x100) as u8;
    let b3 = (m % 0x100) as u8;
    assert(m / 0x100_0000 < 0x100);
    let mm = m as u32;
    assert(b0 == mm / 0x100_0000 && b1 == (mm / 0x1_0000) % 0x100 && b2 == (mm / 0x100) % 0x100
        && b3 == mm % 0x100);
    assert(((b0 as u32) << 24) | ((b1 as u32) << 16) | ((b2 as u32) << 8) | (b3 as u32) == mm)
        by (bit_vector)
        requires
            b0 == mm / 0x100_0000,
            b1 == (mm / 0x1_0000) % 0x100,
            b2 == (mm / 0x100) % 0x100,
            b3 == mm % 0x100,
    ;
}

/// Any input shorter than 4 bytes, or whose version or header-size nibble is
/// not 1, decodes to `Unknown`.
pub proof fn lemma_malformed_header_unknown(data: Seq<u8>)
    requires
        data.len() < 4 || (data[0] >> 4) & 0xF != PROTO_VERSION || data[0] & 0xF != HEADER_SIZE_4B,
    ensures
        parse_frame(data) matches ServerFrame::Unknown { flags: f } && f == 0,
{
}

} // verus!
