//! Packets as the proxy sees them: the handshake that opens every
//! connection, and the frames in which the proxy answers on its own.
//!
//! A packet on the wire is the size of its body as a variable-length
//! integer, followed by the body. The body starts with the packet id.

use crate::error::ProxyError;
use crate::text::chars_of;
use crate::varint::{
    lemma_decoding_bounds, lemma_var_int_round_trip, read_var_int, var_int_decoding,
    var_int_encoding, write_var_int,
};
use vstd::prelude::*;
use vstd::slice::{slice_subrange, slice_to_vec};
use vstd::string::*;
use vstd::utf8::*;

verus! {

/// The most code units the server address of a handshake may have.
pub const MAX_ADDRESS_UNITS: usize = 255;

/// What the client wants after the handshake.
#[derive(Clone, Copy, Debug, PartialEq, Eq, Structural)]
pub enum NextState {
    /// The server-list ping.
    Status,
    /// A play session. A transfer counts as a login.
    Login,
}

/// What a handshake holds, as mathematical values.
pub struct HandshakeModel {
    pub protocol_version: i32,
    pub server_address: Seq<char>,
    pub server_port: u16,
    pub next_state: NextState,
    pub raw_body: Seq<u8>,
}

/// The number of UTF-16 code units that `text` takes, which is how the
/// protocol measures strings.
pub open spec fn utf16_len(text: Seq<char>) -> nat
    decreases text.len(),
{
    if text.len() == 0 {
        0
    } else {
        utf16_len(text.drop_last()) + if text.last() as u32 >= 0x1_0000 {
            2nat
        } else {
            1nat
        }
    }
}

/// The variable-length integer that starts at index `at` of `body`, and the
/// index behind it.
pub open spec fn var_int_at(body: Seq<u8>, at: int) -> Option<(i32, int)> {
    if 0 <= at <= body.len() {
        match var_int_decoding(body.skip(at)) {
            Some((value, used)) => Some((value, at + used)),
            None => None,
        }
    } else {
        None
    }
}

/// The server address that starts at index `at` of `body`, and the index
/// behind it: a length in bytes, then that many bytes of UTF-8 which decode
/// to at most 255 code units.
pub open spec fn address_at(body: Seq<u8>, at: int) -> Option<(Seq<char>, int)> {
    match var_int_at(body, at) {
        Some((len, start)) => {
            let bytes = body.subrange(start, start + len);
            if 0 <= len && start + len <= body.len() && valid_utf8(bytes) && utf16_len(
                decode_utf8(bytes),
            ) <= 255 {
                Some((decode_utf8(bytes), start + len))
            } else {
                None
            }
        },
        None => None,
    }
}

/// The port at index `at` of `body`, high byte first, and the index behind
/// it.
pub open spec fn port_at(body: Seq<u8>, at: int) -> Option<(u16, int)> {
    if 0 <= at && at + 2 <= body.len() {
        Some(((body[at] * 256 + body[at + 1]) as u16, at + 2))
    } else {
        None
    }
}

/// The state that a code stands for.
pub open spec fn next_state_of(code: i32) -> Option<NextState> {
    if code == 1 {
        Some(NextState::Status)
    } else if code == 2 || code == 3 {
        Some(NextState::Login)
    } else {
        None
    }
}

/// The handshake that `body` holds: packet id zero, protocol version,
/// server address, port and next state, in this order.
pub open spec fn parse_body(body: Seq<u8>) -> Option<HandshakeModel> {
    if body.len() > i32::MAX {
        None
    } else {
        match var_int_at(body, 0) {
            Some((id, a)) => match var_int_at(body, a) {
                Some((protocol_version, b)) => match address_at(body, b) {
                    Some((server_address, c)) => match port_at(body, c) {
                        Some((server_port, d)) => match var_int_at(body, d) {
                            Some((code, _)) => match next_state_of(code) {
                                Some(next_state) => if id == 0 {
                                    Some(
                                        HandshakeModel {
                                            protocol_version,
                                            server_address,
                                            server_port,
                                            next_state,
                                            raw_body: body,
                                        },
                                    )
                                } else {
                                    None
                                },
                                None => None,
                            },
                            None => None,
                        },
                        None => None,
                    },
                    None => None,
                },
                None => None,
            },
            None => None,
        }
    }
}

/// The handshake packet at the front of `bytes` and the number of bytes it
/// takes: the size of the body, then the body.
pub open spec fn parse_packet(bytes: Seq<u8>) -> Option<(HandshakeModel, nat)> {
    match var_int_decoding(bytes) {
        Some((size, used)) => if 0 < size && used + size <= bytes.len() {
            match parse_body(bytes.subrange(used as int, used + size)) {
                Some(handshake) => Some((handshake, (used + size) as nat)),
                None => None,
            }
        } else {
            None
        },
        None => None,
    }
}

/// A body behind its size.
pub open spec fn framed(body: Seq<u8>) -> Seq<u8> {
    var_int_encoding(body.len() as i32) + body
}

/// The body of a packet with id zero that holds one string: the id, the
/// length of the string in bytes, the string as UTF-8.
pub open spec fn string_body(text: Seq<char>) -> Seq<u8> {
    var_int_encoding(0) + var_int_encoding(encode_utf8(text).len() as i32) + encode_utf8(text)
}

/// The packet with id zero that holds `text`.
pub open spec fn string_packet_bytes(text: Seq<char>) -> Seq<u8> {
    framed(string_body(text))
}

/// The size at the front of `bytes` stands in its shortest form.
pub open spec fn has_shortest_size(bytes: Seq<u8>) -> bool {
    match var_int_decoding(bytes) {
        Some((size, used)) => bytes.take(used as int) == var_int_encoding(size),
        None => false,
    }
}

/// A handshake that was read from a packet whose size stood in its
/// shortest form is written back byte for byte.
pub proof fn lemma_handshake_round_trip(bytes: Seq<u8>)
    requires
        parse_packet(bytes) is Some,
        has_shortest_size(bytes),
    ensures
        match parse_packet(bytes) {
            Some((handshake, used)) => framed(handshake.raw_body) == bytes.take(used as int),
            None => false,
        },
{
    match var_int_decoding(bytes) {
        Some((size, used)) => {
            let body = bytes.subrange(used as int, used + size);
            assert(body.len() as i32 == size);
            assert(bytes.take(used as int) + body =~= bytes.take(used + size));
        },
        None => {},
    }
}

/// `String::from_utf8` of the standard library: it accepts exactly the
/// byte sequences that are well-formed UTF-8 and gives the string that they
/// encode.
#[verifier::external_body]
fn string_from_utf8(bytes: Vec<u8>) -> (text: Option<String>)
    ensures
        text is Some <==> valid_utf8(bytes@),
        text matches Some(s) ==> s@ == decode_utf8(bytes@),
{
    String::from_utf8(bytes).ok()
}

/// Whether `text` takes at most `limit` UTF-16 code units.
pub fn within_units(text: &str, limit: usize) -> (yes: bool)
    ensures
        yes == (utf16_len(text@) <= limit),
{
    let chars = chars_of(text);
    let mut units: usize = 0;
    let mut i: usize = 0;
    assert(chars@.take(0) =~= Seq::<char>::empty());
    while i < chars.len()
        invariant
            i <= chars.len(),
            chars@ == text@,
            units == utf16_len(chars@.take(i as int)),
            units <= limit,
        decreases chars.len() - i,
    {
        let width: usize = if chars[i] as u32 >= 0x1_0000 {
            2
        } else {
            1
        };
        proof {
            assert(chars@.take(i + 1).drop_last() =~= chars@.take(i as int));
            lemma_utf16_len_grows(chars@, i + 1);
        }
        if width > limit - units {
            return false;
        }
        units = units + width;
        i = i + 1;
    }
    assert(chars@.take(chars.len() as int) =~= chars@);
    true
}

/// A longer front of a string takes no fewer code units.
proof fn lemma_utf16_len_grows(text: Seq<char>, n: int)
    requires
        0 <= n <= text.len(),
    ensures
        utf16_len(text.take(n)) <= utf16_len(text),
    decreases text.len() - n,
{
    if n < text.len() {
        assert(text.take(n + 1).drop_last() =~= text.take(n));
        lemma_utf16_len_grows(text, n + 1);
    } else {
        assert(text.take(n) =~= text);
    }
}

/// Appends `bytes` to `buf`.
fn append_bytes(buf: &mut Vec<u8>, bytes: &[u8])
    ensures
        final(buf)@ == old(buf)@ + bytes@,
{
    let mut i: usize = 0;
    while i < bytes.len()
        invariant
            i <= bytes.len(),
            buf@ == old(buf)@ + bytes@.take(i as int),
        decreases bytes.len() - i,
    {
        buf.push(bytes[i]);
        i = i + 1;
        assert(bytes@.take(i as int) =~= bytes@.take(i - 1).push(bytes@[i - 1]));
    }
    assert(bytes@.take(i as int) =~= bytes@);
}

fn read_var_int_at(body: &[u8], at: usize) -> (res: Option<(i32, usize)>)
    requires
        at <= body.len(),
    ensures
        match res {
            Some((value, next)) => var_int_at(body@, at as int) == Some((value, next as int))
                && at < next <= body.len(),
            None => var_int_at(body@, at as int) is None,
        },
{
    let rest = slice_subrange(body, at, body.len());
    assert(rest@ =~= body@.skip(at as int));
    proof {
        lemma_decoding_bounds(rest@);
    }
    match read_var_int(rest) {
        Ok((value, used)) => Some((value, at + used)),
        Err(_) => None,
    }
}

fn read_address_at(body: &[u8], at: usize) -> (res: Option<(String, usize)>)
    requires
        at <= body.len(),
    ensures
        match res {
            Some((text, next)) => address_at(body@, at as int) == Some((text@, next as int))
                && at < next <= body.len(),
            None => address_at(body@, at as int) is None,
        },
{
    let (len, start) = match read_var_int_at(body, at) {
        Some(found) => found,
        None => {
            return None;
        },
    };
    if len < 0 {
        return None;
    }
    let len = len as usize;
    if len > body.len() - start {
        return None;
    }
    let bytes = slice_to_vec(slice_subrange(body, start, start + len));
    let text = match string_from_utf8(bytes) {
        Some(text) => text,
        None => {
            return None;
        },
    };
    if !within_units(text.as_str(), MAX_ADDRESS_UNITS) {
        return None;
    }
    Some((text, start + len))
}

/// The first packet of a connection.
#[derive(Debug)]
pub struct HandshakeRequest {
    protocol_version: i32,
    server_address: String,
    server_port: u16,
    next_state: NextState,
    raw_body: Vec<u8>,
}

impl View for HandshakeRequest {
    type V = HandshakeModel;

    closed spec fn view(&self) -> HandshakeModel {
        HandshakeModel {
            protocol_version: self.protocol_version,
            server_address: self.server_address@,
            server_port: self.server_port,
            next_state: self.next_state,
            raw_body: self.raw_body@,
        }
    }
}

impl HandshakeRequest {
    #[verifier::type_invariant]
    spec fn consistent(&self) -> bool {
        parse_body(self.raw_body@) == Some(self@)
    }

    /// Reads the handshake that `body` holds. `body` is the whole body of
    /// the packet and is kept as it is.
    pub fn from_body(body: Vec<u8>) -> (res: Result<HandshakeRequest, ProxyError>)
        ensures
            match res {
                Ok(handshake) => parse_body(body@) == Some(handshake@),
                Err(e) => e == ProxyError::Malformed && parse_body(body@) is None,
            },
    {
        if body.len() > i32::MAX as usize {
            return Err(ProxyError::Malformed);
        }
        let bytes = body.as_slice();
        let (id, a) = match read_var_int_at(bytes, 0) {
            Some(found) => found,
            None => {
                return Err(ProxyError::Malformed);
            },
        };
        let (protocol_version, b) = match read_var_int_at(bytes, a) {
            Some(found) => found,
            None => {
                return Err(ProxyError::Malformed);
            },
        };
        let (server_address, c) = match read_address_at(bytes, b) {
            Some(found) => found,
            None => {
                return Err(ProxyError::Malformed);
            },
        };
        if bytes.len() - c < 2 {
            return Err(ProxyError::Malformed);
        }
        let server_port: u16 = (bytes[c] as u16) * 256 + (bytes[c + 1] as u16);
        let (code, _) = match read_var_int_at(bytes, c + 2) {
            Some(found) => found,
            None => {
                return Err(ProxyError::Malformed);
            },
        };
        let next_state = if code == 1 {
            NextState::Status
        } else if code == 2 || code == 3 {
            NextState::Login
        } else {
            return Err(ProxyError::Malformed);
        };
        if id != 0 {
            return Err(ProxyError::Malformed);
        }
        Ok(HandshakeRequest { protocol_version, server_address, server_port, next_state, raw_body: body })
    }

    /// Reads the handshake packet at the front of `bytes` and says how many
    /// bytes it takes. Nothing behind the packet is looked at. Where the
    /// size stood in its shortest form, writing the handshake back gives the
    /// bytes that were read.
    pub fn read(bytes: &[u8]) -> (res: Result<(HandshakeRequest, usize), ProxyError>)
        ensures
            match res {
                Ok((handshake, used)) => parse_packet(bytes@) == Some((handshake@, used as nat))
                    && used <= bytes.len() && (has_shortest_size(bytes@) ==> framed(
                    handshake@.raw_body,
                ) == bytes@.take(used as int)),
                Err(e) => e == ProxyError::Malformed && parse_packet(bytes@) is None,
            },
    {
        proof {
            lemma_decoding_bounds(bytes@);
            if parse_packet(bytes@) is Some && has_shortest_size(bytes@) {
                lemma_handshake_round_trip(bytes@);
            }
        }
        let (size, used) = match read_var_int(bytes) {
            Ok(found) => found,
            Err(e) => {
                return Err(e);
            },
        };
        if size <= 0 {
            return Err(ProxyError::Malformed);
        }
        let size = size as usize;
        if size > bytes.len() - used {
            return Err(ProxyError::Malformed);
        }
        let body = slice_to_vec(slice_subrange(bytes, used, used + size));
        match HandshakeRequest::from_body(body) {
            Ok(handshake) => Ok((handshake, used + size)),
            Err(e) => Err(e),
        }
    }

    /// The protocol version that the client speaks.
    pub fn get_protocol_version(&self) -> (version: i32)
        ensures
            version == self@.protocol_version,
    {
        self.protocol_version
    }

    /// The server address as the client sent it.
    pub fn get_server_address(&self) -> (address: &str)
        ensures
            address@ == self@.server_address,
            utf16_len(address@) <= 255,
    {
        proof {
            use_type_invariant(self);
        }
        self.server_address.as_str()
    }

    /// The port that the client asked for.
    pub fn get_server_port(&self) -> (port: u16)
        ensures
            port == self@.server_port,
    {
        self.server_port
    }

    /// What the client wants next.
    pub fn get_next_state(&self) -> (state: &NextState)
        ensures
            *state == self@.next_state,
    {
        &self.next_state
    }

    /// The bytes of the packet body as they were received.
    pub fn get_raw_body(&self) -> (body: &[u8])
        ensures
            body@ == self@.raw_body,
            parse_body(body@) == Some(self@),
    {
        proof {
            use_type_invariant(self);
        }
        self.raw_body.as_slice()
    }

    /// The size of the packet body.
    pub fn get_size(&self) -> (size: i32)
        ensures
            size == self@.raw_body.len(),
            size > 0,
    {
        proof {
            use_type_invariant(self);
            lemma_decoding_bounds(self.raw_body@.skip(0));
        }
        self.raw_body.len() as i32
    }

    /// The packet as the backend is to see it: the size of the body, then
    /// the body as it was received.
    pub fn reframe(&self) -> (bytes: Vec<u8>)
        ensures
            bytes@ == framed(self@.raw_body),
    {
        let mut bytes: Vec<u8> = Vec::new();
        write_var_int(&mut bytes, self.get_size());
        append_bytes(&mut bytes, self.raw_body.as_slice());
        bytes
    }
}

/// The packet with id zero that holds `text`, or nothing where the packet
/// would be too large for its size to be written.
pub fn string_packet(text: &str) -> (packet: Option<Vec<u8>>)
    ensures
        match packet {
            Some(bytes) => bytes@ == string_packet_bytes(text@) && string_body(text@).len()
                <= i32::MAX,
            None => string_body(text@).len() > i32::MAX,
        },
{
    let content = text.as_bytes();
    proof {
        lemma_var_int_round_trip(0, Seq::empty());
    }
    if content.len() > i32::MAX as usize {
        return None;
    }
    let mut body: Vec<u8> = Vec::new();
    write_var_int(&mut body, 0);
    write_var_int(&mut body, content.len() as i32);
    append_bytes(&mut body, content);
    if body.len() > i32::MAX as usize {
        return None;
    }
    let mut packet: Vec<u8> = Vec::new();
    write_var_int(&mut packet, body.len() as i32);
    append_bytes(&mut packet, body.as_slice());
    Some(packet)
}

} // verus!
