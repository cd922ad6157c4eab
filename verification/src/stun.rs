//! STUN binding requests and responses (RFC 5389).
use vstd::prelude::*;
use crate::bytes::{
    be16_at, be16_bytes, be32_at, be32_bytes, lemma_be16_roundtrip, lemma_be32_roundtrip, push_be16, push_be32,
    read_be16, read_be32, steps_left,
};
use crate::net::SocketAddress;
use vstd::string::StringSliceAdditionalSpecFns;
use crate::primitives::{
    crc32, crc32_hash, hmac_sha1, hmac_sha1_tag, hmac_sha1_verify, first_bytes, utf8_lossy,
    utf8_lossy_string, HMAC_SHA1_LEN,
};

verus! {

pub const MAGIC_COOKIE: u32 = 0x2112_a442;
pub const FINGERPRINT_XOR: u32 = 0x5354_554e;

pub const BINDING_REQUEST_MESSAGE: u16 = 0x0001;
pub const BINDING_RESPONSE_MESSAGE: u16 = 0x0101;

pub const USERNAME_ATTRIBUTE: u16 = 0x0006;
pub const MESSAGE_INTEGRITY_ATTRIBUTE: u16 = 0x0008;
pub const XOR_MAPPED_ADDRESS_ATTRIBUTE: u16 = 0x0020;
pub const FINGERPRINT_ATTRIBUTE: u16 = 0x8028;

/// Length of the STUN header.
pub const HEADER_LEN: usize = 20;
/// Length of the MESSAGE-INTEGRITY attribute, header included.
pub const MESSAGE_INTEGRITY_LEN: usize = 24;
/// Length of the FINGERPRINT attribute, header included.
pub const FINGERPRINT_LEN: usize = 8;

pub enum MessageType {
    BindingRequest,
    BindingResponse,
    Unknown,
}

enum Attribute {
    Username(String),
    MessageIntegrity(Vec<u8>),
}

/// `l` rounded up to a multiple of four.
pub open spec fn round_up4(l: int) -> int {
    (l + 3) / 4 * 4
}

/// The text of a USERNAME value: its UTF-8 decoding when the bytes are
/// valid UTF-8, otherwise the decoding with U+FFFD for invalid sequences.
pub open spec fn username_text(bytes: Seq<u8>) -> Seq<char> {
    if vstd::utf8::valid_utf8(bytes) {
        vstd::utf8::decode_utf8(bytes)
    } else {
        utf8_lossy(bytes)
    }
}

/// What the attribute scan has found so far.
pub ghost struct AttributeScan {
    pub username: Seq<char>,
    pub integrity: Seq<u8>,
    pub integrity_offset: Option<int>,
}

/// Walks the attributes of `raw` from `offset` up to `limit`: the last
/// USERNAME seen is kept, and the walk stops at MESSAGE-INTEGRITY, at the
/// end, or at an attribute that would run past `limit`.
pub open spec fn scan_attributes(raw: Seq<u8>, limit: int, offset: int, username: Seq<char>) -> AttributeScan
    decreases steps_left(offset, limit),
{
    let none = AttributeScan { username, integrity: Seq::empty(), integrity_offset: None };
    if offset + 4 > limit {
        none
    } else {
        let attribute_type = be16_at(raw, offset);
        let attribute_length = be16_at(raw, offset + 2);
        let value_offset = offset + 4;
        let value_end = value_offset + attribute_length;
        let next = value_offset + round_up4(attribute_length);
        if value_end > limit {
            none
        } else if attribute_type == USERNAME_ATTRIBUTE as int {
            scan_attributes(raw, limit, next, username_text(raw.subrange(value_offset, value_end)))
        } else if attribute_type == MESSAGE_INTEGRITY_ATTRIBUTE as int {
            AttributeScan {
                username,
                integrity: raw.subrange(value_offset, value_end),
                integrity_offset: Some(offset),
            }
        } else {
            scan_attributes(raw, limit, next, username)
        }
    }
}

/// Where the attributes of `raw` end: the declared length, cut at the buffer.
pub open spec fn attributes_limit(raw: Seq<u8>) -> int {
    let declared = HEADER_LEN + be16_at(raw, 2);
    if declared < raw.len() { declared } else { raw.len() as int }
}

/// The attribute scan of a whole message.
pub open spec fn spec_attributes(raw: Seq<u8>) -> AttributeScan {
    scan_attributes(raw, attributes_limit(raw), HEADER_LEN as int, Seq::empty())
}

/// `raw` looks like a STUN message: a full header, the two top bits clear
/// and the magic cookie in place.
pub open spec fn spec_is_stun(raw: Seq<u8>) -> bool {
    &&& raw.len() >= HEADER_LEN
    &&& raw[0] & 0xc0 == 0
    &&& be32_at(raw, 4) == MAGIC_COOKIE
}

/// The bytes that MESSAGE-INTEGRITY at `offset` covers: the header with the
/// length field counting up to the end of that attribute, and the
/// attributes before it.
pub open spec fn integrity_input(raw: Seq<u8>, offset: int) -> Seq<u8> {
    raw.subrange(0, 2) + be16_bytes((offset - HEADER_LEN + MESSAGE_INTEGRITY_LEN) as u16) + raw.subrange(4, offset)
}

/// The message integrity that `raw` carries checks out under `key`.
pub open spec fn spec_integrity_valid(raw: Seq<u8>, integrity: Seq<u8>, offset: Option<int>, key: Seq<u8>) -> bool {
    match offset {
        None => false,
        Some(o) => {
            &&& integrity.len() == HMAC_SHA1_LEN
            &&& integrity == first_bytes(hmac_sha1(key, integrity_input(raw, o)), HMAC_SHA1_LEN as int)
        },
    }
}

/// `msg` with its length field set to `length`.
pub open spec fn with_length(msg: Seq<u8>, length: u16) -> Seq<u8> {
    msg.subrange(0, 2) + be16_bytes(length) + msg.subrange(4, msg.len() as int)
}

/// The STUN header of a message of type `message_type`, with length zero.
pub open spec fn header_bytes(transaction_id: Seq<u8>, message_type: u16) -> Seq<u8> {
    be16_bytes(message_type) + be16_bytes(0) + be32_bytes(MAGIC_COOKIE) + transaction_id
}

/// The XOR-MAPPED-ADDRESS attribute for an IPv4 address and port.
pub open spec fn xor_mapped_address_bytes(ip: Seq<u8>, port: u16) -> Seq<u8> {
    let cookie = be32_bytes(MAGIC_COOKIE);
    be16_bytes(XOR_MAPPED_ADDRESS_ATTRIBUTE) + be16_bytes(8) + seq![0u8, 0x01u8]
        + be16_bytes(port ^ 0x2112u16) + Seq::new(4, |i: int| ip[i] ^ cookie[i])
}

/// `msg` followed by MESSAGE-INTEGRITY under `key`, the length field counting it.
pub open spec fn with_integrity(msg: Seq<u8>, key: Seq<u8>) -> Seq<u8> {
    let covered = with_length(msg, (msg.len() - HEADER_LEN + MESSAGE_INTEGRITY_LEN) as u16);
    covered + be16_bytes(MESSAGE_INTEGRITY_ATTRIBUTE) + be16_bytes(20)
        + first_bytes(hmac_sha1(key, covered), HMAC_SHA1_LEN as int)
}

/// `msg` followed by FINGERPRINT, the length field counting it.
pub open spec fn with_fingerprint(msg: Seq<u8>) -> Seq<u8> {
    let covered = with_length(msg, (msg.len() - HEADER_LEN + FINGERPRINT_LEN) as u16);
    covered + be16_bytes(FINGERPRINT_ATTRIBUTE) + be16_bytes(4) + be32_bytes(crc32(covered) ^ FINGERPRINT_XOR)
}

/// The binding success response for a request with `transaction_id` from
/// IPv4 address `ip` and `port`, signed with `key`.
pub open spec fn binding_response(transaction_id: Seq<u8>, ip: Seq<u8>, port: u16, key: Seq<u8>) -> Seq<u8> {
    with_fingerprint(
        with_integrity(
            header_bytes(transaction_id, BINDING_RESPONSE_MESSAGE) + xor_mapped_address_bytes(ip, port),
            key,
        ),
    )
}

/// A binding response parses back as a STUN binding response that carries
/// the request's transaction ID, and its MESSAGE-INTEGRITY checks out under
/// the key that signed it.
pub proof fn law_binding_response_authenticates(transaction_id: Seq<u8>, ip: Seq<u8>, port: u16, key: Seq<u8>)
    requires
        transaction_id.len() == 12,
        ip.len() == 4,
    ensures
        ({
            let r = binding_response(transaction_id, ip, port, key);
            let scan = spec_attributes(r);
            &&& spec_is_stun(r)
            &&& be16_at(r, 0) == BINDING_RESPONSE_MESSAGE
            &&& r.subrange(8, 20) == transaction_id
            &&& scan.integrity_offset == Some(32int)
            &&& spec_integrity_valid(r, scan.integrity, scan.integrity_offset, key)
        }),
{
    let m0 = header_bytes(transaction_id, BINDING_RESPONSE_MESSAGE) + xor_mapped_address_bytes(ip, port);
    assert(m0.len() == 32);
    let covered1 = with_length(m0, 36);
    let tag = first_bytes(hmac_sha1(key, covered1), HMAC_SHA1_LEN as int);
    let m1 = with_integrity(m0, key);
    assert(m1 == covered1 + be16_bytes(MESSAGE_INTEGRITY_ATTRIBUTE) + be16_bytes(20) + tag);
    assert(m1.len() == 56);
    let covered2 = with_length(m1, 44);
    let r = binding_response(transaction_id, ip, port, key);
    assert(r == with_fingerprint(m1));
    assert(r.len() == 64);
    assert(r.subrange(0, 56) =~= covered2);
    assert(r[0] == 1);
    let b0 = r[0];
    assert(b0 & 0xc0 == 0) by (bit_vector)
        requires b0 == 1u8;
    assert(r.subrange(8, 20) =~= transaction_id);
    assert(be16_at(r, 2) == 44);
    assert(attributes_limit(r) == 64);
    assert(be16_at(r, 20) == XOR_MAPPED_ADDRESS_ATTRIBUTE);
    assert(be16_at(r, 22) == 8);
    assert(be16_at(r, 32) == MESSAGE_INTEGRITY_ATTRIBUTE);
    assert(be16_at(r, 34) == 20);
    reveal_with_fuel(scan_attributes, 3);
    let scan = spec_attributes(r);
    assert(scan.integrity == r.subrange(36, 56));
    assert(r.subrange(36, 56) =~= tag);
    assert(integrity_input(r, 32) =~= covered1);
}

/// The USERNAME attribute carrying `username`, its value padded with zero
/// bytes to a multiple of four (RFC 5389, section 15).
pub open spec fn username_attribute_bytes(username: Seq<u8>) -> Seq<u8> {
    be16_bytes(USERNAME_ATTRIBUTE) + be16_bytes(username.len() as u16) + username
        + Seq::new(((4 - username.len() % 4) % 4) as nat, |i: int| 0u8)
}

/// A binding request with `transaction_id` and `username`, signed with `key`.
pub open spec fn binding_request(transaction_id: Seq<u8>, username: Seq<u8>, key: Seq<u8>) -> Seq<u8> {
    with_integrity(header_bytes(transaction_id, BINDING_REQUEST_MESSAGE) + username_attribute_bytes(username), key)
}

/// A binding request signed under a key is accepted under that key, for
/// every user name: the attribute walk steps over the padded USERNAME
/// value, finds MESSAGE-INTEGRITY right after it (at 24 plus the user name
/// length rounded up to four), reads the user name back, and the HMAC
/// checks out.
pub proof fn law_binding_request_authenticates(transaction_id: Seq<u8>, username: Seq<u8>, key: Seq<u8>)
    requires
        transaction_id.len() == 12,
        username.len() <= 0xff00,
    ensures
        ({
            let r = binding_request(transaction_id, username, key);
            let scan = spec_attributes(r);
            &&& spec_is_stun(r)
            &&& be16_at(r, 0) == BINDING_REQUEST_MESSAGE
            &&& scan.integrity_offset == Some(24 + (username.len() as int + 3) / 4 * 4)
            &&& scan.username == username_text(username)
            &&& spec_integrity_valid(r, scan.integrity, scan.integrity_offset, key)
        }),
{
    let n = username.len() as int;
    let l = n + (4 - n % 4) % 4;
    assert(l == (n + 3) / 4 * 4);
    assert(round_up4(n) == l);
    let attribute = username_attribute_bytes(username);
    assert(attribute.len() == 4 + l);
    let m0 = header_bytes(transaction_id, BINDING_REQUEST_MESSAGE) + attribute;
    assert(m0.len() == 24 + l);
    let o = 24 + l;
    let covered = with_length(m0, (28 + l) as u16);
    let tag = first_bytes(hmac_sha1(key, covered), HMAC_SHA1_LEN as int);
    let r = binding_request(transaction_id, username, key);
    assert(r == covered + be16_bytes(MESSAGE_INTEGRITY_ATTRIBUTE) + be16_bytes(20) + tag);
    assert(r.len() == 48 + l);
    assert(r[0] == 0);
    let b0 = r[0];
    assert(b0 & 0xc0 == 0) by (bit_vector)
        requires b0 == 0u8;
    lemma_be32_roundtrip(MAGIC_COOKIE);
    assert(r.subrange(4, 8) =~= be32_bytes(MAGIC_COOKIE));
    assert(be32_at(r, 4) == be32_at(be32_bytes(MAGIC_COOKIE), 0));
    lemma_be16_roundtrip(BINDING_REQUEST_MESSAGE);
    lemma_be16_roundtrip((28 + l) as u16);
    lemma_be16_roundtrip(USERNAME_ATTRIBUTE);
    lemma_be16_roundtrip(username.len() as u16);
    lemma_be16_roundtrip(MESSAGE_INTEGRITY_ATTRIBUTE);
    lemma_be16_roundtrip(20);
    assert(be16_at(r, 0) == BINDING_REQUEST_MESSAGE);
    assert(be16_at(r, 2) == 28 + l);
    assert(attributes_limit(r) == 48 + l);
    assert(be16_at(r, 20) == USERNAME_ATTRIBUTE);
    assert(be16_at(r, 22) == n);
    assert(r.subrange(24, 24 + n) =~= username);
    assert(r[o] == be16_bytes(MESSAGE_INTEGRITY_ATTRIBUTE)[0] && r[o + 1] == be16_bytes(MESSAGE_INTEGRITY_ATTRIBUTE)[1]);
    assert(be16_at(r, o) == MESSAGE_INTEGRITY_ATTRIBUTE);
    assert(r[o + 2] == be16_bytes(20)[0] && r[o + 3] == be16_bytes(20)[1]);
    assert(be16_at(r, o + 2) == 20);
    reveal_with_fuel(scan_attributes, 3);
    let scan = spec_attributes(r);
    assert(scan.integrity == r.subrange(o + 4, o + 24));
    assert(r.subrange(o + 4, o + 24) =~= tag);
    assert(integrity_input(r, o) =~= covered);
}

impl Attribute {
    fn new(attribute_type: u16, attribute_value: &[u8]) -> (r: Option<Self>)
        ensures
            attribute_type == USERNAME_ATTRIBUTE ==> (r matches Some(Attribute::Username(s))
                && s@ == username_text(attribute_value@)),
            attribute_type == MESSAGE_INTEGRITY_ATTRIBUTE ==> (r matches Some(Attribute::MessageIntegrity(v))
                && v@ == attribute_value@),
            attribute_type != USERNAME_ATTRIBUTE && attribute_type != MESSAGE_INTEGRITY_ATTRIBUTE ==> r is None,
    {
        if attribute_type == USERNAME_ATTRIBUTE {
            Some(Attribute::Username(utf8_lossy_string(attribute_value)))
        } else if attribute_type == MESSAGE_INTEGRITY_ATTRIBUTE {
            let mut value: Vec<u8> = Vec::new();
            value.extend_from_slice(attribute_value);
            Some(Attribute::MessageIntegrity(value))
        } else {
            None
        }
    }
}

/// A STUN message that borrows its bytes.
pub struct Message<'a> {
    pub message_type: u16,
    pub transaction_id: [u8; 12],
    pub username: String,
    pub message_integrity: Vec<u8>,
    pub message_integrity_offset: Option<usize>,
    pub raw: &'a [u8],
}

impl<'a> Message<'a> {
    /// Where the MESSAGE-INTEGRITY attribute starts in `raw`, if it was found.
    pub open spec fn integrity_offset(self) -> Option<int> {
        match self.message_integrity_offset {
            Some(o) => Some(o as int),
            None => None,
        }
    }

    /// Every field is what parsing `raw` gives.
    pub open spec fn parsed_from(self, raw: Seq<u8>) -> bool {
        let scan = spec_attributes(raw);
        &&& self.raw@ == raw
        &&& self.message_type == be16_at(raw, 0)
        &&& self.transaction_id@ == raw.subrange(8, 20)
        &&& self.username@ == scan.username
        &&& self.message_integrity@ == scan.integrity
        &&& self.integrity_offset() == scan.integrity_offset
        &&& self.well_formed()
    }

    /// The integrity offset, when present, lies inside the message after its header.
    pub open spec fn well_formed(self) -> bool {
        self.integrity_offset() matches Some(o) ==> HEADER_LEN <= o && o + 4 <= self.raw@.len()
    }

    fn new(raw: &'a [u8]) -> (m: Self)
        requires
            raw@.len() >= HEADER_LEN,
        ensures
            m.parsed_from(raw@),
            m.raw == raw,
    {
        let (username, message_integrity, message_integrity_offset) = Self::parse_attributes(raw);
        let transaction_id = [
            raw[8], raw[9], raw[10], raw[11], raw[12], raw[13],
            raw[14], raw[15], raw[16], raw[17], raw[18], raw[19],
        ];
        assert(transaction_id@ =~= raw@.subrange(8, 20));
        Self {
            message_type: read_be16(raw, 0),
            transaction_id,
            username,
            message_integrity,
            message_integrity_offset,
            raw,
        }
    }

    pub fn parse(raw: &'a [u8]) -> (r: Option<Self>)
        ensures
            spec_is_stun(raw@) ==> (r matches Some(m) && m.parsed_from(raw@) && m.raw == raw),
            !spec_is_stun(raw@) ==> r is None,
    {
        if !Self::is_stun(raw) {
            return None;
        }
        Some(Self::new(raw))
    }

    pub fn is_stun(raw: &[u8]) -> (r: bool)
        ensures
            r == spec_is_stun(raw@),
    {
        raw.len() >= HEADER_LEN && raw[0] & 0xc0 == 0 && read_be32(raw, 4) == MAGIC_COOKIE
    }

    pub fn message_type(&self) -> (r: MessageType)
        ensures
            self.message_type == BINDING_REQUEST_MESSAGE ==> r is BindingRequest,
            self.message_type == BINDING_RESPONSE_MESSAGE ==> r is BindingResponse,
            self.message_type != BINDING_REQUEST_MESSAGE && self.message_type != BINDING_RESPONSE_MESSAGE
                ==> r is Unknown,
    {
        if self.message_type == BINDING_REQUEST_MESSAGE {
            MessageType::BindingRequest
        } else if self.message_type == BINDING_RESPONSE_MESSAGE {
            MessageType::BindingResponse
        } else {
            MessageType::Unknown
        }
    }

    fn parse_attributes(raw: &[u8]) -> (r: (String, Vec<u8>, Option<usize>))
        requires
            raw@.len() >= HEADER_LEN,
        ensures
            r.0@ == spec_attributes(raw@).username,
            r.1@ == spec_attributes(raw@).integrity,
            match r.2 {
                Some(o) => spec_attributes(raw@).integrity_offset == Some(o as int) && HEADER_LEN <= o && o + 4 <= raw@.len(),
                None => spec_attributes(raw@).integrity_offset is None,
            },
    {
        let mut username = String::new();
        let mut message_integrity: Vec<u8> = Vec::new();
        let mut message_integrity_offset: Option<usize> = None;

        let length = read_be16(raw, 2) as usize;
        let limit = if HEADER_LEN + length < raw.len() { HEADER_LEN + length } else { raw.len() };
        let mut offset = HEADER_LEN;
        let ghost whole = spec_attributes(raw@);

        while offset + 4 <= limit
            invariant_except_break
                limit == attributes_limit(raw@),
                limit <= raw@.len(),
                limit <= HEADER_LEN + 0xffff,
                HEADER_LEN <= offset <= limit + 3,
                message_integrity@ == Seq::<u8>::empty(),
                whole == spec_attributes(raw@),
                whole == scan_attributes(raw@, limit as int, offset as int, username@),
                message_integrity_offset is None,
            ensures
                username@ == whole.username,
                message_integrity@ == whole.integrity,
                match message_integrity_offset {
                    Some(o) => whole.integrity_offset == Some(o as int) && HEADER_LEN <= o && o + 4 <= raw@.len(),
                    None => whole.integrity_offset is None,
                },
            decreases steps_left(offset as int, limit as int),
        {
            let attribute_type = read_be16(raw, offset);
            let attribute_length = read_be16(raw, offset + 2) as usize;
            let value_offset = offset + 4;
            let value_end = value_offset + attribute_length;
            if value_end > limit {
                break;
            }
            match Attribute::new(attribute_type, &raw[value_offset..value_end]) {
                Some(Attribute::Username(value)) => username = value,
                Some(Attribute::MessageIntegrity(value)) => {
                    message_integrity = value;
                    message_integrity_offset = Some(offset);
                    break;
                },
                None => {},
            }
            offset = value_offset + (attribute_length + 3) / 4 * 4;
        }
        (username, message_integrity, message_integrity_offset)
    }

    pub fn is_valid_message_integrity(&self, password: &str) -> (r: bool)
        requires
            self.well_formed(),
        ensures
            r == spec_integrity_valid(self.raw@, self.message_integrity@, self.integrity_offset(), password.spec_bytes()),
    {
        let offset = match self.message_integrity_offset {
            Some(offset) => offset,
            None => return false,
        };
        let total = self.raw.len();
        assert(offset + 4 <= total);
        let adjusted_length = (offset - HEADER_LEN + MESSAGE_INTEGRITY_LEN) as u16;
        let mut covered: Vec<u8> = Vec::new();
        covered.extend_from_slice(&self.raw[0..2]);
        push_be16(&mut covered, adjusted_length);
        covered.extend_from_slice(&self.raw[4..offset]);
        assert(covered@ =~= integrity_input(self.raw@, offset as int));
        hmac_sha1_verify(password.as_bytes(), covered.as_slice(), self.message_integrity.as_slice())
    }

    /// The binding success response for this request, seen from `source`;
    /// empty when `source` has no IPv4 address.
    pub fn build_binding_response(&self, source: SocketAddress, password: &str) -> (r: Vec<u8>)
        ensures
            match source.ip.spec_ipv4() {
                Some(ip) => r@ == binding_response(self.transaction_id@, ip, source.port, password.spec_bytes()),
                None => r@.len() == 0,
            },
    {
        let ip = match source.ip.ipv4() {
            Some(ip) => ip,
            None => return Vec::new(),
        };
        let mut response: Vec<u8> = Vec::with_capacity(HEADER_LEN + 12 + MESSAGE_INTEGRITY_LEN + FINGERPRINT_LEN);
        Self::append_header(&mut response, self.transaction_id, BINDING_RESPONSE_MESSAGE);
        Self::append_xor_mapped_address(&mut response, ip, source.port);
        Self::append_message_integrity(&mut response, password);
        Self::append_fingerprint(&mut response);
        response
    }

    fn append_header(response: &mut Vec<u8>, transaction_id: [u8; 12], message_type: u16)
        ensures
            final(response)@ == old(response)@ + header_bytes(transaction_id@, message_type),
    {
        push_be16(response, message_type);
        push_be16(response, 0);
        push_be32(response, MAGIC_COOKIE);
        response.extend_from_slice(&transaction_id);
        assert(final(response)@ =~= old(response)@ + header_bytes(transaction_id@, message_type));
    }

    fn append_xor_mapped_address(response: &mut Vec<u8>, ip: [u8; 4], port: u16)
        ensures
            final(response)@ == old(response)@ + xor_mapped_address_bytes(ip@, port),
    {
        let xor_port = port ^ 0x2112u16;
        let cookie: [u8; 4] = [0x21, 0x12, 0xa4, 0x42];
        let xor_addr = [ip[0] ^ cookie[0], ip[1] ^ cookie[1], ip[2] ^ cookie[2], ip[3] ^ cookie[3]];
        push_be16(response, XOR_MAPPED_ADDRESS_ATTRIBUTE);
        push_be16(response, 8);
        response.push(0);
        response.push(0x01);
        push_be16(response, xor_port);
        response.extend_from_slice(&xor_addr);
        proof {
            let c = be32_bytes(MAGIC_COOKIE);
            assert(c =~= cookie@);
            assert(xor_addr@ =~= Seq::new(4, |i: int| ip@[i] ^ c[i]));
        }
        assert(final(response)@ =~= old(response)@ + xor_mapped_address_bytes(ip@, port));
    }

    fn set_length(response: &mut Vec<u8>, length: u16)
        requires
            old(response)@.len() >= 4,
        ensures
            final(response)@ == with_length(old(response)@, length),
    {
        response.set(2, (length / 256) as u8);
        response.set(3, (length % 256) as u8);
        assert(final(response)@ =~= with_length(old(response)@, length));
    }

    fn append_message_integrity(response: &mut Vec<u8>, password: &str)
        requires
            HEADER_LEN <= old(response)@.len() <= 0x8000,
        ensures
            final(response)@ == with_integrity(old(response)@, password.spec_bytes()),
    {
        let length = (response.len() - HEADER_LEN + MESSAGE_INTEGRITY_LEN) as u16;
        Self::set_length(response, length);
        let integrity = hmac_sha1_tag(password.as_bytes(), response.as_slice());
        assert(integrity@ =~= first_bytes(integrity@, HMAC_SHA1_LEN as int));
        push_be16(response, MESSAGE_INTEGRITY_ATTRIBUTE);
        push_be16(response, 20);
        response.extend_from_slice(integrity.as_slice());
    }

    fn append_fingerprint(response: &mut Vec<u8>)
        requires
            HEADER_LEN <= old(response)@.len() <= 0x8000,
        ensures
            final(response)@ == with_fingerprint(old(response)@),
    {
        let length = (response.len() - HEADER_LEN + FINGERPRINT_LEN) as u16;
        Self::set_length(response, length);
        let fingerprint = crc32_hash(response.as_slice()) ^ FINGERPRINT_XOR;
        push_be16(response, FINGERPRINT_ATTRIBUTE);
        push_be16(response, 4);
        push_be32(response, fingerprint);
    }
}

} // verus!
