//! RTP packet parsing (RFC 3550) with header extensions (RFC 8285).
use vstd::prelude::*;
use crate::bytes::{be16_at, be32_at, read_be16, read_be32, steps_left};

verus! {

pub const FIXED_HEADER_LEN: usize = 12;
pub const CSRC_LEN: usize = 4;
pub const EXTENSION_HEADER_LEN: usize = 4;
pub const WORD_LEN: usize = 4;

pub const ONE_BYTE_PROFILE: u16 = 0xbede;
pub const TWO_BYTE_PROFILE: u16 = 0x1000;

/// One header extension element; `data_start..data_end` indexes the whole packet.
pub struct RtpExtension {
    pub id: u8,
    pub data_start: usize,
    pub data_end: usize,
}

/// Elements of a one-byte header extension block, walked from `i` up to `size`.
/// `buf` starts at the extension header and `offset` is its place in the packet.
/// `None` means the walk reads past the end of `buf`.
pub open spec fn one_byte_elements(buf: Seq<u8>, offset: int, i: int, size: int) -> Option<Seq<RtpExtension>>
    decreases steps_left(i, size),
{
    if i >= size {
        Some(Seq::empty())
    } else if i >= buf.len() {
        None
    } else if buf[i] == 0 {
        Some(Seq::empty())
    } else {
        let length = (buf[i] & 0x0f) as int + 1;
        proof {
            lemma_low_nibble(buf[i]);
        }
        let element = RtpExtension {
            id: buf[i] >> 4u8,
            data_start: (offset + i + 1) as usize,
            data_end: (offset + i + 1 + length) as usize,
        };
        match one_byte_elements(buf, offset, i + 1 + length, size) {
            Some(rest) => Some(seq![element] + rest),
            None => None,
        }
    }
}

/// Elements of a two-byte header extension block, as `one_byte_elements`.
pub open spec fn two_byte_elements(buf: Seq<u8>, offset: int, i: int, size: int) -> Option<Seq<RtpExtension>>
    decreases steps_left(i, size),
{
    if i >= size {
        Some(Seq::empty())
    } else if i >= buf.len() {
        None
    } else if buf[i] == 0 {
        Some(Seq::empty())
    } else if i + 2 >= buf.len() {
        None
    } else {
        let length = be16_at(buf, i + 1);
        let element = RtpExtension {
            id: buf[i],
            data_start: (offset + i + 3) as usize,
            data_end: (offset + i + 3 + length) as usize,
        };
        match two_byte_elements(buf, offset, i + 3 + length, size) {
            Some(rest) => Some(seq![element] + rest),
            None => None,
        }
    }
}

/// Size in bytes of the extension block that starts `buf`: header plus body.
pub open spec fn extension_block_size(buf: Seq<u8>) -> int {
    EXTENSION_HEADER_LEN as int + be16_at(buf, 2) * WORD_LEN as int
}

/// The extension elements of the block that starts `buf`; an unknown profile has none.
pub open spec fn extension_elements(buf: Seq<u8>, offset: int) -> Option<Seq<RtpExtension>> {
    let profile = be16_at(buf, 0);
    let size = extension_block_size(buf);
    if profile == ONE_BYTE_PROFILE as int {
        one_byte_elements(buf, offset, EXTENSION_HEADER_LEN as int, size)
    } else if profile == TWO_BYTE_PROFILE as int {
        two_byte_elements(buf, offset, EXTENSION_HEADER_LEN as int, size)
    } else {
        Some(Seq::empty())
    }
}

/// The low four bits of a byte.
pub proof fn lemma_low_nibble(b: u8)
    ensures
        0 <= (b & 0x0f) <= 15,
        (b & 0x0f) as int == (b & 0x0f) as usize,
{
    assert(0 <= (b & 0x0f) <= 15) by (bit_vector);
}

spec fn prepend(prefix: Seq<RtpExtension>, o: Option<Seq<RtpExtension>>) -> Option<Seq<RtpExtension>> {
    match o {
        Some(rest) => Some(prefix + rest),
        None => None,
    }
}

impl RtpExtension {
    /// Walks the extension block at the start of `buffer`; `None` when the
    /// walk would read past the end of `buffer`.
    fn parse(buffer: &[u8], offset: usize) -> (r: Option<(Vec<Self>, usize)>)
        requires
            buffer@.len() >= EXTENSION_HEADER_LEN,
            offset + buffer@.len() <= isize::MAX,
        ensures
            match extension_elements(buffer@, offset as int) {
                Some(v) => r matches Some(p) && p.0@ == v && p.1 == extension_block_size(buffer@),
                None => r is None,
            },
    {
        let profile = read_be16(buffer, 0);
        let length_in_words = read_be16(buffer, 2) as usize;
        let size = EXTENSION_HEADER_LEN + length_in_words * WORD_LEN;
        let mut i = EXTENSION_HEADER_LEN;
        let mut extensions: Vec<Self> = Vec::new();
        let ghost buf = buffer@;

        if profile == ONE_BYTE_PROFILE {
            while i < size
                invariant_except_break
                    buf == buffer@,
                    size == extension_block_size(buf),
                    offset + buf.len() <= isize::MAX,
                    EXTENSION_HEADER_LEN <= i,
                    extension_elements(buf, offset as int)
                        == one_byte_elements(buf, offset as int, EXTENSION_HEADER_LEN as int, size as int),
                    one_byte_elements(buf, offset as int, EXTENSION_HEADER_LEN as int, size as int)
                        == prepend(extensions@, one_byte_elements(buf, offset as int, i as int, size as int)),
                ensures
                    one_byte_elements(buf, offset as int, EXTENSION_HEADER_LEN as int, size as int)
                        == Some(extensions@),
                decreases steps_left(i as int, size as int),
            {
                if i >= buffer.len() {
                    return None;
                }
                if buffer[i] == 0 {
                    break;
                }
                proof {
                    lemma_low_nibble(buffer[i as int]);
                }
                let id = buffer[i] >> 4u8;
                let length = (buffer[i] & 0x0f) as usize + 1;
                i += 1;
                let ghost before = extensions@;
                let element = Self { id, data_start: offset + i, data_end: offset + i + length };
                extensions.push(element);
                i += length;
                proof {
                    let rest = one_byte_elements(buf, offset as int, i as int, size as int);
                    if let Some(r) = rest {
                        assert(before + (seq![element] + r) =~= extensions@ + r);
                    }
                }
            }
        } else if profile == TWO_BYTE_PROFILE {
            while i < size
                invariant_except_break
                    buf == buffer@,
                    size == extension_block_size(buf),
                    offset + buf.len() <= isize::MAX,
                    EXTENSION_HEADER_LEN <= i,
                    extension_elements(buf, offset as int)
                        == two_byte_elements(buf, offset as int, EXTENSION_HEADER_LEN as int, size as int),
                    two_byte_elements(buf, offset as int, EXTENSION_HEADER_LEN as int, size as int)
                        == prepend(extensions@, two_byte_elements(buf, offset as int, i as int, size as int)),
                ensures
                    two_byte_elements(buf, offset as int, EXTENSION_HEADER_LEN as int, size as int)
                        == Some(extensions@),
                decreases steps_left(i as int, size as int),
            {
                if i >= buffer.len() {
                    return None;
                }
                if buffer[i] == 0 {
                    break;
                }
                if i + 2 >= buffer.len() {
                    return None;
                }
                let id = buffer[i];
                let length = read_be16(buffer, i + 1) as usize;
                i += 3;
                let ghost before = extensions@;
                let element = Self { id, data_start: offset + i, data_end: offset + i + length };
                extensions.push(element);
                i += length;
                proof {
                    let rest = two_byte_elements(buf, offset as int, i as int, size as int);
                    if let Some(r) = rest {
                        assert(before + (seq![element] + r) =~= extensions@ + r);
                    }
                }
            }
        }
        Some((extensions, size))
    }
}

/// The fixed part of an RTP header.
pub struct RtpHeader {
    pub version: u8,
    pub has_padding: bool,
    pub has_extension: bool,
    pub csrc_count: u8,
    pub payload_type: u8,
    pub sequence_number: u16,
    pub ssrc: u32,
}

/// The fixed header that `p` starts with.
pub open spec fn spec_rtp_header(p: Seq<u8>) -> RtpHeader {
    RtpHeader {
        version: p[0] >> 6u8,
        has_padding: (p[0] & 0x20) >> 5u8 != 0,
        has_extension: (p[0] & 0x10) >> 4u8 != 0,
        csrc_count: p[0] & 0x0f,
        payload_type: p[1] & 0x7f,
        sequence_number: be16_at(p, 2) as u16,
        ssrc: be32_at(p, 8) as u32,
    }
}

/// The fixed header is read as RFC 3550 lays it out: the version in the top
/// two bits of the first byte, then the padding and extension bits and a
/// four-bit CSRC count; the payload type is the low seven bits of the
/// second byte, without the marker bit above them; the sequence number and
/// the SSRC are big-endian.
pub proof fn law_rtp_header_fields(p: Seq<u8>)
    requires
        p.len() >= FIXED_HEADER_LEN,
    ensures
        spec_rtp_header(p).version == p[0] / 64,
        spec_rtp_header(p).has_padding == (p[0] / 32 % 2 == 1),
        spec_rtp_header(p).has_extension == (p[0] / 16 % 2 == 1),
        spec_rtp_header(p).csrc_count == p[0] % 16,
        spec_rtp_header(p).payload_type == p[1] % 128,
        spec_rtp_header(p).payload_type < 128,
        spec_rtp_header(p).sequence_number == p[2] * 256 + p[3],
        spec_rtp_header(p).ssrc == p[8] * 16777216 + p[9] * 65536 + p[10] * 256 + p[11],
{
    let b0 = p[0];
    let b1 = p[1];
    assert(b0 >> 6u8 == b0 / 64) by (bit_vector);
    assert(((b0 & 0x20) >> 5u8 != 0) == (b0 / 32 % 2 == 1)) by (bit_vector);
    assert(((b0 & 0x10) >> 4u8 != 0) == (b0 / 16 % 2 == 1)) by (bit_vector);
    assert(b0 & 0x0f == b0 % 16) by (bit_vector);
    assert(b1 & 0x7f == b1 % 128) by (bit_vector);
}

/// Fixed header plus CSRC list, from the first byte alone.
pub open spec fn spec_fixed_size(p: Seq<u8>) -> int {
    FIXED_HEADER_LEN as int + (p[0] & 0x0f) as int * CSRC_LEN as int
}

/// Whether the extension bit is set in the first byte.
pub open spec fn spec_has_extension(p: Seq<u8>) -> bool {
    (p[0] & 0x10) >> 4u8 != 0
}

/// Where the payload starts: after the fixed header, CSRCs and extension block.
pub open spec fn spec_payload_start(p: Seq<u8>) -> int {
    let fixed = spec_fixed_size(p);
    if spec_has_extension(p) {
        fixed + extension_block_size(p.subrange(fixed, p.len() as int))
    } else {
        fixed
    }
}

/// Where the payload ends: before the padding that the last byte counts.
pub open spec fn spec_payload_end(p: Seq<u8>) -> int {
    if spec_rtp_header(p).has_padding {
        p.len() - p[p.len() - 1]
    } else {
        p.len() as int
    }
}

/// The extension elements of `p`, if it has an extension block.
pub open spec fn spec_extensions(p: Seq<u8>) -> Option<Seq<RtpExtension>> {
    let fixed = spec_fixed_size(p);
    if spec_has_extension(p) {
        extension_elements(p.subrange(fixed, p.len() as int), fixed)
    } else {
        None
    }
}

/// `p` can be parsed as an RTP packet without reading past its end.
pub open spec fn rtp_parsable(p: Seq<u8>) -> bool {
    let fixed = spec_fixed_size(p);
    &&& FIXED_HEADER_LEN <= p.len() <= isize::MAX
    &&& spec_has_extension(p) ==> {
        &&& fixed + EXTENSION_HEADER_LEN <= p.len()
        &&& extension_elements(p.subrange(fixed, p.len() as int), fixed) is Some
    }
    &&& spec_rtp_header(p).has_padding ==> p[p.len() - 1] <= p.len()
}

/// The first element of `exts` with identifier `id`.
pub open spec fn find_extension(exts: Seq<RtpExtension>, id: u8) -> Option<RtpExtension>
    decreases exts.len(),
{
    if exts.len() == 0 {
        None
    } else if exts[0].id == id {
        Some(exts[0])
    } else {
        find_extension(exts.drop_first(), id)
    }
}

impl RtpHeader {
    fn parse(packet: &[u8]) -> (h: Self)
        requires
            packet@.len() >= FIXED_HEADER_LEN,
        ensures
            h == spec_rtp_header(packet@),
    {
        let version = packet[0] >> 6u8;
        let csrc_count = packet[0] & 0x0f;
        let has_padding = (packet[0] & 0x20) >> 5u8 != 0;
        let has_extension = (packet[0] & 0x10) >> 4u8 != 0;
        let payload_type = packet[1] & 0x7f;
        let sequence_number = read_be16(packet, 2);
        let ssrc = read_be32(packet, 8);
        Self { version, has_padding, has_extension, csrc_count, payload_type, sequence_number, ssrc }
    }

    fn size(&self) -> (r: usize)
        ensures
            r == FIXED_HEADER_LEN + self.csrc_count * CSRC_LEN,
    {
        FIXED_HEADER_LEN + (self.csrc_count as usize) * CSRC_LEN
    }
}

/// A parsed RTP packet that borrows its bytes.
pub struct RtpPacket<'a> {
    pub header: RtpHeader,
    pub extensions: Option<Vec<RtpExtension>>,
    pub raw: &'a [u8],
    pub payload_start: usize,
    pub payload_end: usize,
}

impl<'a> RtpPacket<'a> {
    /// The parse of `p` in every field.
    pub open spec fn parsed_from(self, p: Seq<u8>) -> bool {
        &&& self.header == spec_rtp_header(p)
        &&& self.raw@ == p
        &&& self.payload_start == spec_payload_start(p)
        &&& self.payload_end == spec_payload_end(p)
        &&& match self.extensions {
            Some(v) => spec_extensions(p) == Some(v@),
            None => spec_extensions(p) is None,
        }
    }

    pub fn new(packet: &'a [u8]) -> (r: Self)
        requires
            rtp_parsable(packet@),
        ensures
            r.parsed_from(packet@),
            r.raw == packet,
    {
        let header = RtpHeader::parse(packet);
        let mut payload_start = header.size();
        assert(payload_start == spec_fixed_size(packet@)) by {
            assert(packet@[0] & 0x0f == header.csrc_count);
        }
        let extensions = if header.has_extension {
            let tail = &packet[payload_start..packet.len()];
            let (extensions, length) = match RtpExtension::parse(tail, payload_start) {
                Some(parsed) => parsed,
                None => (Vec::new(), 0),
            };
            payload_start += length;
            Some(extensions)
        } else {
            None
        };
        let padding_length = if header.has_padding {
            packet[packet.len() - 1] as usize
        } else {
            0
        };
        let payload_end = packet.len() - padding_length;
        Self { header, extensions, raw: packet, payload_start, payload_end }
    }

    /// `new`, for bytes that can be parsed; `None` for bytes that cannot.
    pub fn parse(packet: &'a [u8]) -> (r: Option<Self>)
        ensures
            rtp_parsable(packet@) ==> (r matches Some(p) && p.parsed_from(packet@) && p.raw == packet),
            !rtp_parsable(packet@) ==> r is None,
    {
        if packet.len() < FIXED_HEADER_LEN || packet.len() > isize::MAX as usize {
            return None;
        }
        let fixed = FIXED_HEADER_LEN + ((packet[0] & 0x0f) as usize) * CSRC_LEN;
        if (packet[0] & 0x10) >> 4u8 != 0 {
            if fixed + EXTENSION_HEADER_LEN > packet.len() {
                return None;
            }
            let tail = &packet[fixed..packet.len()];
            if RtpExtension::parse(tail, fixed).is_none() {
                return None;
            }
        }
        if (packet[0] & 0x20) >> 5u8 != 0 && packet[packet.len() - 1] as usize > packet.len() {
            return None;
        }
        Some(Self::new(packet))
    }

    pub fn extension(&self, id: u8) -> (r: Option<&[u8]>)
        requires
            self.extensions matches Some(v) ==> (find_extension(v@, id) matches Some(e)
                ==> e.data_start <= e.data_end <= self.raw@.len()),
        ensures
            match self.extensions {
                None => r is None,
                Some(v) => match find_extension(v@, id) {
                    None => r is None,
                    Some(e) => r matches Some(s)
                        && s@ == self.raw@.subrange(e.data_start as int, e.data_end as int),
                },
            },
    {
        let extensions = match &self.extensions {
            Some(v) => v,
            None => return None,
        };
        assert(self.extensions == Some(*extensions));
        let mut k: usize = 0;
        assert(extensions@.skip(0) =~= extensions@);
        while k < extensions.len()
            invariant
                k <= extensions@.len(),
                self.extensions == Some(*extensions),
                find_extension(extensions@, id) matches Some(e)
                    ==> e.data_start <= e.data_end <= self.raw@.len(),
                find_extension(extensions@, id) == find_extension(extensions@.skip(k as int), id),
            decreases extensions@.len() - k,
        {
            assert(extensions@.skip(k as int).drop_first() =~= extensions@.skip(k + 1));
            if extensions[k].id == id {
                let e = &extensions[k];
                assert(extensions@.skip(k as int)[0] == extensions@[k as int]);
                return Some(&self.raw[e.data_start..e.data_end]);
            }
            k += 1;
        }
        None
    }

    pub fn payload_type(&self) -> (r: u8)
        ensures
            r == self.header.payload_type,
    {
        self.header.payload_type
    }

    pub fn payload(&self) -> (r: &[u8])
        requires
            self.payload_start <= self.payload_end <= self.raw@.len(),
        ensures
            r@ == self.raw@.subrange(self.payload_start as int, self.payload_end as int),
    {
        &self.raw[self.payload_start..self.payload_end]
    }

    /// Size of the header, CSRC list and extension block of `packet`, read
    /// from the first byte and the extension header alone.
    pub fn header_size(packet: &[u8]) -> (r: Option<usize>)
        requires
            packet@.len() >= 1,
            spec_has_extension(packet@) ==> spec_fixed_size(packet@) + EXTENSION_HEADER_LEN <= packet@.len(),
        ensures
            r == Some(spec_payload_start(packet@) as usize),
    {
        let csrc_count = (packet[0] & 0x0f) as usize;
        let mut size = FIXED_HEADER_LEN + csrc_count * CSRC_LEN;
        if (packet[0] & 0x10) >> 4u8 != 0 {
            let length_in_words = read_be16(packet, size + 2) as usize;
            size += EXTENSION_HEADER_LEN + length_in_words * WORD_LEN;
            proof {
                let fixed = spec_fixed_size(packet@);
                assert(be16_at(packet@.subrange(fixed, packet@.len() as int), 2) == be16_at(packet@, fixed + 2));
            }
        }
        Some(size)
    }
}

} // verus!
