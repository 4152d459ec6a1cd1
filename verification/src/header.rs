//! The fourteen-byte header that opens every image.
use crate::error::Error;
use byteorder::{BigEndian, ByteOrder};
use vstd::arithmetic::div_mod::{
    lemma_div_denominator, lemma_fundamental_div_mod, lemma_fundamental_div_mod_converse,
};
use vstd::prelude::*;
use vstd::slice::slice_subrange;

verus! {

/// The number of channels the header announces. It is informational: every
/// pixel is decoded with four channels.
#[derive(Copy, Clone, Debug, PartialEq, Eq, Structural)]
pub enum Channels {
    RGB,
    RGBA,
}

/// The colorspace the header announces. It is informational.
#[derive(Copy, Clone, Debug, PartialEq, Eq, Structural)]
pub enum Colorspace {
    #[allow(non_camel_case_types)]
    sRGB,
    Linear,
}

impl Channels {
    /// The byte that stands for this channel count in a header.
    pub open spec fn code(self) -> u8 {
        match self {
            Channels::RGB => 3,
            Channels::RGBA => 4,
        }
    }

    /// The channel count that a valid channel byte stands for.
    pub open spec fn of_code(v: u8) -> Channels {
        if v == 3 {
            Channels::RGB
        } else {
            Channels::RGBA
        }
    }

    /// The byte that stands for this channel count in a header.
    pub fn to_u8(self) -> (v: u8)
        ensures
            v == self.code(),
    {
        match self {
            Channels::RGB => 3,
            Channels::RGBA => 4,
        }
    }

    /// The name the format gives this channel count.
    pub fn name(self) -> (s: &'static str)
        ensures
            s@ == (match self {
                Channels::RGB => "RGB"@,
                Channels::RGBA => "RGBA"@,
            }),
    {
        match self {
            Channels::RGB => "RGB",
            Channels::RGBA => "RGBA",
        }
    }
}

impl TryFrom<u8> for Channels {
    type Error = Error;

    /// Reads the channel byte of a header: 3 or 4, anything else is refused.
    fn try_from(value: u8) -> (res: Result<Self, Error>)
        ensures
            res is Ok <==> value == 3 || value == 4,
            res matches Ok(c) ==> c == Channels::of_code(value),
            res matches Err(e) ==> e is HeaderParseError && e.text() == "Unknown value for channels"@,
    {
        match value {
            3 => Ok(Channels::RGB),
            4 => Ok(Channels::RGBA),
            _ => Err(Error::HeaderParseError("Unknown value for channels".to_owned())),
        }
    }
}

/// The conversion answers with an error that carries text, which no
/// specification function can build: what it returns is stated on `try_from`.
impl vstd::std_specs::convert::TryFromSpecImpl<u8> for Channels {
    open spec fn obeys_try_from_spec() -> bool {
        false
    }

    open spec fn try_from_spec(value: u8) -> Result<Self, Error> {
        arbitrary()
    }
}

impl Colorspace {
    /// The byte that stands for this colorspace in a header.
    pub open spec fn code(self) -> u8 {
        match self {
            Colorspace::sRGB => 0,
            Colorspace::Linear => 1,
        }
    }

    /// The colorspace that a valid colorspace byte stands for.
    pub open spec fn of_code(v: u8) -> Colorspace {
        if v == 0 {
            Colorspace::sRGB
        } else {
            Colorspace::Linear
        }
    }

    /// The byte that stands for this colorspace in a header.
    pub fn to_u8(self) -> (v: u8)
        ensures
            v == self.code(),
    {
        match self {
            Colorspace::sRGB => 0,
            Colorspace::Linear => 1,
        }
    }

    /// The name the format gives this colorspace.
    pub fn name(self) -> (s: &'static str)
        ensures
            s@ == (match self {
                Colorspace::sRGB => "sRGB"@,
                Colorspace::Linear => "Linear"@,
            }),
    {
        match self {
            Colorspace::sRGB => "sRGB",
            Colorspace::Linear => "Linear",
        }
    }
}

impl TryFrom<u8> for Colorspace {
    type Error = Error;

    /// Reads the colorspace byte of a header: 0 or 1, anything else is
    /// refused.
    fn try_from(value: u8) -> (res: Result<Self, Error>)
        ensures
            res is Ok <==> value == 0 || value == 1,
            res matches Ok(c) ==> c == Colorspace::of_code(value),
            res matches Err(e) ==> e is HeaderParseError && e.text()
                == "Unknown value for colorspace"@,
    {
        match value {
            0 => Ok(Colorspace::sRGB),
            1 => Ok(Colorspace::Linear),
            _ => Err(Error::HeaderParseError("Unknown value for colorspace".to_owned())),
        }
    }
}

/// As for `Channels`: what the conversion returns is stated on `try_from`.
impl vstd::std_specs::convert::TryFromSpecImpl<u8> for Colorspace {
    open spec fn obeys_try_from_spec() -> bool {
        false
    }

    open spec fn try_from_spec(value: u8) -> Result<Self, Error> {
        arbitrary()
    }
}

/// The four bytes every image starts with: the letters `qoif`.
pub open spec fn magic() -> Seq<u8> {
    seq![0x71u8, 0x6fu8, 0x69u8, 0x66u8]
}

/// The number whose big-endian form is the first four bytes of `b`.
pub open spec fn be_u32(b: Seq<u8>) -> int
    recommends
        b.len() >= 4,
{
    b[0] * 0x100_0000 + b[1] * 0x1_0000 + b[2] * 0x100 + b[3]
}

/// The big-endian form of `v`: four bytes, the most significant first.
pub open spec fn be_bytes(v: u32) -> Seq<u8> {
    seq![
        (v / 0x100_0000) as u8,
        ((v / 0x1_0000) % 0x100) as u8,
        ((v / 0x100) % 0x100) as u8,
        (v % 0x100) as u8,
    ]
}

/// The header that appears as the first 14 bytes of an image.
#[derive(Debug, PartialEq, Eq)]
pub struct Header {
    /// The magic letters, `qoif`.
    pub magic: [u8; 4],
    /// The width of the image in pixels.
    pub width: u32,
    /// The height of the image in pixels.
    pub height: u32,
    pub channels: Channels,
    pub colorspace: Colorspace,
}

/// Whether `b` is a header the format allows: fourteen bytes that start with
/// the magic letters and end with a channel byte of 3 or 4 and a colorspace
/// byte of 0 or 1. Width and height may be any number, zero included.
pub open spec fn header_valid(b: Seq<u8>) -> bool {
    &&& b.len() == 14
    &&& b.subrange(0, 4) == magic()
    &&& (b[12] == 3 || b[12] == 4)
    &&& (b[13] == 0 || b[13] == 1)
}

/// What is wrong with fourteen bytes that are no valid header, in the order
/// in which a header is checked: the magic letters first, then the channel
/// byte, then the colorspace byte.
pub open spec fn header_fault(b: Seq<u8>) -> Seq<char>
    recommends
        b.len() == 14,
        !header_valid(b),
{
    if b.subrange(0, 4) != magic() {
        "Magic bytes do not read qoif"@
    } else if !(b[12] == 3 || b[12] == 4) {
        "Unknown value for channels"@
    } else {
        "Unknown value for colorspace"@
    }
}

/// The header that the valid header bytes `b` stand for.
pub open spec fn header_of(b: Seq<u8>) -> Header
    recommends
        header_valid(b),
{
    Header {
        magic: [b[0], b[1], b[2], b[3]],
        width: be_u32(b.subrange(4, 8)) as u32,
        height: be_u32(b.subrange(8, 12)) as u32,
        channels: Channels::of_code(b[12]),
        colorspace: Colorspace::of_code(b[13]),
    }
}

/// Calls `byteorder::BigEndian::read_u32`, which reads the first four bytes
/// of `buf` as a big-endian number and panics on a shorter buffer. The
/// contract takes that reading on trust.
#[verifier::external_body]
fn read_u32_be(buf: &[u8]) -> (v: u32)
    requires
        buf@.len() >= 4,
    ensures
        v as int == be_u32(buf@),
{
    BigEndian::read_u32(buf)
}

impl Header {
    /// The number of pixels the opcode stream must decode to.
    pub open spec fn pixel_count(self) -> nat {
        (self.width * self.height) as nat
    }

    /// The fourteen bytes that stand for this header.
    pub open spec fn to_seq(self) -> Seq<u8> {
        self.magic@ + be_bytes(self.width) + be_bytes(self.height) + seq![
            self.channels.code(),
            self.colorspace.code(),
        ]
    }

    /// Validates fourteen bytes and reads the header they stand for: the
    /// magic letters first, then width and height, then the channel byte,
    /// then the colorspace byte.
    pub fn from_bytes(data: &[u8; 14]) -> (res: Result<Header, Error>)
        ensures
            res is Ok <==> header_valid(data@),
            res matches Ok(h) ==> h == header_of(data@),
            res matches Err(e) ==> e is HeaderParseError && e.text() == header_fault(data@),
    {
        let magic: [u8; 4] = [data[0], data[1], data[2], data[3]];
        assert(data@.subrange(0, 4) =~= magic@);
        if magic[0] != 0x71 || magic[1] != 0x6f || magic[2] != 0x69 || magic[3] != 0x66 {
            assert(magic@ != self::magic());
            return Err(Error::HeaderParseError("Magic bytes do not read qoif".to_owned()));
        }
        assert(magic@ =~= self::magic());
        let bytes = data.as_slice();
        let width = read_u32_be(slice_subrange(bytes, 4, 8));
        let height = read_u32_be(slice_subrange(bytes, 8, 12));
        let channels = match Channels::try_from(data[12]) {
            Ok(c) => c,
            Err(e) => {
                return Err(e);
            },
        };
        let colorspace = match Colorspace::try_from(data[13]) {
            Ok(c) => c,
            Err(e) => {
                return Err(e);
            },
        };
        Ok(Header { magic, width, height, channels, colorspace })
    }
}

/// The quotients and remainders of a number made of four bytes, the most
/// significant first.
proof fn lemma_be_digits(b0: u8, b1: u8, b2: u8, b3: u8)
    ensures
        ({
            let v = b0 * 0x100_0000 + b1 * 0x1_0000 + b2 * 0x100 + b3;
            &&& 0 <= v <= u32::MAX
            &&& v / 0x100_0000 == b0
            &&& (v / 0x1_0000) % 0x100 == b1
            &&& (v / 0x100) % 0x100 == b2
            &&& v % 0x100 == b3
        }),
{
    let v: int = b0 * 0x100_0000 + b1 * 0x1_0000 + b2 * 0x100 + b3;
    lemma_fundamental_div_mod_converse(v, 0x100_0000, b0 as int, b1 * 0x1_0000 + b2 * 0x100 + b3);
    lemma_fundamental_div_mod_converse(v, 0x1_0000, b0 * 0x100 + b1, b2 * 0x100 + b3);
    lemma_fundamental_div_mod_converse(b0 * 0x100 + b1, 0x100, b0 as int, b1 as int);
    lemma_fundamental_div_mod_converse(v, 0x100, b0 * 0x1_0000 + b1 * 0x100 + b2, b3 as int);
    lemma_fundamental_div_mod_converse(b0 * 0x1_0000 + b1 * 0x100 + b2, 0x100, b0 * 0x100 + b1, b2 as int);
}

/// Four bytes read as a big-endian number fit in 32 bits, and the number's
/// big-endian form is those four bytes.
pub proof fn lemma_be_bytes_of(b: Seq<u8>)
    requires
        b.len() == 4,
    ensures
        0 <= be_u32(b) <= u32::MAX,
        be_bytes(be_u32(b) as u32) == b,
{
    lemma_be_digits(b[0], b[1], b[2], b[3]);
    assert(be_bytes(be_u32(b) as u32) =~= b);
}

/// Big-endian bytes read back give the number they were made from.
pub proof fn lemma_be_round_trip(v: u32)
    ensures
        be_bytes(v).len() == 4,
        be_u32(be_bytes(v)) == v,
{
    let x: int = v as int;
    lemma_fundamental_div_mod(x, 0x100);
    lemma_fundamental_div_mod(x / 0x100, 0x100);
    lemma_fundamental_div_mod(x / 0x1_0000, 0x100);
    lemma_div_denominator(x, 0x100, 0x100);
    lemma_div_denominator(x, 0x1_0000, 0x100);
    assert(0x100 * 0x100 == 0x1_0000 && 0x1_0000 * 0x100 == 0x100_0000);
    let q3: int = x / 0x100_0000;
    assert(q3 < 0x100);
}

/// A header written out as its fourteen bytes and parsed again is the header
/// it was: the bytes are valid, and they stand for the same magic, width,
/// height, channel count and colorspace.
pub proof fn lemma_header_round_trip(h: Header)
    requires
        h.magic@ == magic(),
    ensures
        header_valid(h.to_seq()),
        header_of(h.to_seq()) == h,
{
    let b = h.to_seq();
    assert(b.subrange(0, 4) =~= h.magic@);
    assert(b.subrange(4, 8) =~= be_bytes(h.width));
    assert(b.subrange(8, 12) =~= be_bytes(h.height));
    assert(be_u32(b.subrange(4, 8)) == h.width) by {
        lemma_be_round_trip(h.width);
    }
    assert(be_u32(b.subrange(8, 12)) == h.height) by {
        lemma_be_round_trip(h.height);
    }
    let parsed = header_of(b);
    assert(parsed.magic =~= h.magic);
    assert(parsed.width == h.width);
    assert(parsed.height == h.height);
    assert(parsed.channels == h.channels);
    assert(parsed.colorspace == h.colorspace);
}

/// Valid header bytes are the only bytes that stand for their header: writing
/// the parsed header out gives the same fourteen bytes back.
pub proof fn lemma_header_bytes_unique(b: Seq<u8>)
    requires
        header_valid(b),
    ensures
        header_of(b).magic@ == magic(),
        header_of(b).to_seq() == b,
{
    let h = header_of(b);
    assert(h.magic@ =~= b.subrange(0, 4));
    lemma_be_bytes_of(b.subrange(4, 8));
    lemma_be_bytes_of(b.subrange(8, 12));
    assert(h.to_seq() =~= b);
}

} // verus!
