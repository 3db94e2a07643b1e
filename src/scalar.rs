//! Big-endian fixed-width scalars, as they are stored in font files.
use vstd::prelude::*;

verus! {

/// The unsigned integer that the bytes `b` encode, most significant first.
pub open spec fn be_uint(b: Seq<u8>) -> nat
    decreases b.len(),
{
    if b.len() == 0 {
        0
    } else {
        be_uint(b.drop_last()) * 256 + b.last() as nat
    }
}

/// The two's-complement reading of `v` as a signed integer of `bits` bits.
pub open spec fn to_signed(v: nat, bits: nat) -> int {
    if v < pow2(bits) / 2 {
        v as int
    } else {
        v - pow2(bits)
    }
}

pub open spec fn pow2(n: nat) -> nat
    decreases n,
{
    if n == 0 {
        1
    } else {
        2 * pow2((n - 1) as nat)
    }
}

/// A value with a fixed-width big-endian encoding.
pub trait Scalar: Sized + Copy {
    /// Width of the encoding, in bytes.
    spec fn spec_width() -> nat;

    /// The value encoded by the first `spec_width()` bytes of `bytes`.
    spec fn spec_decode(bytes: Seq<u8>) -> Self;

    fn width() -> (n: usize)
        ensures
            n == Self::spec_width(),
            n > 0,
    ;

    /// Decodes `bytes`, which must be exactly as long as the encoding.
    fn read(bytes: &[u8]) -> (r: Option<Self>)
        ensures
            bytes@.len() == Self::spec_width() ==> r == Some(Self::spec_decode(bytes@)),
            bytes@.len() != Self::spec_width() ==> r is None,
    ;
}

/// Relies on `font_types::Scalar::read` for `u8`: a slice of exactly one byte
/// gives that byte, any other length gives `None`.
#[verifier::external_body]
fn font_types_read_u8(bytes: &[u8]) -> (r: Option<u8>)
    ensures
        bytes@.len() == 1 ==> r == Some(bytes@[0]),
        bytes@.len() != 1 ==> r is None,
{
    <u8 as font_types::Scalar>::read(bytes)
}

/// Relies on `font_types::Scalar::read` for `i8`: a slice of exactly one byte
/// gives its two's-complement value, any other length gives `None`.
#[verifier::external_body]
fn font_types_read_i8(bytes: &[u8]) -> (r: Option<i8>)
    ensures
        bytes@.len() == 1 ==> r == Some(to_signed(be_uint(bytes@), 8) as i8),
        bytes@.len() != 1 ==> r is None,
{
    <i8 as font_types::Scalar>::read(bytes)
}

/// Relies on `font_types::Scalar::read` for `u16`: a slice of exactly two bytes
/// gives their big-endian value, any other length gives `None`.
#[verifier::external_body]
fn font_types_read_u16(bytes: &[u8]) -> (r: Option<u16>)
    ensures
        bytes@.len() == 2 ==> r == Some(be_uint(bytes@) as u16),
        bytes@.len() != 2 ==> r is None,
{
    <u16 as font_types::Scalar>::read(bytes)
}

/// Relies on `font_types::Scalar::read` for `i16`: a slice of exactly two bytes
/// gives their big-endian two's-complement value, any other length gives `None`.
#[verifier::external_body]
fn font_types_read_i16(bytes: &[u8]) -> (r: Option<i16>)
    ensures
        bytes@.len() == 2 ==> r == Some(to_signed(be_uint(bytes@), 16) as i16),
        bytes@.len() != 2 ==> r is None,
{
    <i16 as font_types::Scalar>::read(bytes)
}

/// Relies on `font_types::Scalar::read` for `u32`: a slice of exactly four bytes
/// gives their big-endian value, any other length gives `None`.
#[verifier::external_body]
fn font_types_read_u32(bytes: &[u8]) -> (r: Option<u32>)
    ensures
        bytes@.len() == 4 ==> r == Some(be_uint(bytes@) as u32),
        bytes@.len() != 4 ==> r is None,
{
    <u32 as font_types::Scalar>::read(bytes)
}

impl Scalar for u8 {
    open spec fn spec_width() -> nat {
        1
    }

    open spec fn spec_decode(bytes: Seq<u8>) -> u8 {
        bytes[0]
    }

    fn width() -> (n: usize) {
        1
    }

    fn read(bytes: &[u8]) -> (r: Option<u8>) {
        font_types_read_u8(bytes)
    }
}

impl Scalar for i8 {
    open spec fn spec_width() -> nat {
        1
    }

    open spec fn spec_decode(bytes: Seq<u8>) -> i8 {
        to_signed(bytes[0] as nat, 8) as i8
    }

    fn width() -> (n: usize) {
        1
    }

    fn read(bytes: &[u8]) -> (r: Option<i8>) {
        let r = font_types_read_i8(bytes);
        proof {
            if bytes@.len() == 1 {
                lemma_be_uint_one(bytes@);
            }
        }
        r
    }
}

impl Scalar for u16 {
    open spec fn spec_width() -> nat {
        2
    }

    open spec fn spec_decode(bytes: Seq<u8>) -> u16 {
        (bytes[0] as nat * 256 + bytes[1] as nat) as u16
    }

    fn width() -> (n: usize) {
        2
    }

    fn read(bytes: &[u8]) -> (r: Option<u16>) {
        let r = font_types_read_u16(bytes);
        proof {
            if bytes@.len() == 2 {
                lemma_be_uint_two(bytes@);
            }
        }
        r
    }
}

impl Scalar for i16 {
    open spec fn spec_width() -> nat {
        2
    }

    open spec fn spec_decode(bytes: Seq<u8>) -> i16 {
        to_signed(bytes[0] as nat * 256 + bytes[1] as nat, 16) as i16
    }

    fn width() -> (n: usize) {
        2
    }

    fn read(bytes: &[u8]) -> (r: Option<i16>) {
        let r = font_types_read_i16(bytes);
        proof {
            if bytes@.len() == 2 {
                lemma_be_uint_two(bytes@);
            }
        }
        r
    }
}

impl Scalar for u32 {
    open spec fn spec_width() -> nat {
        4
    }

    open spec fn spec_decode(bytes: Seq<u8>) -> u32 {
        (((bytes[0] as nat * 256 + bytes[1] as nat) * 256 + bytes[2] as nat) * 256
            + bytes[3] as nat) as u32
    }

    fn width() -> (n: usize) {
        4
    }

    fn read(bytes: &[u8]) -> (r: Option<u32>) {
        let r = font_types_read_u32(bytes);
        proof {
            if bytes@.len() == 4 {
                lemma_be_uint_four(bytes@);
            }
        }
        r
    }
}

/// A glyph's index in the font.
#[derive(Debug, Clone, Copy, PartialEq, Eq, PartialOrd, Ord, Hash, Structural)]
pub struct GlyphId(pub u16);

impl GlyphId {
    pub fn new(raw: u16) -> (g: GlyphId)
        ensures
            g.0 == raw,
    {
        GlyphId(raw)
    }

    pub fn to_u16(self) -> (r: u16)
        ensures
            r == self.0,
    {
        self.0
    }
}

impl Scalar for GlyphId {
    open spec fn spec_width() -> nat {
        2
    }

    open spec fn spec_decode(bytes: Seq<u8>) -> GlyphId {
        GlyphId(u16::spec_decode(bytes))
    }

    fn width() -> (n: usize) {
        2
    }

    fn read(bytes: &[u8]) -> (r: Option<GlyphId>) {
        match <u16 as Scalar>::read(bytes) {
            Some(v) => Some(GlyphId(v)),
            None => None,
        }
    }
}

proof fn lemma_be_uint_one(b: Seq<u8>)
    requires
        b.len() == 1,
    ensures
        be_uint(b) == b[0] as nat,
{
    assert(b.drop_last().len() == 0);
    assert(be_uint(b.drop_last()) == 0);
    assert(b.last() == b[0]);
}

proof fn lemma_be_uint_two(b: Seq<u8>)
    requires
        b.len() == 2,
    ensures
        be_uint(b) == b[0] as nat * 256 + b[1] as nat,
{
    lemma_be_uint_one(b.drop_last());
}

proof fn lemma_be_uint_four(b: Seq<u8>)
    requires
        b.len() == 4,
    ensures
        be_uint(b) == ((b[0] as nat * 256 + b[1] as nat) * 256 + b[2] as nat) * 256 + b[3] as nat,
{
    let b3 = b.drop_last();
    let b2 = b3.drop_last();
    lemma_be_uint_two(b2);
    assert(b2[0] == b[0] && b2[1] == b[1] && b3.last() == b[2] && b.last() == b[3]);
    assert(be_uint(b3) == be_uint(b2) * 256 + b[2] as nat);
}

} // verus!
