//! The `glyf` table: glyph headers, and the parsing of simple glyphs
//! (contours of points) and composite glyphs (references to other glyphs).
use crate::component::DEFINED_COMPONENT_FLAGS;
use crate::font_data::{decode_array, view_result, BeArray, FontData, FontRead, ReadError};
use crate::scalar::Scalar;
use vstd::prelude::*;
use vstd::slice::slice_subrange;

verus! {

/// The `glyf` table: the glyphs one after another. Where each glyph lies is
/// told by the location table.
pub struct Glyf<'a> {
    data: FontData<'a>,
}

impl<'a> View for Glyf<'a> {
    type V = Seq<u8>;

    closed spec fn view(&self) -> Seq<u8> {
        self.data@
    }
}

impl<'a> Glyf<'a> {
    /// The table over `data`; any bytes will do.
    pub fn read(data: FontData<'a>) -> (r: Result<Glyf<'a>, ReadError>)
        ensures
            r is Ok,
            r matches Ok(t) ==> t@ == data@,
    {
        Ok(Glyf { data })
    }

    pub fn bytes(&self) -> (r: &'a [u8])
        ensures
            r@ == self@,
    {
        self.data.as_bytes()
    }

    /// The glyph in the bytes from `start` to `end` (a range that the location
    /// table gives): `OutOfBounds` where the range does not lie in the table,
    /// else what parsing those bytes gives.
    pub fn resolve_glyph(&self, start: usize, end: usize) -> (r: Result<Glyph<'a>, ReadError>)
        ensures
            !(start <= end <= self@.len()) ==> view_result(r) == Err::<GlyphView, ReadError>(
                ReadError::OutOfBounds,
            ),
            start <= end <= self@.len() ==> view_result(r) == spec_read_glyph(
                self@.subrange(start as int, end as int),
            ),
    {
        match self.data.slice(start, end) {
            Some(d) => Glyph::read(d),
            None => Err(ReadError::OutOfBounds),
        }
    }
}

/// Size of a glyph header in bytes.
pub const HEADER_LEN: usize = 10;

/// The header that starts every glyph.
#[derive(Debug, Clone, Copy, PartialEq, Eq, Structural)]
pub struct GlyphHeader {
    /// Non-negative for a simple glyph, negative for a composite glyph.
    pub number_of_contours: i16,
    pub x_min: i16,
    pub y_min: i16,
    pub x_max: i16,
    pub y_max: i16,
}

/// The big-endian `i16` at `pos` of `data`.
pub open spec fn i16_at(data: Seq<u8>, pos: int) -> i16 {
    i16::spec_decode(data.subrange(pos, pos + 2))
}

/// The big-endian `u16` at `pos` of `data`.
pub open spec fn u16_at(data: Seq<u8>, pos: int) -> u16 {
    u16::spec_decode(data.subrange(pos, pos + 2))
}

/// The header in the first ten bytes of `data`.
pub open spec fn spec_header(data: Seq<u8>) -> GlyphHeader {
    GlyphHeader {
        number_of_contours: i16_at(data, 0),
        x_min: i16_at(data, 2),
        y_min: i16_at(data, 4),
        x_max: i16_at(data, 6),
        y_max: i16_at(data, 8),
    }
}

impl GlyphHeader {
    /// The header at the start of `data`, or `OutOfBounds`.
    pub fn read(data: &FontData) -> (r: Result<GlyphHeader, ReadError>)
        ensures
            data@.len() >= HEADER_LEN ==> r == Ok::<GlyphHeader, ReadError>(spec_header(data@)),
            data@.len() < HEADER_LEN ==> r == Err::<GlyphHeader, ReadError>(ReadError::OutOfBounds),
    {
        if data.len() < HEADER_LEN {
            return Err(ReadError::OutOfBounds);
        }
        let number_of_contours = match data.read_at::<i16>(0) {
            Ok(v) => v,
            Err(e) => return Err(e),
        };
        let x_min = match data.read_at::<i16>(2) {
            Ok(v) => v,
            Err(e) => return Err(e),
        };
        let y_min = match data.read_at::<i16>(4) {
            Ok(v) => v,
            Err(e) => return Err(e),
        };
        let x_max = match data.read_at::<i16>(6) {
            Ok(v) => v,
            Err(e) => return Err(e),
        };
        let y_max = match data.read_at::<i16>(8) {
            Ok(v) => v,
            Err(e) => return Err(e),
        };
        Ok(GlyphHeader { number_of_contours, x_min, y_min, x_max, y_max })
    }

    pub fn number_of_contours(&self) -> (r: i16)
        ensures
            r == self.number_of_contours,
    {
        self.number_of_contours
    }

    pub fn x_min(&self) -> (r: i16)
        ensures
            r == self.x_min,
    {
        self.x_min
    }

    pub fn y_min(&self) -> (r: i16)
        ensures
            r == self.y_min,
    {
        self.y_min
    }

    pub fn x_max(&self) -> (r: i16)
        ensures
            r == self.x_max,
    {
        self.x_max
    }

    pub fn y_max(&self) -> (r: i16)
        ensures
            r == self.y_max,
    {
        self.y_max
    }
}

/// A glyph made of contours: the ends of its contours, its instructions and
/// the packed flags and coordinates of its points.
pub struct SimpleGlyph<'a> {
    header: GlyphHeader,
    end_pts_of_contours: BeArray<'a, u16>,
    instruction_length: u16,
    instructions: &'a [u8],
    glyph_data: &'a [u8],
}

/// What a simple glyph holds.
pub struct SimpleGlyphView {
    pub header: GlyphHeader,
    /// The index of the last point of each contour.
    pub end_points: Seq<u16>,
    pub instruction_length: u16,
    pub instructions: Seq<u8>,
    /// Flags, then x coordinates, then y coordinates (and any trailing bytes).
    pub glyph_data: Seq<u8>,
}

impl<'a> View for SimpleGlyph<'a> {
    type V = SimpleGlyphView;

    closed spec fn view(&self) -> SimpleGlyphView {
        SimpleGlyphView {
            header: self.header,
            end_points: self.end_pts_of_contours@,
            instruction_length: self.instruction_length,
            instructions: self.instructions@,
            glyph_data: self.glyph_data@,
        }
    }
}

/// What parsing a simple glyph from `data` gives: the header, then one `u16`
/// per contour, then the instruction length and the instructions; the rest is
/// the glyph data.
pub open spec fn spec_read_simple(data: Seq<u8>) -> Result<SimpleGlyphView, ReadError> {
    if data.len() < HEADER_LEN {
        Err(ReadError::OutOfBounds)
    } else {
        let header = spec_header(data);
        let n = header.number_of_contours as int;
        let ends_end = HEADER_LEN + 2 * n;
        if n < 0 {
            Err(ReadError::InvalidFormat(header.number_of_contours as u16))
        } else if data.len() < ends_end + 2 {
            Err(ReadError::OutOfBounds)
        } else {
            let instr_len = u16_at(data, ends_end) as int;
            let instr_end = ends_end + 2 + instr_len;
            if data.len() < instr_end {
                Err(ReadError::OutOfBounds)
            } else {
                Ok(
                    SimpleGlyphView {
                        header,
                        end_points: decode_array::<u16>(data.subrange(HEADER_LEN as int, ends_end)),
                        instruction_length: u16_at(data, ends_end),
                        instructions: data.subrange(ends_end + 2, instr_end),
                        glyph_data: data.subrange(instr_end, data.len() as int),
                    },
                )
            }
        }
    }
}

impl<'a> SimpleGlyph<'a> {
    pub fn read(data: FontData<'a>) -> (r: Result<SimpleGlyph<'a>, ReadError>)
        ensures
            view_result(r) == spec_read_simple(data@),
    {
        let header = match GlyphHeader::read(&data) {
            Ok(h) => h,
            Err(e) => return Err(e),
        };
        if header.number_of_contours < 0 {
            return Err(ReadError::InvalidFormat(header.number_of_contours as u16));
        }
        let n = header.number_of_contours as usize;
        let ends_end = HEADER_LEN + 2 * n;
        if data.len() < ends_end + 2 {
            return Err(ReadError::OutOfBounds);
        }
        let end_pts_of_contours = match data.read_array::<u16>(HEADER_LEN..ends_end) {
            Ok(a) => a,
            Err(e) => return Err(e),
        };
        let instruction_length = match data.read_at::<u16>(ends_end) {
            Ok(v) => v,
            Err(e) => return Err(e),
        };
        let instr_end = ends_end + 2 + instruction_length as usize;
        if data.len() < instr_end {
            return Err(ReadError::OutOfBounds);
        }
        let bytes = data.as_bytes();
        let instructions = slice_subrange(bytes, ends_end + 2, instr_end);
        let glyph_data = slice_subrange(bytes, instr_end, bytes.len());
        Ok(SimpleGlyph { header, end_pts_of_contours, instruction_length, instructions, glyph_data })
    }

    pub fn header(&self) -> (r: &GlyphHeader)
        ensures
            *r == self@.header,
    {
        &self.header
    }

    /// The index of the last point of each contour.
    pub fn end_pts_of_contours(&self) -> (r: &BeArray<'a, u16>)
        ensures
            r@ == self@.end_points,
    {
        &self.end_pts_of_contours
    }

    pub fn instruction_length(&self) -> (r: u16)
        ensures
            r == self@.instruction_length,
    {
        self.instruction_length
    }

    pub fn instructions(&self) -> (r: &'a [u8])
        ensures
            r@ == self@.instructions,
    {
        self.instructions
    }

    /// The packed flags and coordinates.
    pub fn glyph_data(&self) -> (r: &'a [u8])
        ensures
            r@ == self@.glyph_data,
    {
        self.glyph_data
    }
}

impl<'a> FontRead<'a> for SimpleGlyph<'a> {
    open spec fn spec_read(data: Seq<u8>) -> Result<SimpleGlyphView, ReadError> {
        spec_read_simple(data)
    }

    fn read(data: FontData<'a>) -> (r: Result<SimpleGlyph<'a>, ReadError>) {
        SimpleGlyph::read(data)
    }
}

/// A glyph made of references to other glyphs.
pub struct CompositeGlyph<'a> {
    header: GlyphHeader,
    flags: u16,
    glyph_index: u16,
    component_data: &'a [u8],
}

/// What a composite glyph holds.
pub struct CompositeGlyphView {
    pub header: GlyphHeader,
    /// The flags of the first component, undefined bits cleared.
    pub flags: u16,
    /// The glyph of the first component.
    pub glyph_index: u16,
    /// The component records, one after another.
    pub component_data: Seq<u8>,
}

impl<'a> View for CompositeGlyph<'a> {
    type V = CompositeGlyphView;

    closed spec fn view(&self) -> CompositeGlyphView {
        CompositeGlyphView {
            header: self.header,
            flags: self.flags,
            glyph_index: self.glyph_index,
            component_data: self.component_data@,
        }
    }
}

/// What parsing a composite glyph from `data` gives: the header, then the
/// component records, the first of which must hold at least its flags and
/// glyph.
pub open spec fn spec_read_composite(data: Seq<u8>) -> Result<CompositeGlyphView, ReadError> {
    if data.len() < HEADER_LEN + 4 {
        Err(ReadError::OutOfBounds)
    } else {
        Ok(
            CompositeGlyphView {
                header: spec_header(data),
                flags: u16_at(data, HEADER_LEN as int) & DEFINED_COMPONENT_FLAGS,
                glyph_index: u16_at(data, HEADER_LEN + 2),
                component_data: data.subrange(HEADER_LEN as int, data.len() as int),
            },
        )
    }
}

impl<'a> CompositeGlyph<'a> {
    pub fn read(data: FontData<'a>) -> (r: Result<CompositeGlyph<'a>, ReadError>)
        ensures
            view_result(r) == spec_read_composite(data@),
    {
        let header = match GlyphHeader::read(&data) {
            Ok(h) => h,
            Err(e) => return Err(e),
        };
        let flags = match data.read_at::<u16>(HEADER_LEN) {
            Ok(v) => v & DEFINED_COMPONENT_FLAGS,
            Err(e) => return Err(e),
        };
        let glyph_index = match data.read_at::<u16>(HEADER_LEN + 2) {
            Ok(v) => v,
            Err(e) => return Err(e),
        };
        let bytes = data.as_bytes();
        let component_data = slice_subrange(bytes, HEADER_LEN, bytes.len());
        Ok(CompositeGlyph { header, flags, glyph_index, component_data })
    }

    pub fn header(&self) -> (r: &GlyphHeader)
        ensures
            *r == self@.header,
    {
        &self.header
    }

    /// The flags of the first component, undefined bits cleared.
    pub fn flags(&self) -> (r: u16)
        ensures
            r == self@.flags,
    {
        self.flags
    }

    /// The glyph of the first component.
    pub fn glyph_index(&self) -> (r: u16)
        ensures
            r == self@.glyph_index,
    {
        self.glyph_index
    }

    /// The bytes after the first component's flags and glyph.
    pub fn offset_data(&self) -> (r: &'a [u8])
        requires
            self@.component_data.len() >= 4,
        ensures
            r@ == self@.component_data.subrange(4, self@.component_data.len() as int),
    {
        slice_subrange(self.component_data, 4, self.component_data.len())
    }

    /// The component records.
    pub fn component_data(&self) -> (r: &'a [u8])
        ensures
            r@ == self@.component_data,
    {
        self.component_data
    }
}

impl<'a> FontRead<'a> for CompositeGlyph<'a> {
    open spec fn spec_read(data: Seq<u8>) -> Result<CompositeGlyphView, ReadError> {
        spec_read_composite(data)
    }

    fn read(data: FontData<'a>) -> (r: Result<CompositeGlyph<'a>, ReadError>) {
        CompositeGlyph::read(data)
    }
}

/// A glyph: simple or composite.
pub enum Glyph<'a> {
    Simple(SimpleGlyph<'a>),
    Composite(CompositeGlyph<'a>),
}

pub enum GlyphView {
    Simple(SimpleGlyphView),
    Composite(CompositeGlyphView),
}

impl<'a> View for Glyph<'a> {
    type V = GlyphView;

    open spec fn view(&self) -> GlyphView {
        match self {
            Glyph::Simple(g) => GlyphView::Simple(g@),
            Glyph::Composite(g) => GlyphView::Composite(g@),
        }
    }
}

impl GlyphView {
    pub open spec fn header(&self) -> GlyphHeader {
        match self {
            GlyphView::Simple(g) => g.header,
            GlyphView::Composite(g) => g.header,
        }
    }
}

/// What parsing a glyph from `data` gives: a simple glyph where its contour
/// count is non-negative, else a composite glyph.
pub open spec fn spec_read_glyph(data: Seq<u8>) -> Result<GlyphView, ReadError> {
    if data.len() < 2 {
        Err(ReadError::OutOfBounds)
    } else if i16_at(data, 0) >= 0 {
        match spec_read_simple(data) {
            Ok(g) => Ok(GlyphView::Simple(g)),
            Err(e) => Err(e),
        }
    } else {
        match spec_read_composite(data) {
            Ok(g) => Ok(GlyphView::Composite(g)),
            Err(e) => Err(e),
        }
    }
}

impl<'a> Glyph<'a> {
    pub fn read(data: FontData<'a>) -> (r: Result<Glyph<'a>, ReadError>)
        ensures
            view_result(r) == spec_read_glyph(data@),
    {
        let number_of_contours = match data.read_at::<i16>(0) {
            Ok(v) => v,
            Err(e) => return Err(e),
        };
        if number_of_contours >= 0 {
            match SimpleGlyph::read(data) {
                Ok(g) => Ok(Glyph::Simple(g)),
                Err(e) => Err(e),
            }
        } else {
            match CompositeGlyph::read(data) {
                Ok(g) => Ok(Glyph::Composite(g)),
                Err(e) => Err(e),
            }
        }
    }

    pub fn header(&self) -> (r: &GlyphHeader)
        ensures
            *r == self@.header(),
    {
        match self {
            Glyph::Simple(g) => g.header(),
            Glyph::Composite(g) => g.header(),
        }
    }

    pub fn number_of_contours(&self) -> (r: i16)
        ensures
            r == self@.header().number_of_contours,
    {
        self.header().number_of_contours
    }

    pub fn x_min(&self) -> (r: i16)
        ensures
            r == self@.header().x_min,
    {
        self.header().x_min
    }

    pub fn y_min(&self) -> (r: i16)
        ensures
            r == self@.header().y_min,
    {
        self.header().y_min
    }

    pub fn x_max(&self) -> (r: i16)
        ensures
            r == self@.header().x_max,
    {
        self.header().x_max
    }

    pub fn y_max(&self) -> (r: i16)
        ensures
            r == self@.header().y_max,
    {
        self.header().y_max
    }
}

impl<'a> FontRead<'a> for Glyph<'a> {
    open spec fn spec_read(data: Seq<u8>) -> Result<GlyphView, ReadError> {
        spec_read_glyph(data)
    }

    fn read(data: FontData<'a>) -> (r: Result<Glyph<'a>, ReadError>) {
        Glyph::read(data)
    }
}

} // verus!
