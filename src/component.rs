//! The component records of composite glyphs.
use crate::font_data::{saturating_usize, Cursor, FontData};
use crate::glyf::{i16_at, u16_at, CompositeGlyph};
use crate::scalar::{GlyphId, Scalar};
use vstd::prelude::*;

verus! {

/// The defined component flag bits; reading a flag word clears all others.
pub const DEFINED_COMPONENT_FLAGS: u16 = 0x1FEF;

/// Component flag bit: the two arguments are 16-bit, else 8-bit.
pub const ARG_1_AND_2_ARE_WORDS: u16 = 0x0001;

/// Component flag bit: the arguments are a signed x/y offset, else unsigned
/// point numbers.
pub const ARGS_ARE_XY_VALUES: u16 = 0x0002;

/// Component flag bit: round the x/y offset to the grid.
pub const ROUND_XY_TO_GRID: u16 = 0x0004;

/// Component flag bit: one scale follows (2 bytes).
pub const WE_HAVE_A_SCALE: u16 = 0x0008;

/// Component flag bit: another component follows this one.
pub const MORE_COMPONENTS: u16 = 0x0020;

/// Component flag bit: separate x and y scales follow (4 bytes).
pub const WE_HAVE_AN_X_AND_Y_SCALE: u16 = 0x0040;

/// Component flag bit: a 2x2 transformation follows (8 bytes).
pub const WE_HAVE_A_TWO_BY_TWO: u16 = 0x0080;

/// Component flag bit: instructions follow the last component.
pub const WE_HAVE_INSTRUCTIONS: u16 = 0x0100;

/// Component flag bit: the composite takes this component's metrics.
pub const USE_MY_METRICS: u16 = 0x0200;

/// Component flag bit: the components overlap.
pub const OVERLAP_COMPOUND: u16 = 0x0400;

/// Component flag bit: the offset is scaled.
pub const SCALED_COMPONENT_OFFSET: u16 = 0x0800;

/// Component flag bit: the offset is not scaled.
pub const UNSCALED_COMPONENT_OFFSET: u16 = 0x1000;

/// Where a component goes: an x/y offset, or a point of the composite to
/// attach to a point of the component.
#[derive(Debug, Clone, Copy, PartialEq, Eq, Structural)]
pub enum ComponentPos {
    Offset { x: i16, y: i16 },
    Point { base: u16, component: u16 },
}

/// A reference to another glyph, part of a composite glyph.
#[derive(Debug, Clone, Copy, PartialEq, Eq, Structural)]
pub struct Component {
    /// The record's flag word, undefined bits cleared.
    pub flags: u16,
    pub glyph: GlyphId,
    pub pos: ComponentPos,
}

/// The value of a field of a parsed record.
#[derive(Debug, Clone, Copy, PartialEq, Eq, Structural)]
pub enum FieldValue {
    U16(u16),
    I16(i16),
    GlyphId(GlyphId),
}

/// A named field of a parsed record.
#[derive(Debug, Clone, Copy)]
pub struct Field {
    pub name: &'static str,
    pub value: FieldValue,
}

/// The fields of a component, in order: its flags, its glyph, then `x` and
/// `y` for an offset or `base` and `component` for attached points.
pub open spec fn component_field(c: Component, idx: int) -> Option<(Seq<char>, FieldValue)> {
    if idx == 0 {
        Some(("flags"@, FieldValue::U16(c.flags)))
    } else if idx == 1 {
        Some(("glyph"@, FieldValue::GlyphId(c.glyph)))
    } else if idx == 2 {
        match c.pos {
            ComponentPos::Point { base, .. } => Some(("base"@, FieldValue::U16(base))),
            ComponentPos::Offset { x, .. } => Some(("x"@, FieldValue::I16(x))),
        }
    } else if idx == 3 {
        match c.pos {
            ComponentPos::Point { component, .. } => Some(("component"@, FieldValue::U16(component))),
            ComponentPos::Offset { y, .. } => Some(("y"@, FieldValue::I16(y))),
        }
    } else {
        None
    }
}

impl Component {
    /// The field at `idx`, in a fixed order; `None` past the last.
    pub fn get_field(&self, idx: usize) -> (r: Option<Field>)
        ensures
            r is None <==> component_field(*self, idx as int) is None,
            r matches Some(f) ==> component_field(*self, idx as int) == Some((f.name@, f.value)),
    {
        if idx == 0 {
            Some(Field { name: "flags", value: FieldValue::U16(self.flags) })
        } else if idx == 1 {
            Some(Field { name: "glyph", value: FieldValue::GlyphId(self.glyph) })
        } else if idx == 2 {
            match self.pos {
                ComponentPos::Point { base, .. } => Some(
                    Field { name: "base", value: FieldValue::U16(base) },
                ),
                ComponentPos::Offset { x, .. } => Some(Field { name: "x", value: FieldValue::I16(x) }),
            }
        } else if idx == 3 {
            match self.pos {
                ComponentPos::Point { component, .. } => Some(
                    Field { name: "component", value: FieldValue::U16(component) },
                ),
                ComponentPos::Offset { y, .. } => Some(Field { name: "y", value: FieldValue::I16(y) }),
            }
        } else {
            None
        }
    }
}

/// Bytes per argument of a component: 2 or 1.
pub open spec fn arg_width(flags: u16) -> int {
    if flags & ARG_1_AND_2_ARE_WORDS != 0 {
        2
    } else {
        1
    }
}

/// Bytes of the transform that follows a component's arguments: one of the
/// three scale flags picks 2, 4 or 8 (the first set wins); none picks 0.
pub open spec fn transform_len(flags: u16) -> int {
    if flags & WE_HAVE_A_SCALE != 0 {
        2
    } else if flags & WE_HAVE_AN_X_AND_Y_SCALE != 0 {
        4
    } else if flags & WE_HAVE_A_TWO_BY_TWO != 0 {
        8
    } else {
        0
    }
}

/// The two arguments at `p` of `data`, read as the flags say: signed x/y
/// offsets or unsigned point numbers, of 2 bytes each or 1.
pub open spec fn spec_component_pos(data: Seq<u8>, p: int, flags: u16) -> Option<ComponentPos> {
    let w = arg_width(flags);
    if !(0 <= p && p + 2 * w <= data.len()) {
        None
    } else if flags & ARGS_ARE_XY_VALUES != 0 {
        if w == 2 {
            Some(ComponentPos::Offset { x: i16_at(data, p), y: i16_at(data, p + 2) })
        } else {
            Some(
                ComponentPos::Offset {
                    x: i8::spec_decode(data.subrange(p, p + 1)) as i16,
                    y: i8::spec_decode(data.subrange(p + 1, p + 2)) as i16,
                },
            )
        }
    } else {
        if w == 2 {
            Some(ComponentPos::Point { base: u16_at(data, p), component: u16_at(data, p + 2) })
        } else {
            Some(ComponentPos::Point { base: data[p] as u16, component: data[p + 1] as u16 })
        }
    }
}

/// The component record at `pos` of `data` and the position after it (its
/// transform skipped), or `None` where the record does not fit.
pub open spec fn spec_component_at(data: Seq<u8>, pos: int) -> Option<(Component, int)> {
    if !(0 <= pos && pos + 4 <= data.len()) {
        None
    } else {
        let flags = u16_at(data, pos) & DEFINED_COMPONENT_FLAGS;
        match spec_component_pos(data, pos + 4, flags) {
            None => None,
            Some(cpos) => Some(
                (
                    Component { flags, glyph: GlyphId(u16_at(data, pos + 2)), pos: cpos },
                    saturating_usize(pos + 4 + 2 * arg_width(flags), transform_len(flags)) as int,
                ),
            ),
        }
    }
}

/// The components from `pos` on: each record in turn, up to the first one
/// without `MORE_COMPONENTS`, or up to the first one that does not fit.
pub open spec fn spec_components(data: Seq<u8>, pos: int) -> Seq<Component>
    decreases data.len() - pos,
{
    match spec_component_at(data, pos) {
        None => Seq::empty(),
        Some((c, next)) => if c.flags & MORE_COMPONENTS != 0 && pos < next <= data.len() {
            seq![c] + spec_components(data, next)
        } else {
            seq![c]
        },
    }
}

/// A record without `MORE_COMPONENTS` is the last: the components from it on
/// are that one component alone.
pub proof fn last_component_ends_iteration(data: Seq<u8>, pos: int)
    requires
        spec_component_at(data, pos) matches Some((c, _)) && c.flags & MORE_COMPONENTS == 0,
    ensures
        spec_components(data, pos) == seq![spec_component_at(data, pos).unwrap().0],
{
}

/// The components of a composite glyph, one at a time.
pub struct ComponentIter<'a> {
    done: bool,
    cursor: Cursor<'a>,
}

/// The state of a component iterator.
pub struct ComponentIterView {
    pub done: bool,
    pub data: Seq<u8>,
    pub pos: int,
}

impl<'a> View for ComponentIter<'a> {
    type V = ComponentIterView;

    closed spec fn view(&self) -> ComponentIterView {
        ComponentIterView {
            done: self.done,
            data: self.cursor.data()@,
            pos: self.cursor.pos() as int,
        }
    }
}

/// The components that an iterator in state `s` has left to give.
pub open spec fn components_left(s: ComponentIterView) -> Seq<Component> {
    if s.done {
        Seq::empty()
    } else {
        spec_components(s.data, s.pos)
    }
}

impl<'a> ComponentIter<'a> {
    /// Reads the two arguments of a component with flags `flags`.
    fn read_pos(&mut self, flags: u16) -> (r: Option<ComponentPos>)
        ensures
            final(self).done == old(self).done,
            final(self).cursor.data() == old(self).cursor.data(),
            r == spec_component_pos(old(self)@.data, old(self)@.pos, flags),
            r is Some ==> final(self)@.pos == old(self)@.pos + 2 * arg_width(flags),
    {
        proof {
            self.cursor.lemma_len_fits();
        }
        let words = flags & ARG_1_AND_2_ARE_WORDS != 0;
        let xy = flags & ARGS_ARE_XY_VALUES != 0;
        if xy && words {
            let x = self.cursor.read::<i16>();
            let y = self.cursor.read::<i16>();
            match (x, y) {
                (Ok(x), Ok(y)) => Some(ComponentPos::Offset { x, y }),
                _ => None,
            }
        } else if xy {
            let x = self.cursor.read::<i8>();
            let y = self.cursor.read::<i8>();
            match (x, y) {
                (Ok(x), Ok(y)) => Some(ComponentPos::Offset { x: x as i16, y: y as i16 }),
                _ => None,
            }
        } else if words {
            let base = self.cursor.read::<u16>();
            let component = self.cursor.read::<u16>();
            match (base, component) {
                (Ok(base), Ok(component)) => Some(ComponentPos::Point { base, component }),
                _ => None,
            }
        } else {
            let base = self.cursor.read::<u8>();
            let component = self.cursor.read::<u8>();
            match (base, component) {
                (Ok(base), Ok(component)) => Some(
                    ComponentPos::Point { base: base as u16, component: component as u16 },
                ),
                _ => None,
            }
        }
    }

    /// The next component: `None` once a record without `MORE_COMPONENTS` has
    /// been given, or where the next record does not fit.
    pub fn next(&mut self) -> (r: Option<Component>)
        ensures
            old(self)@.done ==> r is None && final(self)@ == old(self)@,
            !old(self)@.done ==> match spec_component_at(old(self)@.data, old(self)@.pos) {
                None => r is None && final(self)@.done,
                Some((c, next)) => r == Some(c) && final(self)@.pos == next && final(self)@.done
                    == (c.flags & MORE_COMPONENTS == 0),
            },
            final(self)@.data == old(self)@.data,
    {
        if self.done {
            return None;
        }
        let flags = match self.cursor.read::<u16>() {
            Ok(v) => v & DEFINED_COMPONENT_FLAGS,
            Err(_) => {
                self.done = true;
                return None;
            },
        };
        let glyph = match self.cursor.read::<u16>() {
            Ok(v) => GlyphId(v),
            Err(_) => {
                self.done = true;
                return None;
            },
        };
        let pos = match self.read_pos(flags) {
            Some(p) => p,
            None => {
                self.done = true;
                return None;
            },
        };
        let bytes_to_skip: usize = if flags & WE_HAVE_A_SCALE != 0 {
            2
        } else if flags & WE_HAVE_AN_X_AND_Y_SCALE != 0 {
            4
        } else if flags & WE_HAVE_A_TWO_BY_TWO != 0 {
            8
        } else {
            0
        };
        self.cursor.advance_by(bytes_to_skip);
        self.done = flags & MORE_COMPONENTS == 0;
        Some(Component { flags, glyph, pos })
    }
}

impl<'a> CompositeGlyph<'a> {
    /// An iterator over the components, from the first record on.
    pub fn iter_components(&self) -> (r: ComponentIter<'a>)
        ensures
            r@.done == false,
            r@.data == self@.component_data,
            r@.pos == 0,
    {
        ComponentIter { done: false, cursor: FontData::new(self.component_data()).cursor() }
    }

    /// All the components, in order.
    pub fn components(&self) -> (r: Vec<Component>)
        ensures
            r@ == spec_components(self@.component_data, 0),
    {
        let mut iter = self.iter_components();
        let mut out: Vec<Component> = Vec::new();
        loop
            invariant
                iter@.data == self@.component_data,
                0 <= iter@.pos,
                out@ + components_left(iter@) == spec_components(self@.component_data, 0),
            decreases (if iter@.done {
                0
            } else if iter@.pos <= iter@.data.len() {
                1 + iter@.data.len() - iter@.pos
            } else {
                1
            }),
        {
            let ghost before = iter@;
            proof {
                iter.cursor.lemma_len_fits();
            }
            match iter.next() {
                Some(c) => {
                    proof {
                        let (c0, next) = spec_component_at(before.data, before.pos).unwrap();
                        assert(next > before.pos);
                        if !iter@.done && next <= before.data.len() {
                            assert(spec_components(before.data, before.pos) == seq![c]
                                + spec_components(before.data, next));
                        }
                        if !iter@.done && next > before.data.len() {
                            assert(components_left(iter@) == Seq::<Component>::empty());
                        }
                        assert(out@.push(c) + components_left(iter@) == out@ + components_left(
                            before,
                        ));
                    }
                    out.push(c);
                },
                None => {
                    proof {
                        assert(components_left(before) == Seq::<Component>::empty());
                        assert(out@ + Seq::<Component>::empty() == out@);
                    }
                    return out;
                },
            }
        }
    }
}

} // verus!
