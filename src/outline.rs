//! The outline of a simple glyph: measuring its flags and decoding its
//! points.
use crate::font_data::{saturating_usize, BeArray};
use crate::glyf::{i16_at, SimpleGlyph, SimpleGlyphView};
use crate::scalar::Scalar;
use vstd::prelude::*;
use vstd::slice::slice_subrange;

verus! {

/// The defined simple-glyph flag bits; reading a flag byte clears the other.
pub const DEFINED_SIMPLE_FLAGS: u8 = 0x7F;

/// Simple-glyph flag bit: the point is on the curve.
pub const ON_CURVE_POINT: u8 = 0x01;

/// Simple-glyph flag bit: the x delta is one byte, its sign given by
/// `X_IS_SAME_OR_POSITIVE_X_SHORT_VECTOR`.
pub const X_SHORT_VECTOR: u8 = 0x02;

/// Simple-glyph flag bit: the y delta is one byte, its sign given by
/// `Y_IS_SAME_OR_POSITIVE_Y_SHORT_VECTOR`.
pub const Y_SHORT_VECTOR: u8 = 0x04;

/// Simple-glyph flag bit: the next byte counts how many more points this flag
/// applies to.
pub const REPEAT_FLAG: u8 = 0x08;

/// Simple-glyph flag bit: with `X_SHORT_VECTOR`, the delta is positive;
/// without, x repeats the previous x.
pub const X_IS_SAME_OR_POSITIVE_X_SHORT_VECTOR: u8 = 0x10;

/// Simple-glyph flag bit: with `Y_SHORT_VECTOR`, the delta is positive;
/// without, y repeats the previous y.
pub const Y_IS_SAME_OR_POSITIVE_Y_SHORT_VECTOR: u8 = 0x20;

/// Simple-glyph flag bit: contours may overlap.
pub const OVERLAP_SIMPLE: u8 = 0x40;

/// Bytes of the x coordinate of a point with flag `f`: 1 for a short delta,
/// 0 where x repeats, else 2.
pub open spec fn x_width(f: u8) -> int {
    if f & X_SHORT_VECTOR != 0 {
        1
    } else if f & X_IS_SAME_OR_POSITIVE_X_SHORT_VECTOR != 0 {
        0
    } else {
        2
    }
}

/// Bytes of the y coordinate of a point with flag `f`: 1 for a short delta,
/// 0 where y repeats, else 2.
pub open spec fn y_width(f: u8) -> int {
    if f & Y_SHORT_VECTOR != 0 {
        1
    } else if f & Y_IS_SAME_OR_POSITIVE_Y_SHORT_VECTOR != 0 {
        0
    } else {
        2
    }
}

/// Walks the flags of `left` more points from `pos` of `data`, `x` and `y`
/// bytes of coordinates counted so far: where they all fit, the position after
/// the last flag and the x and y byte counts. A flag with `REPEAT_FLAG` is
/// followed by a count `c` and stands for `c + 1` points, which must not be
/// more than are left.
pub open spec fn spec_measure(data: Seq<u8>, pos: int, left: int, x: int, y: int) -> Option<
    (int, int, int),
>
    decreases left,
{
    if left <= 0 {
        Some((pos, x, y))
    } else if !(0 <= pos < data.len()) {
        None
    } else {
        let f = data[pos];
        if f & REPEAT_FLAG != 0 {
            if pos + 1 >= data.len() {
                None
            } else {
                let r = data[pos + 1] as int + 1;
                if r > left {
                    None
                } else {
                    spec_measure(data, pos + 2, left - r, x + r * x_width(f), y + r * y_width(f))
                }
            }
        } else {
            spec_measure(data, pos + 1, left - 1, x + x_width(f), y + y_width(f))
        }
    }
}

/// The byte lengths of the flags and of the x and y coordinates of a simple
/// glyph's points.
#[derive(Debug, Clone, Copy, PartialEq, Eq, Structural)]
pub struct FieldLengths {
    pub flags: u32,
    pub x_coords: u32,
    pub y_coords: u32,
}

/// Measures the flags of `points_total` points at the start of `data`, without
/// decoding the points; `None` where the flags run out or a repeat count goes
/// past the last point.
pub fn resolve_coords_len(data: &[u8], points_total: u16) -> (r: Option<FieldLengths>)
    ensures
        match spec_measure(data@, 0, points_total as int, 0, 0) {
            None => r is None,
            Some((f, x, y)) => r == Some(
                FieldLengths { flags: f as u32, x_coords: x as u32, y_coords: y as u32 },
            ) && 0 <= f <= 2 * points_total && 0 <= x <= 2 * points_total && 0 <= y <= 2
                * points_total,
        },
{
    let mut pos: usize = 0;
    let mut flags_left: u32 = points_total as u32;
    let mut x_coords_len: u32 = 0;
    let mut y_coords_len: u32 = 0;
    while flags_left > 0
        invariant
            flags_left <= points_total,
            pos <= 2 * (points_total - flags_left),
            points_total - flags_left > 0 ==> pos >= 1,
            x_coords_len <= 2 * (points_total - flags_left),
            y_coords_len <= 2 * (points_total - flags_left),
            spec_measure(data@, 0, points_total as int, 0, 0) == spec_measure(
                data@,
                pos as int,
                flags_left as int,
                x_coords_len as int,
                y_coords_len as int,
            ),
        decreases flags_left,
    {
        if pos >= data.len() {
            return None;
        }
        let flags = data[pos];
        pos = pos + 1;
        let repeats: u32 = if flags & REPEAT_FLAG != 0 {
            if pos >= data.len() {
                return None;
            }
            let count = data[pos];
            pos = pos + 1;
            count as u32 + 1
        } else {
            1
        };
        if repeats > flags_left {
            return None;
        }
        let x_width: u32 = if flags & X_SHORT_VECTOR != 0 {
            1
        } else if flags & X_IS_SAME_OR_POSITIVE_X_SHORT_VECTOR != 0 {
            0
        } else {
            2
        };
        let y_width: u32 = if flags & Y_SHORT_VECTOR != 0 {
            1
        } else if flags & Y_IS_SAME_OR_POSITIVE_Y_SHORT_VECTOR != 0 {
            0
        } else {
            2
        };
        proof {
            assert(repeats * x_width <= 2 * repeats) by (nonlinear_arith)
                requires
                    x_width <= 2,
            ;
            assert(repeats * y_width <= 2 * repeats) by (nonlinear_arith)
                requires
                    y_width <= 2,
            ;
        }
        x_coords_len = x_coords_len + repeats * x_width;
        y_coords_len = y_coords_len + repeats * y_width;
        flags_left = flags_left - repeats;
    }
    Some(FieldLengths { flags: pos as u32, x_coords: x_coords_len, y_coords: y_coords_len })
}

/// A point of a glyph's outline.
#[derive(Debug, Clone, Copy, PartialEq, Eq, Structural)]
pub struct Point {
    pub x: i16,
    pub y: i16,
}

/// A decoded point with its role: the last point of a contour, or a point
/// on or off the curve.
#[derive(Debug, Clone, Copy, PartialEq, Eq, Structural)]
pub enum GlyphPoint {
    OffCurve(Point),
    OnCurve(Point),
    End(Point),
}

impl GlyphPoint {
    pub open spec fn spec_point(&self) -> Point {
        match self {
            GlyphPoint::OffCurve(p) => *p,
            GlyphPoint::OnCurve(p) => *p,
            GlyphPoint::End(p) => *p,
        }
    }

    pub fn point(&self) -> (p: Point)
        ensures
            p == self.spec_point(),
    {
        match self {
            GlyphPoint::OffCurve(p) => *p,
            GlyphPoint::OnCurve(p) => *p,
            GlyphPoint::End(p) => *p,
        }
    }
}

/// Decodes the points of a simple glyph, one at a time.
pub struct PointIter<'a> {
    end_points: BeArray<'a, u16>,
    next_end: usize,
    cur_point: u16,
    flags: &'a [u8],
    flags_pos: usize,
    x_coords: &'a [u8],
    x_pos: usize,
    y_coords: &'a [u8],
    y_pos: usize,
    flag_repeats: u8,
    cur_flags: u8,
    cur_x: i16,
    cur_y: i16,
}

/// The state of a point decoder.
pub struct PointState {
    /// The index of the last point of each contour.
    pub end_points: Seq<u16>,
    /// The index in `end_points` of the contour being decoded.
    pub next_end: int,
    /// The index of the next point.
    pub cur_point: u16,
    pub flags: Seq<u8>,
    pub flags_pos: int,
    pub xs: Seq<u8>,
    pub x_pos: int,
    pub ys: Seq<u8>,
    pub y_pos: int,
    /// How many more points the current flag applies to.
    pub flag_repeats: u8,
    pub cur_flags: u8,
    pub x: i16,
    pub y: i16,
}

impl<'a> View for PointIter<'a> {
    type V = PointState;

    closed spec fn view(&self) -> PointState {
        PointState {
            end_points: self.end_points@,
            next_end: self.next_end as int,
            cur_point: self.cur_point,
            flags: self.flags@,
            flags_pos: self.flags_pos as int,
            xs: self.x_coords@,
            x_pos: self.x_pos as int,
            ys: self.y_coords@,
            y_pos: self.y_pos as int,
            flag_repeats: self.flag_repeats,
            cur_flags: self.cur_flags,
            x: self.cur_x,
            y: self.cur_y,
        }
    }
}

/// A read of `w` bytes at `pos` of `data` moves the position on by `w`
/// (saturating) where it was not past the end, and leaves it where it was.
pub open spec fn bumped(data: Seq<u8>, pos: int, w: int) -> int {
    if pos <= data.len() {
        saturating_usize(pos, w) as int
    } else {
        pos
    }
}

/// The byte at `pos` of `data`, 0 where there is none.
pub open spec fn byte_or_zero(data: Seq<u8>, pos: int) -> u8 {
    if 0 <= pos < data.len() {
        data[pos]
    } else {
        0
    }
}

/// The flag of the next point and how many more points it applies to, and
/// the position in the flags after it: the current flag again where it has
/// repeats left, else the defined bits of the next flag byte (0 past the
/// end) and, where that has `REPEAT_FLAG`, the count that follows it (0 past
/// the end).
pub open spec fn next_flags(s: PointState) -> (u8, u8, int) {
    if s.flag_repeats == 0 {
        let f = byte_or_zero(s.flags, s.flags_pos) & DEFINED_SIMPLE_FLAGS;
        let p1 = bumped(s.flags, s.flags_pos, 1);
        if f & REPEAT_FLAG != 0 {
            (f, byte_or_zero(s.flags, p1), bumped(s.flags, p1, 1))
        } else {
            (f, 0, p1)
        }
    } else {
        (s.cur_flags, (s.flag_repeats - 1) as u8, s.flags_pos)
    }
}

/// The coordinate delta at `pos` of `data` and the position after it, as a
/// point's short and same-or-positive bits say: a positive or negative byte,
/// nothing (0), or a signed 16-bit value. A missing value is 0.
pub open spec fn coord_delta(short: bool, same_or_pos: bool, data: Seq<u8>, pos: int) -> (i16, int) {
    if short {
        let v = byte_or_zero(data, pos) as i16;
        let d: i16 = if same_or_pos {
            v
        } else {
            (-v) as i16
        };
        (d, bumped(data, pos, 1))
    } else if same_or_pos {
        (0, pos)
    } else {
        (if 0 <= pos && pos + 2 <= data.len() {
            i16_at(data, pos)
        } else {
            0
        }, bumped(data, pos, 2))
    }
}

/// One step of decoding: where a contour is left, the next point (its
/// coordinates moved by the deltas, wrapping) with its role, and the state
/// after it; else nothing, the state unchanged. A point is the end of its
/// contour where the contour's last index is not above the point's index.
pub open spec fn point_step(s: PointState) -> (PointState, Option<GlyphPoint>) {
    if !(0 <= s.next_end < s.end_points.len()) {
        (s, None)
    } else {
        let is_end = s.end_points[s.next_end] <= s.cur_point;
        let (f, reps, fpos) = next_flags(s);
        let (dx, xpos) = coord_delta(
            f & X_SHORT_VECTOR != 0,
            f & X_IS_SAME_OR_POSITIVE_X_SHORT_VECTOR != 0,
            s.xs,
            s.x_pos,
        );
        let (dy, ypos) = coord_delta(
            f & Y_SHORT_VECTOR != 0,
            f & Y_IS_SAME_OR_POSITIVE_Y_SHORT_VECTOR != 0,
            s.ys,
            s.y_pos,
        );
        let x = s.x.wrapping_add(dx);
        let y = s.y.wrapping_add(dy);
        let p = Point { x, y };
        (
            PointState {
                next_end: if is_end {
                    s.next_end + 1
                } else {
                    s.next_end
                },
                cur_point: if s.cur_point == 65535 {
                    65535
                } else {
                    (s.cur_point + 1) as u16
                },
                flags_pos: fpos,
                x_pos: xpos,
                y_pos: ypos,
                flag_repeats: reps,
                cur_flags: f,
                x,
                y,
                ..s
            },
            Some(
                if is_end {
                    GlyphPoint::End(p)
                } else if f & ON_CURVE_POINT != 0 {
                    GlyphPoint::OnCurve(p)
                } else {
                    GlyphPoint::OffCurve(p)
                },
            ),
        )
    }
}

/// A decoder at the start of the given regions.
pub open spec fn initial_point_state(
    end_points: Seq<u16>,
    flags: Seq<u8>,
    xs: Seq<u8>,
    ys: Seq<u8>,
) -> PointState {
    PointState {
        end_points,
        next_end: 0,
        cur_point: 0,
        flags,
        flags_pos: 0,
        xs,
        x_pos: 0,
        ys,
        y_pos: 0,
        flag_repeats: 0,
        cur_flags: 0,
        x: 0,
        y: 0,
    }
}

/// A bound on the points a decoder has left to give: it falls with each.
pub open spec fn points_measure(s: PointState) -> int {
    (s.end_points.len() - s.next_end) * 65536 + (65535 - s.cur_point)
}

/// Reads the byte at `*pos` of `data`, moving `*pos` on as `bumped` says.
fn bump_u8(data: &[u8], pos: &mut usize) -> (r: Option<u8>)
    ensures
        r == (if 0 <= *old(pos) < data@.len() {
            Some(data@[*old(pos) as int])
        } else {
            None::<u8>
        }),
        *final(pos) == bumped(data@, *old(pos) as int, 1),
{
    if *pos <= data.len() {
        let r = if *pos < data.len() {
            Some(data[*pos])
        } else {
            None
        };
        *pos = if *pos == usize::MAX {
            usize::MAX
        } else {
            *pos + 1
        };
        r
    } else {
        None
    }
}

/// Reads the big-endian `i16` at `*pos` of `data`, moving `*pos` on as
/// `bumped` says.
fn bump_i16(data: &[u8], pos: &mut usize) -> (r: Option<i16>)
    ensures
        r == (if 0 <= *old(pos) && *old(pos) + 2 <= data@.len() {
            Some(i16_at(data@, *old(pos) as int))
        } else {
            None::<i16>
        }),
        *final(pos) == bumped(data@, *old(pos) as int, 2),
{
    if *pos <= data.len() {
        let r = if data.len() - *pos >= 2 {
            <i16 as Scalar>::read(slice_subrange(data, *pos, *pos + 2))
        } else {
            None
        };
        *pos = if *pos >= usize::MAX - 1 {
            usize::MAX
        } else {
            *pos + 2
        };
        r
    } else {
        None
    }
}

/// The delta of one coordinate at `*pos` of `data`, moving `*pos` on.
fn read_delta(short: bool, same_or_pos: bool, data: &[u8], pos: &mut usize) -> (r: i16)
    ensures
        (r, *final(pos) as int) == coord_delta(short, same_or_pos, data@, *old(pos) as int),
{
    if short {
        let v = match bump_u8(data, pos) {
            Some(b) => b as i16,
            None => 0,
        };
        if same_or_pos {
            v
        } else {
            -v
        }
    } else if same_or_pos {
        0
    } else {
        match bump_i16(data, pos) {
            Some(v) => v,
            None => 0,
        }
    }
}

impl<'a> PointIter<'a> {
    /// A decoder at the start of the given regions.
    pub fn new(
        end_points: BeArray<'a, u16>,
        flags: &'a [u8],
        x_coords: &'a [u8],
        y_coords: &'a [u8],
    ) -> (r: PointIter<'a>)
        ensures
            r@ == initial_point_state(end_points@, flags@, x_coords@, y_coords@),
    {
        PointIter {
            end_points,
            next_end: 0,
            cur_point: 0,
            flags,
            flags_pos: 0,
            x_coords,
            x_pos: 0,
            y_coords,
            y_pos: 0,
            flag_repeats: 0,
            cur_flags: 0,
            cur_x: 0,
            cur_y: 0,
        }
    }

    /// Moves to the flag of the next point.
    fn advance_flags(&mut self)
        ensures
            ({
                let (f, reps, fpos) = next_flags(old(self)@);
                final(self)@ == PointState {
                    cur_flags: f,
                    flag_repeats: reps,
                    flags_pos: fpos,
                    ..old(self)@
                }
            }),
    {
        if self.flag_repeats == 0 {
            let byte = match bump_u8(self.flags, &mut self.flags_pos) {
                Some(f) => f,
                None => 0,
            };
            self.cur_flags = byte & DEFINED_SIMPLE_FLAGS;
            self.flag_repeats = if self.cur_flags & REPEAT_FLAG != 0 {
                match bump_u8(self.flags, &mut self.flags_pos) {
                    Some(c) => c,
                    None => 0,
                }
            } else {
                0
            };
        } else {
            self.flag_repeats = self.flag_repeats - 1;
        }
    }

    /// Moves the coordinates by the deltas of the current flag.
    fn advance_points(&mut self)
        ensures
            ({
                let f = old(self)@.cur_flags;
                let (dx, xpos) = coord_delta(
                    f & X_SHORT_VECTOR != 0,
                    f & X_IS_SAME_OR_POSITIVE_X_SHORT_VECTOR != 0,
                    old(self)@.xs,
                    old(self)@.x_pos,
                );
                let (dy, ypos) = coord_delta(
                    f & Y_SHORT_VECTOR != 0,
                    f & Y_IS_SAME_OR_POSITIVE_Y_SHORT_VECTOR != 0,
                    old(self)@.ys,
                    old(self)@.y_pos,
                );
                final(self)@ == PointState {
                    x_pos: xpos,
                    y_pos: ypos,
                    x: old(self)@.x.wrapping_add(dx),
                    y: old(self)@.y.wrapping_add(dy),
                    ..old(self)@
                }
            }),
    {
        let f = self.cur_flags;
        let dx = read_delta(
            f & X_SHORT_VECTOR != 0,
            f & X_IS_SAME_OR_POSITIVE_X_SHORT_VECTOR != 0,
            self.x_coords,
            &mut self.x_pos,
        );
        let dy = read_delta(
            f & Y_SHORT_VECTOR != 0,
            f & Y_IS_SAME_OR_POSITIVE_Y_SHORT_VECTOR != 0,
            self.y_coords,
            &mut self.y_pos,
        );
        self.cur_x = self.cur_x.wrapping_add(dx);
        self.cur_y = self.cur_y.wrapping_add(dy);
    }

    /// The next point, or `None` once the last contour is done.
    pub fn next(&mut self) -> (r: Option<GlyphPoint>)
        ensures
            (final(self)@, r) == point_step(old(self)@),
            old(self)@.next_end <= old(self)@.end_points.len() ==> final(self)@.next_end
                <= final(self)@.end_points.len(),
            old(self)@.next_end <= old(self)@.end_points.len() && r is Some ==> 0 <= points_measure(
                final(self)@,
            ) < points_measure(old(self)@),
    {
        if self.next_end >= self.end_points.len() {
            return None;
        }
        let next_end = match self.end_points.get(self.next_end) {
            Some(e) => e,
            None => return None,
        };
        let is_end = next_end <= self.cur_point;
        if is_end {
            self.next_end = self.next_end + 1;
        }
        self.advance_flags();
        self.advance_points();
        self.cur_point = if self.cur_point == 65535 {
            65535
        } else {
            self.cur_point + 1
        };
        let point = Point { x: self.cur_x, y: self.cur_y };
        if is_end {
            Some(GlyphPoint::End(point))
        } else if self.cur_flags & ON_CURVE_POINT != 0 {
            Some(GlyphPoint::OnCurve(point))
        } else {
            Some(GlyphPoint::OffCurve(point))
        }
    }
}

/// Where the flags and the x and y coordinates of a simple glyph's points lie
/// in its glyph data: their lengths, where the glyph has a contour, its last
/// point index is below 65535, the flags of that many points can be measured,
/// and all three regions fit.
pub open spec fn spec_point_regions(g: SimpleGlyphView) -> Option<(int, int, int)> {
    if g.end_points.len() == 0 || g.end_points.last() == 65535 {
        None
    } else {
        match spec_measure(g.glyph_data, 0, g.end_points.last() + 1, 0, 0) {
            None => None,
            Some((f, x, y)) => if g.glyph_data.len() < f + x + y {
                None
            } else {
                Some((f, x, y))
            },
        }
    }
}

/// The decoder that `iter_points` gives: at the start of the three regions,
/// or, where they cannot be found, with nothing to decode.
pub open spec fn spec_iter_points(g: SimpleGlyphView) -> PointState {
    match spec_point_regions(g) {
        Some((f, x, y)) => initial_point_state(
            g.end_points,
            g.glyph_data.subrange(0, f),
            g.glyph_data.subrange(f, f + x),
            g.glyph_data.subrange(f + x, f + x + y),
        ),
        None => initial_point_state(Seq::empty(), Seq::empty(), Seq::empty(), Seq::empty()),
    }
}

/// The points that a decoder in state `s` has left to give (each point that
/// `next` gives lowers `points_measure`, so none is left out).
pub open spec fn points_from(s: PointState) -> Seq<GlyphPoint>
    decreases points_measure(s),
{
    let (s2, r) = point_step(s);
    match r {
        None => Seq::empty(),
        Some(p) => if 0 <= points_measure(s2) < points_measure(s) {
            seq![p] + points_from(s2)
        } else {
            seq![p]
        },
    }
}

/// Contour ends in strictly increasing order.
pub open spec fn ends_increasing(e: Seq<u16>) -> bool {
    forall|a: int, b: int| 0 <= a < b < e.len() ==> e[a] < e[b]
}

/// With contour ends in strictly increasing order, a decoder gives one point
/// per index up to the last contour end, and point `i` is the end of a
/// contour exactly when `i` is one of the contour ends, whatever the flags
/// and coordinates.
pub proof fn end_points_follow_contour_ends(
    end_points: Seq<u16>,
    flags: Seq<u8>,
    xs: Seq<u8>,
    ys: Seq<u8>,
)
    requires
        end_points.len() > 0,
        ends_increasing(end_points),
    ensures
        points_from(initial_point_state(end_points, flags, xs, ys)).len() == end_points.last()
            + 1,
        forall|i: int|
            0 <= i < points_from(initial_point_state(end_points, flags, xs, ys)).len() ==> (
            #[trigger] points_from(initial_point_state(end_points, flags, xs, ys))[i] is End
                <==> end_points.contains(i as u16)),
{
    let s = initial_point_state(end_points, flags, xs, ys);
    lemma_point_roles(s);
    assert forall|i: int|
        0 <= i < points_from(s).len() implies (#[trigger] points_from(s)[i] is End
        <==> end_points.contains(i as u16)) by {
        if points_from(s)[i] is End {
            let j = choose|j: int| 0 <= j < end_points.len() && end_points[j] == i;
            assert(end_points[j] == i as u16);
        }
        if end_points.contains(i as u16) {
            let j = choose|j: int| 0 <= j < end_points.len() && end_points[j] == i as u16;
            assert(end_points[j] == s.cur_point + i);
        }
    }
}

/// The points left from a state whose next contour end is not below the
/// current index, and whose earlier ends are all below it.
proof fn lemma_point_roles(s: PointState)
    requires
        s.end_points.len() > 0,
        ends_increasing(s.end_points),
        0 <= s.next_end <= s.end_points.len(),
        s.next_end < s.end_points.len() ==> s.cur_point <= s.end_points[s.next_end],
        forall|j: int| 0 <= j < s.next_end ==> #[trigger] s.end_points[j] < s.cur_point,
    ensures
        s.next_end == s.end_points.len() ==> points_from(s).len() == 0,
        s.next_end < s.end_points.len() ==> points_from(s).len() == s.end_points.last()
            - s.cur_point + 1,
        s.next_end < s.end_points.len() ==> forall|t: int|
            0 <= t < points_from(s).len() ==> (#[trigger] points_from(s)[t] is End <==> exists|
                j: int,
            |
                0 <= j < s.end_points.len() && s.end_points[j] == s.cur_point + t),
    decreases points_measure(s),
{
    let e = s.end_points;
    let m = e.len();
    let k = s.next_end;
    let i = s.cur_point;
    if k < m {
        let (s2, r) = point_step(s);
        let is_end = e[k] <= i;
        assert(is_end <==> e[k] == i);
        if k + 1 < m {
            assert(e[k] < e[k + 1]);
        }
        if is_end && k + 1 == m {
            assert(points_measure(s2) < points_measure(s));
            assert(points_from(s2).len() == 0);
            assert(e.last() == e[k]);
        } else {
            assert(i < 65535);
            assert(s2.cur_point == i + 1);
            assert forall|j: int| 0 <= j < s2.next_end implies #[trigger] e[j] < s2.cur_point by {
                if j < k {
                    assert(e[j] < i);
                }
            }
            if !is_end {
                assert(s2.next_end == k);
            }
            assert(points_measure(s2) < points_measure(s));
            lemma_point_roles(s2);
            assert(e.last() == e[m - 1]);
            if k < m - 1 {
                assert(e[k] < e[m - 1]);
            }
        }
        let ps = points_from(s);
        let ps2 = points_from(s2);
        assert(ps == seq![r.unwrap()] + ps2);
        assert forall|t: int| 0 <= t < ps.len() implies (#[trigger] ps[t] is End <==> exists|
            j: int,
        |
            0 <= j < m && e[j] == i + t) by {
            if t == 0 {
                if is_end {
                    assert(e[k] == i + t);
                } else {
                    assert forall|j: int| 0 <= j < m implies e[j] != i + t by {
                        if j < k {
                            assert(e[j] < i);
                        } else if j > k {
                            assert(e[k] < e[j]);
                        }
                    }
                }
            } else {
                assert(ps[t] == ps2[t - 1]);
                assert(s2.cur_point + (t - 1) == i + t);
            }
        }
    }
}

impl<'a> SimpleGlyph<'a> {
    /// A decoder of the points; where the point data is malformed, one that
    /// gives no point.
    pub fn iter_points(&self) -> (r: PointIter<'a>)
        ensures
            r@ == spec_iter_points(self@),
    {
        match self.iter_points_impl() {
            Some(it) => it,
            None => {
                let empty = slice_subrange(self.glyph_data(), 0, 0);
                assert(empty@ =~= Seq::<u8>::empty());
                PointIter::new(self.end_pts_of_contours().empty_like(), empty, empty, empty)
            },
        }
    }

    fn iter_points_impl(&self) -> (r: Option<PointIter<'a>>)
        ensures
            r is Some <==> spec_point_regions(self@) is Some,
            r matches Some(it) ==> it@ == spec_iter_points(self@),
    {
        let end_points = self.end_pts_of_contours();
        let n_ends = end_points.len();
        if n_ends == 0 {
            return None;
        }
        let last = match end_points.get(n_ends - 1) {
            Some(v) => v,
            None => return None,
        };
        if last == 65535 {
            return None;
        }
        let data = self.glyph_data();
        let lens = match resolve_coords_len(data, last + 1) {
            Some(l) => l,
            None => return None,
        };
        let flags_len = lens.flags as usize;
        let x_len = lens.x_coords as usize;
        let y_len = lens.y_coords as usize;
        if data.len() < flags_len + x_len + y_len {
            return None;
        }
        let flags = slice_subrange(data, 0, flags_len);
        let x_coords = slice_subrange(data, flags_len, flags_len + x_len);
        let y_coords = slice_subrange(data, flags_len + x_len, flags_len + x_len + y_len);
        Some(PointIter::new(end_points.reborrow(), flags, x_coords, y_coords))
    }

    /// All the points, in order.
    pub fn points(&self) -> (r: Vec<GlyphPoint>)
        ensures
            r@ == points_from(spec_iter_points(self@)),
    {
        let mut iter = self.iter_points();
        let mut out: Vec<GlyphPoint> = Vec::new();
        loop
            invariant
                iter@.next_end <= iter@.end_points.len(),
                0 <= points_measure(iter@),
                out@ + points_from(iter@) == points_from(spec_iter_points(self@)),
            decreases points_measure(iter@),
        {
            let ghost before = iter@;
            match iter.next() {
                Some(p) => {
                    proof {
                        assert(points_from(before) == seq![p] + points_from(iter@));
                        assert(out@.push(p) + points_from(iter@) == out@ + points_from(before));
                    }
                    out.push(p);
                },
                None => {
                    proof {
                        assert(out@ + points_from(before) == out@);
                    }
                    return out;
                },
            }
        }
    }
}

} // verus!
