//! Axis-aligned bounding boxes and their union.
use crate::glyf::{Glyph, GlyphHeader, SimpleGlyph};
use crate::outline::{points_from, spec_iter_points, GlyphPoint, Point};
use vstd::prelude::*;

verus! {

/// A bounding box: the extrema of x and y.
#[derive(Debug, Clone, Copy, PartialEq, Eq, Structural)]
pub struct Bbox {
    pub x_min: i16,
    pub y_min: i16,
    pub x_max: i16,
    pub y_max: i16,
}

pub open spec fn min16(a: i16, b: i16) -> i16 {
    if a <= b {
        a
    } else {
        b
    }
}

pub open spec fn max16(a: i16, b: i16) -> i16 {
    if a >= b {
        a
    } else {
        b
    }
}

/// The box that contains nothing: the neutral element of union.
pub open spec fn empty_bbox() -> Bbox {
    Bbox { x_min: i16::MAX, y_min: i16::MAX, x_max: i16::MIN, y_max: i16::MIN }
}

/// The smallest box around `a` and `b`: the extrema of both.
pub open spec fn union(a: Bbox, b: Bbox) -> Bbox {
    Bbox {
        x_min: min16(a.x_min, b.x_min),
        y_min: min16(a.y_min, b.y_min),
        x_max: max16(a.x_max, b.x_max),
        y_max: max16(a.y_max, b.y_max),
    }
}

/// The box of a single point.
pub open spec fn point_bbox(p: Point) -> Bbox {
    Bbox { x_min: p.x, y_min: p.y, x_max: p.x, y_max: p.y }
}

/// The union of the boxes `s`, from the empty box on.
pub open spec fn union_all(s: Seq<Bbox>) -> Bbox
    decreases s.len(),
{
    if s.len() == 0 {
        empty_bbox()
    } else {
        union(union_all(s.drop_last()), s.last())
    }
}

/// The box of the points `ps`.
pub open spec fn points_bbox(ps: Seq<GlyphPoint>) -> Bbox {
    union_all(ps.map_values(|p: GlyphPoint| point_bbox(p.spec_point())))
}

/// Union is commutative.
pub proof fn union_commutative(a: Bbox, b: Bbox)
    ensures
        union(a, b) == union(b, a),
{
}

/// Union is associative.
pub proof fn union_associative(a: Bbox, b: Bbox, c: Bbox)
    ensures
        union(union(a, b), c) == union(a, union(b, c)),
{
}

/// Union is idempotent, and the empty box is its neutral element.
pub proof fn union_idempotent_and_neutral(a: Bbox)
    ensures
        union(a, a) == a,
        union(empty_bbox(), a) == a,
        union(a, empty_bbox()) == a,
{
}

/// Union only widens: its extrema are at least as far out as those of either
/// box.
pub proof fn union_is_monotonic(a: Bbox, b: Bbox)
    ensures
        union(a, b).x_min <= a.x_min && union(a, b).x_min <= b.x_min,
        union(a, b).y_min <= a.y_min && union(a, b).y_min <= b.y_min,
        union(a, b).x_max >= a.x_max && union(a, b).x_max >= b.x_max,
        union(a, b).y_max >= a.y_max && union(a, b).y_max >= b.y_max,
{
}

/// The union of boxes does not depend on their order: any two orderings of
/// the same multiset of boxes have the same union.
pub proof fn union_all_ignores_order(s: Seq<Bbox>, t: Seq<Bbox>)
    requires
        s.to_multiset() == t.to_multiset(),
    ensures
        union_all(s) == union_all(t),
{
    assert forall|b: Bbox| s.contains(b) <==> t.contains(b) by {
        s.to_multiset_ensures();
        t.to_multiset_ensures();
        assert(s.contains(b) <==> s.to_multiset().count(b) > 0);
        assert(t.contains(b) <==> t.to_multiset().count(b) > 0);
    }
    lemma_union_all_extrema(s);
    lemma_union_all_extrema(t);
    let u = union_all(s);
    let v = union_all(t);
    if u.x_min != i16::MAX {
        let i = choose|i: int| 0 <= i < s.len() && s[i].x_min == u.x_min;
        assert(t.contains(s[i]));
    }
    if v.x_min != i16::MAX {
        let i = choose|i: int| 0 <= i < t.len() && t[i].x_min == v.x_min;
        assert(s.contains(t[i]));
    }
    if u.y_min != i16::MAX {
        let i = choose|i: int| 0 <= i < s.len() && s[i].y_min == u.y_min;
        assert(t.contains(s[i]));
    }
    if v.y_min != i16::MAX {
        let i = choose|i: int| 0 <= i < t.len() && t[i].y_min == v.y_min;
        assert(s.contains(t[i]));
    }
    if u.x_max != i16::MIN {
        let i = choose|i: int| 0 <= i < s.len() && s[i].x_max == u.x_max;
        assert(t.contains(s[i]));
    }
    if v.x_max != i16::MIN {
        let i = choose|i: int| 0 <= i < t.len() && t[i].x_max == v.x_max;
        assert(s.contains(t[i]));
    }
    if u.y_max != i16::MIN {
        let i = choose|i: int| 0 <= i < s.len() && s[i].y_max == u.y_max;
        assert(t.contains(s[i]));
    }
    if v.y_max != i16::MIN {
        let i = choose|i: int| 0 <= i < t.len() && t[i].y_max == v.y_max;
        assert(s.contains(t[i]));
    }
}

/// Each extremum of a union is at least as far out as that of every box, and
/// is that of some box (or that of the empty box).
proof fn lemma_union_all_extrema(s: Seq<Bbox>)
    ensures
        forall|i: int| 0 <= i < s.len() ==> union_all(s).x_min <= #[trigger] s[i].x_min,
        forall|i: int| 0 <= i < s.len() ==> union_all(s).y_min <= #[trigger] s[i].y_min,
        forall|i: int| 0 <= i < s.len() ==> union_all(s).x_max >= #[trigger] s[i].x_max,
        forall|i: int| 0 <= i < s.len() ==> union_all(s).y_max >= #[trigger] s[i].y_max,
        union_all(s).x_min == i16::MAX || exists|i: int|
            0 <= i < s.len() && #[trigger] s[i].x_min == union_all(s).x_min,
        union_all(s).y_min == i16::MAX || exists|i: int|
            0 <= i < s.len() && #[trigger] s[i].y_min == union_all(s).y_min,
        union_all(s).x_max == i16::MIN || exists|i: int|
            0 <= i < s.len() && #[trigger] s[i].x_max == union_all(s).x_max,
        union_all(s).y_max == i16::MIN || exists|i: int|
            0 <= i < s.len() && #[trigger] s[i].y_max == union_all(s).y_max,
    decreases s.len(),
{
    if s.len() > 0 {
        let p = s.drop_last();
        lemma_union_all_extrema(p);
        let u = union_all(p);
        let n = s.len() - 1;
        let w = union_all(s);
        assert forall|i: int| 0 <= i < s.len() implies w.x_min <= #[trigger] s[i].x_min by {
            if i < n {
                assert(p[i] == s[i]);
            }
        }
        assert forall|i: int| 0 <= i < s.len() implies w.y_min <= #[trigger] s[i].y_min by {
            if i < n {
                assert(p[i] == s[i]);
            }
        }
        assert forall|i: int| 0 <= i < s.len() implies w.x_max >= #[trigger] s[i].x_max by {
            if i < n {
                assert(p[i] == s[i]);
            }
        }
        assert forall|i: int| 0 <= i < s.len() implies w.y_max >= #[trigger] s[i].y_max by {
            if i < n {
                assert(p[i] == s[i]);
            }
        }
        if u.x_min != i16::MAX && u.x_min <= s[n].x_min {
            let i = choose|i: int| 0 <= i < p.len() && p[i].x_min == u.x_min;
            assert(s[i].x_min == union_all(s).x_min);
        }
        if u.y_min != i16::MAX && u.y_min <= s[n].y_min {
            let i = choose|i: int| 0 <= i < p.len() && p[i].y_min == u.y_min;
            assert(s[i].y_min == union_all(s).y_min);
        }
        if u.x_max != i16::MIN && u.x_max >= s[n].x_max {
            let i = choose|i: int| 0 <= i < p.len() && p[i].x_max == u.x_max;
            assert(s[i].x_max == union_all(s).x_max);
        }
        if u.y_max != i16::MIN && u.y_max >= s[n].y_max {
            let i = choose|i: int| 0 <= i < p.len() && p[i].y_max == u.y_max;
            assert(s[i].y_max == union_all(s).y_max);
        }
    }
}

impl Bbox {
    /// The box that contains nothing.
    pub fn empty() -> (r: Bbox)
        ensures
            r == empty_bbox(),
    {
        Bbox { x_min: i16::MAX, y_min: i16::MAX, x_max: i16::MIN, y_max: i16::MIN }
    }

    /// The box of one point.
    pub fn from_point(p: Point) -> (r: Bbox)
        ensures
            r == point_bbox(p),
    {
        Bbox { x_min: p.x, y_min: p.y, x_max: p.x, y_max: p.y }
    }

    /// Widens this box to take in `other`.
    pub fn union(&mut self, other: Bbox)
        ensures
            *final(self) == union(*old(self), other),
    {
        if other.x_min < self.x_min {
            self.x_min = other.x_min;
        }
        if other.y_min < self.y_min {
            self.y_min = other.y_min;
        }
        if other.x_max > self.x_max {
            self.x_max = other.x_max;
        }
        if other.y_max > self.y_max {
            self.y_max = other.y_max;
        }
    }

    /// The box around the points `points`.
    pub fn of_points(points: &Vec<GlyphPoint>) -> (r: Bbox)
        ensures
            r == points_bbox(points@),
    {
        let ghost f = |p: GlyphPoint| point_bbox(p.spec_point());
        let mut acc = Bbox::empty();
        let mut i: usize = 0;
        while i < points.len()
            invariant
                0 <= i <= points@.len(),
                f == (|p: GlyphPoint| point_bbox(p.spec_point())),
                acc == union_all(points@.subrange(0, i as int).map_values(f)),
            decreases points@.len() - i,
        {
            acc.union(Bbox::from_point(points[i].point()));
            proof {
                let prefix = points@.subrange(0, i + 1).map_values(f);
                assert(prefix.drop_last() == points@.subrange(0, i as int).map_values(f));
                assert(prefix.last() == f(points@[i as int]));
            }
            i = i + 1;
        }
        assert(points@.subrange(0, points@.len() as int) == points@);
        acc
    }
}

/// The box a glyph header declares.
pub open spec fn header_bbox(h: GlyphHeader) -> Bbox {
    Bbox { x_min: h.x_min, y_min: h.y_min, x_max: h.x_max, y_max: h.y_max }
}

impl GlyphHeader {
    /// The box the header declares.
    pub fn bbox(&self) -> (r: Bbox)
        ensures
            r == header_bbox(*self),
    {
        Bbox { x_min: self.x_min, y_min: self.y_min, x_max: self.x_max, y_max: self.y_max }
    }
}

impl<'a> Glyph<'a> {
    /// The box the glyph's header declares.
    pub fn bbox(&self) -> (r: Bbox)
        ensures
            r == header_bbox(self@.header()),
    {
        self.header().bbox()
    }
}

impl<'a> SimpleGlyph<'a> {
    /// The box around the glyph's decoded points (the empty box where it has
    /// none).
    pub fn compute_bbox(&self) -> (r: Bbox)
        ensures
            r == points_bbox(points_from(spec_iter_points(self@))),
    {
        let points = self.points();
        Bbox::of_points(&points)
    }
}

impl Default for Bbox {
    /// The box that contains nothing.
    fn default() -> (r: Bbox)
        ensures
            r == empty_bbox(),
    {
        Bbox::empty()
    }
}

} // verus!
