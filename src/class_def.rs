//! Class-definition tables (glyph id to class) and their builder.
use crate::scalar::GlyphId;
use vstd::prelude::*;

verus! {

/// Entries in strictly increasing glyph-id order: each glyph once.
pub open spec fn keys_sorted(s: Seq<(GlyphId, u16)>) -> bool {
    forall|i: int, j: int| 0 <= i < j < s.len() ==> s[i].0.0 < s[j].0.0
}

/// The class of `g` in the entries `s`, 0 where `g` has none.
pub open spec fn class_of(s: Seq<(GlyphId, u16)>, g: u16) -> u16 {
    if exists|i: int| 0 <= i < s.len() && s[i].0.0 == g {
        s[choose|i: int| 0 <= i < s.len() && s[i].0.0 == g].1
    } else {
        0
    }
}

/// The map that inserting the entries of `s` one after another gives: a
/// later entry for a glyph replaces an earlier one.
pub open spec fn map_of_entries(s: Seq<(GlyphId, u16)>) -> Map<GlyphId, u16>
    decreases s.len(),
{
    if s.len() == 0 {
        Map::empty()
    } else {
        map_of_entries(s.drop_last()).insert(s.last().0, s.last().1)
    }
}

/// The map that sorted entries `s` stand for.
pub open spec fn sorted_entries_map(s: Seq<(GlyphId, u16)>) -> Map<GlyphId, u16> {
    Map::new(
        |g: GlyphId| exists|i: int| 0 <= i < s.len() && s[i].0 == g,
        |g: GlyphId| class_of(s, g.0),
    )
}

/// A run of consecutive glyph ids that share a class.
#[derive(Debug, Clone, Copy, PartialEq, Eq, Structural)]
pub struct ClassRangeRecord {
    pub start_glyph_id: GlyphId,
    pub end_glyph_id: GlyphId,
    pub class: u16,
}

/// The class ranges of sorted entries, in one pass: an entry whose glyph
/// follows the end of the last range by exactly 1, with the same class,
/// extends it; any other entry starts a new range.
pub open spec fn class_ranges(s: Seq<(GlyphId, u16)>) -> Seq<ClassRangeRecord>
    decreases s.len(),
{
    if s.len() == 0 {
        Seq::empty()
    } else {
        let prev = class_ranges(s.drop_last());
        let (g, c) = s.last();
        if prev.len() > 0 && prev.last().end_glyph_id.0 + 1 == g.0 && prev.last().class == c {
            prev.update(prev.len() - 1, ClassRangeRecord { end_glyph_id: g, ..prev.last() })
        } else {
            prev.push(ClassRangeRecord { start_glyph_id: g, end_glyph_id: g, class: c })
        }
    }
}

/// Weight of each id past the first in the size of the array encoding.
pub const CLASS_ARRAY_ELEMENT_SIZE: usize = 1;

/// The first glyph id of sorted entries `s`, 0 where there is none.
pub open spec fn first_id(s: Seq<(GlyphId, u16)>) -> u16 {
    if s.len() == 0 {
        0
    } else {
        s[0].0.0
    }
}

/// The last glyph id of sorted entries `s`, 0 where there is none.
pub open spec fn last_id(s: Seq<(GlyphId, u16)>) -> u16 {
    if s.len() == 0 {
        0
    } else {
        s.last().0.0
    }
}

/// Whether the array encoding (3 bytes, and `CLASS_ARRAY_ELEMENT_SIZE` for each id
/// past the first up to the last) is no larger than the range encoding (4
/// bytes, and 6 per range); a tie goes to the array.
pub open spec fn prefers_class_format_1(s: Seq<(GlyphId, u16)>) -> bool {
    3 + (last_id(s) - first_id(s)) * CLASS_ARRAY_ELEMENT_SIZE <= 4 + class_ranges(s).len() * 6
}

proof fn lemma_class_ranges_len(s: Seq<(GlyphId, u16)>)
    ensures
        class_ranges(s).len() <= s.len(),
    decreases s.len(),
{
    if s.len() > 0 {
        lemma_class_ranges_len(s.drop_last());
    }
}

/// The class ranges of the entries `items`.
pub fn iter_class_ranges(items: &[(GlyphId, u16)]) -> (r: Vec<ClassRangeRecord>)
    ensures
        r@ == class_ranges(items@),
{
    let mut out: Vec<ClassRangeRecord> = Vec::new();
    let mut i: usize = 0;
    while i < items.len()
        invariant
            0 <= i <= items@.len(),
            out@ == class_ranges(items@.subrange(0, i as int)),
        decreases items@.len() - i,
    {
        let (g, c) = items[i];
        proof {
            let pre = items@.subrange(0, i + 1);
            assert(pre.drop_last() == items@.subrange(0, i as int));
            assert(pre.last() == (g, c));
        }
        let n = out.len();
        if n > 0 && out[n - 1].end_glyph_id.0 < 65535 && out[n - 1].end_glyph_id.0 + 1 == g.0
            && out[n - 1].class == c {
            let last = out[n - 1];
            out[n - 1] = ClassRangeRecord { end_glyph_id: g, ..last };
        } else {
            out.push(ClassRangeRecord { start_glyph_id: g, end_glyph_id: g, class: c });
        }
        i = i + 1;
    }
    assert(items@.subrange(0, items@.len() as int) == items@);
    out
}

/// Builds a class definition: a map from glyph id to class, kept sorted by id.
#[derive(Debug, PartialEq, Eq)]
pub struct ClassDefBuilder {
    items: Vec<(GlyphId, u16)>,
}

impl View for ClassDefBuilder {
    type V = Seq<(GlyphId, u16)>;

    closed spec fn view(&self) -> Seq<(GlyphId, u16)> {
        self.items@
    }
}

impl ClassDefBuilder {
    pub open spec fn wf(&self) -> bool {
        keys_sorted(self@)
    }

    /// An empty map.
    pub fn new() -> (r: ClassDefBuilder)
        ensures
            r.wf(),
            r@ == Seq::<(GlyphId, u16)>::empty(),
    {
        ClassDefBuilder { items: Vec::new() }
    }

    /// The map of `items`; where a glyph comes more than once, its last class
    /// wins.
    pub fn from_items(items: Vec<(GlyphId, u16)>) -> (r: ClassDefBuilder)
        ensures
            r.wf(),
            sorted_entries_map(r@) == map_of_entries(items@),
    {
        let mut b = ClassDefBuilder::new();
        let mut i: usize = 0;
        proof {
            assert(sorted_entries_map(b@) =~= map_of_entries(items@.subrange(0, 0)));
        }
        while i < items.len()
            invariant
                0 <= i <= items@.len(),
                b.wf(),
                sorted_entries_map(b@) == map_of_entries(items@.subrange(0, i as int)),
            decreases items@.len() - i,
        {
            let (g, c) = items[i];
            b.insert(g, c);
            proof {
                let pre = items@.subrange(0, i + 1);
                assert(pre.drop_last() == items@.subrange(0, i as int));
                assert(pre.last() == (g, c));
            }
            i = i + 1;
        }
        assert(items@.subrange(0, items@.len() as int) == items@);
        b
    }

    /// Whether the array encoding is no larger than the range encoding.
    pub fn prefer_format_1(&self) -> (r: bool)
        requires
            self.wf(),
        ensures
            r == prefers_class_format_1(self@),
    {
        let n = self.items.len();
        let (first, last) = if n == 0 {
            (0u16, 0u16)
        } else {
            (self.items[0].0.0, self.items[n - 1].0.0)
        };
        proof {
            if n > 0 {
                lemma_keys_bound(self@, n - 1);
            }
            lemma_class_ranges_len(self@);
        }
        let ranges = iter_class_ranges(self.items.as_slice());
        let len_format1 = 3 + (last - first) as usize * CLASS_ARRAY_ELEMENT_SIZE;
        let len_format2 = 4 + ranges.len() * 6;
        len_format1 <= len_format2
    }

    /// The table: the array where it is no larger than the ranges, else the
    /// ranges.
    pub fn build(&self) -> (r: ClassDef)
        requires
            self.wf(),
        ensures
            class_def_built_from(self@, r),
    {
        if self.prefer_format_1() {
            let n = self.items.len();
            let (first, last) = if n == 0 {
                (0u16, 0u16)
            } else {
                (self.items[0].0.0, self.items[n - 1].0.0)
            };
            let mut class_value_array: Vec<u16> = Vec::new();
            let mut g: u32 = first as u32;
            while g <= last as u32
                invariant
                    self.wf(),
                    first == first_id(self@),
                    last == last_id(self@),
                    first <= last,
                    first <= g <= last + 1,
                    class_value_array@ == array_classes(self@).subrange(0, g - first),
                decreases last + 1 - g,
            {
                let class = match self.get(GlyphId(g as u16)) {
                    Some(c) => c,
                    None => 0,
                };
                proof {
                    assert(array_classes(self@).subrange(0, g + 1 - first) == array_classes(
                        self@,
                    ).subrange(0, g - first).push(class));
                }
                class_value_array.push(class);
                g = g + 1;
            }
            proof {
                assert(array_classes(self@).subrange(0, last + 1 - first) == array_classes(self@));
            }
            ClassDef::Format1(ClassDefFormat1 { start_glyph_id: GlyphId(first), class_value_array })
        } else {
            ClassDef::Format2(
                ClassDefFormat2 { class_range_records: iter_class_ranges(self.items.as_slice()) },
            )
        }
    }

    /// Where `glyph` is in the map: `Ok` of its index; else `Err` of the index
    /// where it would go.
    fn search(&self, glyph: GlyphId) -> (r: Result<usize, usize>)
        requires
            self.wf(),
        ensures
            r matches Ok(i) ==> i < self@.len() && self@[i as int].0 == glyph,
            r matches Err(i) ==> i <= self@.len() && (forall|j: int|
                0 <= j < i ==> self@[j].0.0 < glyph.0) && (forall|j: int|
                i <= j < self@.len() ==> self@[j].0.0 > glyph.0),
    {
        let mut lo: usize = 0;
        let mut hi: usize = self.items.len();
        while lo < hi
            invariant
                0 <= lo <= hi <= self@.len(),
                self.wf(),
                forall|j: int| 0 <= j < lo ==> self@[j].0.0 < glyph.0,
                forall|j: int| hi <= j < self@.len() ==> self@[j].0.0 > glyph.0,
            decreases hi - lo,
        {
            let mid = lo + (hi - lo) / 2;
            let v = self.items[mid].0.0;
            if v == glyph.0 {
                return Ok(mid);
            } else if v < glyph.0 {
                lo = mid + 1;
            } else {
                hi = mid;
            }
        }
        Err(lo)
    }

    /// The class of `glyph`, where it has one.
    pub fn get(&self, glyph: GlyphId) -> (r: Option<u16>)
        requires
            self.wf(),
        ensures
            r is Some <==> sorted_entries_map(self@).contains_key(glyph),
            r is Some ==> r == Some(class_of(self@, glyph.0)),
            r is None ==> class_of(self@, glyph.0) == 0,
    {
        match self.search(glyph) {
            Ok(i) => {
                proof {
                    lemma_class_of_at(self@, i as int);
                }
                Some(self.items[i].1)
            },
            Err(i) => {
                proof {
                    if sorted_entries_map(self@).contains_key(glyph) {
                        let k = choose|k: int| 0 <= k < self@.len() && self@[k].0 == glyph;
                        assert(self@[k].0.0 == glyph.0);
                    }
                    lemma_class_of_absent(self@, glyph.0);
                }
                None
            },
        }
    }

    /// Gives `glyph` the class `class`, replacing any class it had.
    pub fn insert(&mut self, glyph: GlyphId, class: u16)
        requires
            old(self).wf(),
        ensures
            final(self).wf(),
            sorted_entries_map(final(self)@) == sorted_entries_map(old(self)@).insert(glyph, class),
    {
        let ghost before = self@;
        match self.search(glyph) {
            Ok(i) => {
                self.items[i] = (glyph, class);
                proof {
                    let after = self@;
                    assert(after == before.update(i as int, (glyph, class)));
                    assert forall|a: int, b: int| 0 <= a < b < after.len() implies after[a].0.0
                        < after[b].0.0 by {
                        assert(before[a].0.0 < before[b].0.0);
                    }
                    lemma_map_after_update(before, i as int, glyph, class);
                }
            },
            Err(i) => {
                self.items.insert(i, (glyph, class));
                proof {
                    let after = self@;
                    assert forall|a: int, b: int| 0 <= a < b < after.len() implies after[a].0.0
                        < after[b].0.0 by {
                        if b < i {
                            assert(after[a] == before[a] && after[b] == before[b]);
                        } else if b == i {
                            assert(after[a] == before[a]);
                        } else if a < i {
                            assert(after[b] == before[b - 1] && after[a] == before[a]);
                        } else if a == i {
                            assert(after[b] == before[b - 1]);
                        } else {
                            assert(after[b] == before[b - 1] && after[a] == before[a - 1]);
                        }
                    }
                    lemma_map_after_insert(before, i as int, glyph, class, after);
                }
            },
        }
    }
}

/// Each glyph id of sorted entries is at least its index.
proof fn lemma_keys_bound(s: Seq<(GlyphId, u16)>, i: int)
    requires
        keys_sorted(s),
        0 <= i < s.len(),
    ensures
        s[i].0.0 >= i,
    decreases i,
{
    if i > 0 {
        lemma_keys_bound(s, i - 1);
    }
}

/// The class of each id from the first to the last of sorted entries `s`.
pub open spec fn array_classes(s: Seq<(GlyphId, u16)>) -> Seq<u16> {
    Seq::new(
        (last_id(s) - first_id(s) + 1) as nat,
        |i: int| class_of(s, (first_id(s) + i) as u16),
    )
}

/// Whether `t` is the table built from the sorted entries `s`.
pub open spec fn class_def_built_from(s: Seq<(GlyphId, u16)>, t: ClassDef) -> bool {
    if prefers_class_format_1(s) {
        t matches ClassDef::Format1(f) && f.start_glyph_id.0 == first_id(s)
            && f.class_value_array@ == array_classes(s)
    } else {
        t matches ClassDef::Format2(f) && f.class_range_records@ == class_ranges(s)
    }
}

/// The class ranges of entries cover exactly those entries, in order: the
/// range encoding of a class definition gives back the map it was built from.
pub proof fn class_ranges_cover_entries(s: Seq<(GlyphId, u16)>)
    ensures
        expand_class_ranges(class_ranges(s)) == s,
        forall|k: int|
            0 <= k < class_ranges(s).len() ==> #[trigger] class_ranges(s)[k].start_glyph_id.0
                <= class_ranges(s)[k].end_glyph_id.0,
    decreases s.len(),
{
    if s.len() > 0 {
        let s0 = s.drop_last();
        class_ranges_cover_entries(s0);
        let prev = class_ranges(s0);
        let (g, c) = s.last();
        assert(s == s0.push((g, c)));
        if prev.len() > 0 && prev.last().end_glyph_id.0 + 1 == g.0 && prev.last().class == c {
            let last = prev.last();
            let next = ClassRangeRecord { end_glyph_id: g, ..last };
            let cur = prev.update(prev.len() - 1, next);
            assert(cur == class_ranges(s));
            assert(cur.drop_last() == prev.drop_last());
            assert(cur.last() == next);
            assert(class_range_entries(next) == class_range_entries(last).push((g, c)));
            assert(expand_class_ranges(prev) == expand_class_ranges(prev.drop_last())
                + class_range_entries(last));
            assert(expand_class_ranges(cur) == expand_class_ranges(prev.drop_last())
                + class_range_entries(next));
            assert(expand_class_ranges(cur) == expand_class_ranges(prev).push((g, c)));
            assert forall|k: int| 0 <= k < cur.len() implies #[trigger] cur[k].start_glyph_id.0
                <= cur[k].end_glyph_id.0 by {
                if k < cur.len() - 1 {
                    assert(cur[k] == prev[k]);
                }
            }
        } else {
            let rec = ClassRangeRecord { start_glyph_id: g, end_glyph_id: g, class: c };
            let cur = prev.push(rec);
            assert(cur == class_ranges(s));
            assert(cur.drop_last() == prev);
            assert(class_range_entries(rec) == seq![(g, c)]);
            assert(expand_class_ranges(cur) == expand_class_ranges(prev) + seq![(g, c)]);
            assert forall|k: int| 0 <= k < cur.len() implies #[trigger] cur[k].start_glyph_id.0
                <= cur[k].end_glyph_id.0 by {
                if k < cur.len() - 1 {
                    assert(cur[k] == prev[k]);
                }
            }
        }
    }
}

/// The class ranges are maximal: no range ends right before the next one
/// starts with the same class.
pub proof fn class_ranges_are_maximal(s: Seq<(GlyphId, u16)>)
    ensures
        forall|k: int|
            0 <= k < class_ranges(s).len() - 1 ==> !(#[trigger] class_ranges(s)[k].end_glyph_id.0
                + 1 == class_ranges(s)[k + 1].start_glyph_id.0 && class_ranges(s)[k].class
                == class_ranges(s)[k + 1].class),
    decreases s.len(),
{
    if s.len() > 0 {
        let s0 = s.drop_last();
        class_ranges_are_maximal(s0);
        let prev = class_ranges(s0);
        let cur = class_ranges(s);
        let (g, c) = s.last();
        if prev.len() > 0 && prev.last().end_glyph_id.0 + 1 == g.0 && prev.last().class == c {
            assert forall|k: int| 0 <= k < cur.len() - 1 implies !(#[trigger] cur[k].end_glyph_id.0
                + 1 == cur[k + 1].start_glyph_id.0 && cur[k].class == cur[k + 1].class) by {
                assert(cur[k] == prev[k]);
                assert(cur[k + 1].start_glyph_id == prev[k + 1].start_glyph_id);
                assert(cur[k + 1].class == prev[k + 1].class);
            }
        } else {
            assert forall|k: int| 0 <= k < cur.len() - 1 implies !(#[trigger] cur[k].end_glyph_id.0
                + 1 == cur[k + 1].start_glyph_id.0 && cur[k].class == cur[k + 1].class) by {
                assert(cur[k] == prev[k]);
                if k + 1 < prev.len() {
                    assert(cur[k + 1] == prev[k + 1]);
                }
            }
        }
    }
}

/// Building a class definition from sorted entries and iterating it gives
/// back the entries: exactly, in the range encoding; in the array encoding,
/// every id from the first to the last with its class (0 where it has none).
pub proof fn class_def_round_trip(s: Seq<(GlyphId, u16)>, t: ClassDef)
    requires
        keys_sorted(s),
        class_def_built_from(s, t),
    ensures
        t is Format2 ==> t.spec_iter() == s,
        t is Format1 ==> t.spec_iter().len() == last_id(s) - first_id(s) + 1,
        t is Format1 ==> forall|i: int|
            0 <= i < t.spec_iter().len() ==> #[trigger] t.spec_iter()[i] == (
                GlyphId((first_id(s) + i) as u16),
                class_of(s, (first_id(s) + i) as u16),
            ),
{
    class_ranges_cover_entries(s);
    if s.len() > 0 {
        assert(s[0].0.0 <= s[s.len() - 1].0.0) by {
            if s.len() > 1 {
                assert(s[0].0.0 < s[s.len() - 1].0.0);
            }
        }
    }
}

/// The encoding chosen depends on the entries alone.
pub proof fn class_def_format_is_deterministic(s: Seq<(GlyphId, u16)>, t1: ClassDef, t2: ClassDef)
    requires
        class_def_built_from(s, t1),
        class_def_built_from(s, t2),
    ensures
        (t1 is Format1) == (t2 is Format1),
        (t1 is Format2) == (t2 is Format2),
{
}

/// Classes as an array, one value per glyph from the start glyph on.
#[derive(Debug, Clone, PartialEq, Eq)]
pub struct ClassDefFormat1 {
    pub start_glyph_id: GlyphId,
    pub class_value_array: Vec<u16>,
}

/// Classes as ranges of consecutive glyphs.
#[derive(Debug, Clone, PartialEq, Eq)]
pub struct ClassDefFormat2 {
    pub class_range_records: Vec<ClassRangeRecord>,
}

/// A map from glyph id to class, in one of two encodings.
#[derive(Debug, Clone, PartialEq, Eq)]
pub enum ClassDef {
    Format1(ClassDefFormat1),
    Format2(ClassDefFormat2),
}

/// A class range whose start glyph comes after its end glyph.
#[derive(Debug, Clone, Copy, PartialEq, Eq, Structural)]
pub struct InvalidGlyphRange {
    pub index: usize,
    pub start_glyph_id: GlyphId,
    pub end_glyph_id: GlyphId,
}

/// `a + b`, saturating at the largest glyph id.
pub open spec fn saturating_gid(a: u16, b: u16) -> u16 {
    if a + b > 65535 {
        65535
    } else {
        (a + b) as u16
    }
}

/// The entries of a class array that starts at glyph `start`: the glyph of
/// the `i`-th value is `start + i`, saturating (with `i` taken modulo 65536).
pub open spec fn array_entries(start: u16, arr: Seq<u16>) -> Seq<(GlyphId, u16)> {
    Seq::new(arr.len(), |i: int| (GlyphId(saturating_gid(start, i as u16)), arr[i]))
}

/// The entries of one class range, in glyph order.
pub open spec fn class_range_entries(r: ClassRangeRecord) -> Seq<(GlyphId, u16)> {
    let start = r.start_glyph_id.0 as int;
    let end = r.end_glyph_id.0 as int;
    Seq::new(
        if start <= end {
            (end - start + 1) as nat
        } else {
            0
        },
        |i: int| (GlyphId((start + i) as u16), r.class),
    )
}

/// The entries of the class ranges `rs`, one range after another.
pub open spec fn expand_class_ranges(rs: Seq<ClassRangeRecord>) -> Seq<(GlyphId, u16)>
    decreases rs.len(),
{
    if rs.len() == 0 {
        Seq::empty()
    } else {
        expand_class_ranges(rs.drop_last()) + class_range_entries(rs.last())
    }
}

impl ClassRangeRecord {
    /// Fails where the range starts after it ends.
    pub fn validate_glyph_range(&self, index: usize) -> (r: Result<(), InvalidGlyphRange>)
        ensures
            r is Ok <==> self.start_glyph_id.0 <= self.end_glyph_id.0,
            r matches Err(e) ==> e == (InvalidGlyphRange {
                index,
                start_glyph_id: self.start_glyph_id,
                end_glyph_id: self.end_glyph_id,
            }),
    {
        if self.start_glyph_id.0 > self.end_glyph_id.0 {
            Err(
                InvalidGlyphRange {
                    index,
                    start_glyph_id: self.start_glyph_id,
                    end_glyph_id: self.end_glyph_id,
                },
            )
        } else {
            Ok(())
        }
    }
}

impl ClassDefFormat2 {
    /// Checks each range: the first one that starts after its end is reported.
    pub fn validate(&self) -> (r: Result<(), InvalidGlyphRange>)
        ensures
            r is Ok <==> forall|k: int|
                0 <= k < self.class_range_records@.len()
                    ==> #[trigger] self.class_range_records@[k].start_glyph_id.0
                    <= self.class_range_records@[k].end_glyph_id.0,
            r matches Err(e) ==> 0 <= e.index < self.class_range_records@.len() && (forall|k: int|
                0 <= k < e.index ==> #[trigger] self.class_range_records@[k].start_glyph_id.0
                    <= self.class_range_records@[k].end_glyph_id.0) && e.start_glyph_id
                == self.class_range_records@[e.index as int].start_glyph_id && e.end_glyph_id
                == self.class_range_records@[e.index as int].end_glyph_id
                && e.start_glyph_id.0 > e.end_glyph_id.0,
    {
        let rs = &self.class_range_records;
        let mut k: usize = 0;
        while k < rs.len()
            invariant
                0 <= k <= rs@.len(),
                rs@ == self.class_range_records@,
                forall|j: int| 0 <= j < k ==> #[trigger] rs@[j].start_glyph_id.0 <= rs@[j].end_glyph_id.0,
            decreases rs@.len() - k,
        {
            match rs[k].validate_glyph_range(k) {
                Ok(()) => {},
                Err(e) => {
                    return Err(e);
                },
            }
            k = k + 1;
        }
        Ok(())
    }
}

impl ClassDef {
    /// The (glyph, class) entries of the table, in the table's order.
    pub open spec fn spec_iter(&self) -> Seq<(GlyphId, u16)> {
        match self {
            ClassDef::Format1(t) => array_entries(t.start_glyph_id.0, t.class_value_array@),
            ClassDef::Format2(t) => expand_class_ranges(t.class_range_records@),
        }
    }

    /// The classes that the table uses, with class 0, which every glyph not
    /// listed has.
    pub open spec fn spec_classes(&self) -> Set<u16> {
        classes_upto(self.spec_iter(), self.spec_iter().len() as int)
    }

    /// The number of classes the table uses, class 0 included.
    pub fn class_count(&self) -> (n: u16)
        requires
            self.spec_classes().len() < 65536,
        ensures
            n == self.spec_classes().len(),
    {
        let entries = self.iter();
        let mut seen: Vec<bool> = Vec::new();
        let mut v: usize = 0;
        while v < 65536
            invariant
                seen@.len() == v,
                v <= 65536,
                forall|j: int| 0 <= j < v ==> !seen@[j],
            decreases 65536 - v,
        {
            seen.push(false);
            v = v + 1;
        }
        seen[0] = true;
        let mut count: u32 = 1;
        let mut i: usize = 0;
        proof {
            let s0 = classes_upto(entries@, 0);
            assert(entries@.subrange(0, 0).map_values(|e: (GlyphId, u16)| e.1).to_set() =~= Set::<
                u16,
            >::empty());
            assert(s0 =~= Set::<u16>::empty().insert(0));
            assert forall|c: u16| seen@[c as int] <==> s0.contains(c) by {}
            assert(s0.len() == 1);
        }
        while i < entries.len()
            invariant
                0 <= i <= entries@.len(),
                entries@ == self.spec_iter(),
                seen@.len() == 65536,
                forall|c: u16| #[trigger] seen@[c as int] <==> classes_upto(entries@, i as int).contains(c),
                count == classes_upto(entries@, i as int).len(),
                self.spec_classes().len() < 65536,
            decreases entries@.len() - i,
        {
            let c = entries[i].1;
            proof {
                lemma_classes_upto_step(entries@, i as int);
                lemma_classes_upto_subset(self.spec_iter(), i + 1);
            }
            if !seen[c as usize] {
                seen[c as usize] = true;
                count = count + 1;
            }
            proof {
                assert forall|d: u16| #[trigger] seen@[d as int] <==> classes_upto(
                    entries@,
                    i + 1,
                ).contains(d) by {}
            }
            i = i + 1;
        }
        proof {
            assert(entries@.subrange(0, entries@.len() as int) == entries@);
        }
        count as u16
    }

    /// The (glyph, class) entries, in the table's order.
    pub fn iter(&self) -> (r: Vec<(GlyphId, u16)>)
        ensures
            r@ == self.spec_iter(),
    {
        let mut out: Vec<(GlyphId, u16)> = Vec::new();
        match self {
            ClassDef::Format1(t) => {
                let arr = &t.class_value_array;
                let start = t.start_glyph_id.0;
                let mut i: usize = 0;
                while i < arr.len()
                    invariant
                        0 <= i <= arr@.len(),
                        out@ == array_entries(start, arr@).subrange(0, i as int),
                    decreases arr@.len() - i,
                {
                    let step = #[verifier::truncate] (i as u16);
                    let gid = if step > 65535 - start {
                        65535
                    } else {
                        start + step
                    };
                    out.push((GlyphId(gid), arr[i]));
                    proof {
                        assert(array_entries(start, arr@).subrange(0, i + 1) == array_entries(
                            start,
                            arr@,
                        ).subrange(0, i as int).push((GlyphId(gid), arr@[i as int])));
                    }
                    i = i + 1;
                }
                proof {
                    assert(array_entries(start, arr@).subrange(0, arr@.len() as int)
                        == array_entries(start, arr@));
                }
            },
            ClassDef::Format2(t) => {
                let rs = &t.class_range_records;
                let mut k: usize = 0;
                while k < rs.len()
                    invariant
                        0 <= k <= rs@.len(),
                        out@ == expand_class_ranges(rs@.subrange(0, k as int)),
                    decreases rs@.len() - k,
                {
                    let rec = rs[k];
                    let ghost base = out@;
                    let start = rec.start_glyph_id.0 as u32;
                    let end = rec.end_glyph_id.0 as u32;
                    let mut g: u32 = start;
                    while g <= end
                        invariant
                            start <= g,
                            start <= end ==> g <= end + 1,
                            start > end ==> g == start,
                            end <= 65535,
                            start == rec.start_glyph_id.0,
                            end == rec.end_glyph_id.0,
                            out@ == base + class_range_entries(rec).subrange(0, g - start),
                        decreases end + 1 - g,
                    {
                        out.push((GlyphId(g as u16), rec.class));
                        proof {
                            assert(class_range_entries(rec).subrange(0, g + 1 - start)
                                == class_range_entries(rec).subrange(0, g - start).push(
                                (GlyphId(g as u16), rec.class),
                            ));
                        }
                        g = g + 1;
                    }
                    proof {
                        assert(class_range_entries(rec).subrange(
                            0,
                            class_range_entries(rec).len() as int,
                        ) == class_range_entries(rec));
                        if start > end {
                            assert(class_range_entries(rec).len() == 0);
                        }
                        assert(rs@.subrange(0, k + 1).drop_last() == rs@.subrange(0, k as int));
                    }
                    k = k + 1;
                }
                assert(rs@.subrange(0, rs@.len() as int) == rs@);
            },
        }
        out
    }
}

/// The classes of the first `i` entries, with class 0.
pub open spec fn classes_upto(entries: Seq<(GlyphId, u16)>, i: int) -> Set<u16> {
    entries.subrange(0, i).map_values(|e: (GlyphId, u16)| e.1).to_set().insert(0)
}

proof fn lemma_classes_upto_step(entries: Seq<(GlyphId, u16)>, i: int)
    requires
        0 <= i < entries.len(),
    ensures
        classes_upto(entries, i + 1) == classes_upto(entries, i).insert(entries[i].1),
        classes_upto(entries, i).finite(),
        classes_upto(entries, i + 1).finite(),
{
    let f = |e: (GlyphId, u16)| e.1;
    let a = entries.subrange(0, i).map_values(f);
    assert(entries.subrange(0, i + 1).map_values(f) =~= a.push(entries[i].1));
    a.lemma_push_to_set_commute(entries[i].1);
    assert(classes_upto(entries, i + 1) =~= classes_upto(entries, i).insert(entries[i].1));
    vstd::seq_lib::seq_to_set_is_finite(a);
    vstd::seq_lib::seq_to_set_is_finite(a.push(entries[i].1));
}

proof fn lemma_classes_upto_subset(entries: Seq<(GlyphId, u16)>, i: int)
    requires
        0 <= i <= entries.len(),
    ensures
        classes_upto(entries, i).len() <= classes_upto(entries, entries.len() as int).len(),
{
    let f = |e: (GlyphId, u16)| e.1;
    let full = classes_upto(entries, entries.len() as int);
    let part = classes_upto(entries, i);
    assert(part.subset_of(full)) by {
        assert forall|c: u16| part.contains(c) implies full.contains(c) by {
            if c != 0 {
                let sub = entries.subrange(0, i).map_values(f);
                let k = choose|k: int| 0 <= k < sub.len() && sub[k] == c;
                assert(entries.subrange(0, entries.len() as int).map_values(f)[k] == c);
            }
        }
    }
    vstd::seq_lib::seq_to_set_is_finite(entries.subrange(0, entries.len() as int).map_values(f));
    vstd::set_lib::lemma_len_subset(part, full);
}

proof fn lemma_class_of_at(s: Seq<(GlyphId, u16)>, i: int)
    requires
        keys_sorted(s),
        0 <= i < s.len(),
    ensures
        class_of(s, s[i].0.0) == s[i].1,
{
    let g = s[i].0.0;
    assert(exists|k: int| 0 <= k < s.len() && s[k].0.0 == g);
    let k = choose|k: int| 0 <= k < s.len() && s[k].0.0 == g;
    if k < i {
        assert(s[k].0.0 < s[i].0.0);
    } else if k > i {
        assert(s[i].0.0 < s[k].0.0);
    }
}

proof fn lemma_class_of_absent(s: Seq<(GlyphId, u16)>, g: u16)
    requires
        forall|k: int| 0 <= k < s.len() ==> s[k].0.0 != g,
    ensures
        class_of(s, g) == 0,
{
}

proof fn lemma_map_after_update(before: Seq<(GlyphId, u16)>, i: int, glyph: GlyphId, class: u16)
    requires
        keys_sorted(before),
        0 <= i < before.len(),
        before[i].0 == glyph,
    ensures
        sorted_entries_map(before.update(i, (glyph, class))) == sorted_entries_map(before).insert(
            glyph,
            class,
        ),
{
    let after = before.update(i, (glyph, class));
    assert(keys_sorted(after)) by {
        assert forall|a: int, b: int| 0 <= a < b < after.len() implies after[a].0.0
            < after[b].0.0 by {
            assert(before[a].0.0 < before[b].0.0);
        }
    }
    let m1 = sorted_entries_map(after);
    let m2 = sorted_entries_map(before).insert(glyph, class);
    assert forall|g: GlyphId| m1.contains_key(g) <==> m2.contains_key(g) by {
        if m1.contains_key(g) {
            let k = choose|k: int| 0 <= k < after.len() && after[k].0 == g;
            assert(before[k].0 == g);
        }
        if m2.contains_key(g) && g != glyph {
            let k = choose|k: int| 0 <= k < before.len() && before[k].0 == g;
            assert(after[k].0 == g);
        }
        if g == glyph {
            assert(after[i].0 == g);
        }
    }
    assert forall|g: GlyphId| m1.contains_key(g) implies m1[g] == m2[g] by {
        let k = choose|k: int| 0 <= k < after.len() && after[k].0 == g;
        lemma_class_of_at(after, k);
        if k != i {
            assert(before[k] == after[k]);
            lemma_class_of_at(before, k);
        }
    }
    assert(m1 =~= m2);
}

proof fn lemma_map_after_insert(
    before: Seq<(GlyphId, u16)>,
    i: int,
    glyph: GlyphId,
    class: u16,
    after: Seq<(GlyphId, u16)>,
)
    requires
        keys_sorted(before),
        keys_sorted(after),
        0 <= i <= before.len(),
        after == before.insert(i, (glyph, class)),
        forall|j: int| 0 <= j < i ==> before[j].0.0 < glyph.0,
        forall|j: int| i <= j < before.len() ==> before[j].0.0 > glyph.0,
    ensures
        sorted_entries_map(after) == sorted_entries_map(before).insert(glyph, class),
{
    let m1 = sorted_entries_map(after);
    let m2 = sorted_entries_map(before).insert(glyph, class);
    assert forall|g: GlyphId| m1.contains_key(g) <==> m2.contains_key(g) by {
        if m1.contains_key(g) && g != glyph {
            let k = choose|k: int| 0 <= k < after.len() && after[k].0 == g;
            if k < i {
                assert(before[k].0 == g);
            } else if k > i {
                assert(before[k - 1].0 == g);
            }
        }
        if m2.contains_key(g) && g != glyph {
            let k = choose|k: int| 0 <= k < before.len() && before[k].0 == g;
            if k < i {
                assert(after[k].0 == g);
            } else {
                assert(after[k + 1].0 == g);
            }
        }
        if g == glyph {
            assert(after[i].0 == g);
        }
    }
    assert forall|g: GlyphId| m1.contains_key(g) implies m1[g] == m2[g] by {
        let k = choose|k: int| 0 <= k < after.len() && after[k].0 == g;
        lemma_class_of_at(after, k);
        if k < i {
            assert(before[k] == after[k]);
            lemma_class_of_at(before, k);
        } else if k > i {
            assert(before[k - 1] == after[k]);
            lemma_class_of_at(before, k - 1);
        }
    }
    assert(m1 =~= m2);
}

} // verus!
