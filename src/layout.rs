//! Coverage and class-definition tables of the layout tables, and the
//! builders that pick the smaller of their two encodings.
use crate::scalar::GlyphId;
use vstd::prelude::*;

verus! {

/// Glyph ids in strictly increasing order: sorted, with no duplicate.
pub open spec fn strictly_sorted(s: Seq<GlyphId>) -> bool {
    forall|i: int, j: int| 0 <= i < j < s.len() ==> s[i].0 < s[j].0
}

/// What `add(g)` does: `after` is `before` with `g` in its sorted place (or
/// unchanged where `g` was there), and `r` is the index of `g` in it.
pub open spec fn add_post(before: Seq<GlyphId>, g: GlyphId, after: Seq<GlyphId>, r: int) -> bool {
    &&& strictly_sorted(after)
    &&& 0 <= r < after.len()
    &&& after[r] == g
    &&& before.contains(g) ==> after == before
    &&& !before.contains(g) ==> r <= before.len() && after == before.insert(r, g)
}

/// `add` is idempotent: adding a glyph a second time leaves the set as it was
/// and returns the same index.
pub proof fn add_is_idempotent(
    s0: Seq<GlyphId>,
    g: GlyphId,
    s1: Seq<GlyphId>,
    r1: int,
    s2: Seq<GlyphId>,
    r2: int,
)
    requires
        strictly_sorted(s0),
        add_post(s0, g, s1, r1),
        add_post(s1, g, s2, r2),
    ensures
        s2 == s1,
        r2 == r1,
{
    assert(s1.contains(g));
    if r1 < r2 {
        assert(s1[r1].0 < s1[r2].0);
    } else if r2 < r1 {
        assert(s1[r2].0 < s1[r1].0);
    }
}

/// Each element of a strictly increasing sequence of ids is at least its
/// index, so such a sequence has at most 65536 elements.
proof fn lemma_sorted_bounds(s: Seq<GlyphId>, i: int)
    requires
        strictly_sorted(s),
        0 <= i < s.len(),
    ensures
        s[i].0 >= i,
    decreases i,
{
    if i > 0 {
        lemma_sorted_bounds(s, i - 1);
    }
}

/// Builds a coverage table: a set of glyph ids, kept sorted.
#[derive(Debug, PartialEq, Eq)]
pub struct CoverageTableBuilder {
    glyphs: Vec<GlyphId>,
}

impl View for CoverageTableBuilder {
    type V = Seq<GlyphId>;

    closed spec fn view(&self) -> Seq<GlyphId> {
        self.glyphs@
    }
}

impl CoverageTableBuilder {
    pub open spec fn wf(&self) -> bool {
        strictly_sorted(self@)
    }

    /// An empty set.
    pub fn new() -> (r: CoverageTableBuilder)
        ensures
            r.wf(),
            r@ == Seq::<GlyphId>::empty(),
    {
        CoverageTableBuilder { glyphs: Vec::new() }
    }

    /// The set of `glyphs`, sorted, each once.
    pub fn from_glyphs(glyphs: Vec<GlyphId>) -> (r: CoverageTableBuilder)
        ensures
            r.wf(),
            r@.to_set() == glyphs@.to_set(),
    {
        let mut b = CoverageTableBuilder::new();
        let mut i: usize = 0;
        while i < glyphs.len()
            invariant
                0 <= i <= glyphs@.len(),
                b.wf(),
                b@.to_set() == glyphs@.subrange(0, i as int).to_set(),
            decreases glyphs@.len() - i,
        {
            let ghost before = b@;
            let r = b.add(glyphs[i]);
            proof {
                lemma_add_to_set(before, glyphs@[i as int], b@, r as int);
                assert(glyphs@.subrange(0, i + 1) == glyphs@.subrange(0, i as int).push(
                    glyphs@[i as int],
                ));
                glyphs@.subrange(0, i as int).lemma_push_to_set_commute(glyphs@[i as int]);
            }
            i = i + 1;
        }
        assert(glyphs@.subrange(0, glyphs@.len() as int) == glyphs@);
        b
    }

    /// The table: ranges where they are smaller than the array, else the array.
    pub fn build(self) -> (r: CoverageTable)
        requires
            self.wf(),
        ensures
            coverage_built_from(self@, r),
    {
        if should_choose_coverage_format_2(self.glyphs.as_slice()) {
            CoverageTable::Format2(
                CoverageFormat2 { range_records: RangeRecord::iter_for_glyphs(self.glyphs.as_slice()) },
            )
        } else {
            CoverageTable::Format1(CoverageFormat1 { glyph_array: self.glyphs })
        }
    }

    /// Adds `glyph`, returning its index in the set; where it is already
    /// there, the set is unchanged and its index is returned.
    pub fn add(&mut self, glyph: GlyphId) -> (r: u16)
        requires
            old(self).wf(),
        ensures
            final(self).wf(),
            add_post(old(self)@, glyph, final(self)@, r as int),
    {
        let mut lo: usize = 0;
        let mut hi: usize = self.glyphs.len();
        while lo < hi
            invariant
                0 <= lo <= hi <= self.glyphs@.len(),
                strictly_sorted(self.glyphs@),
                self.glyphs@ == old(self)@,
                forall|j: int| 0 <= j < lo ==> self.glyphs@[j].0 < glyph.0,
                forall|j: int| hi <= j < self.glyphs@.len() ==> self.glyphs@[j].0 > glyph.0,
            decreases hi - lo,
        {
            let mid = lo + (hi - lo) / 2;
            let v = self.glyphs[mid].0;
            if v == glyph.0 {
                proof {
                    lemma_sorted_bounds(self.glyphs@, mid as int);
                    assert(self.glyphs@.contains(glyph));
                }
                return mid as u16;
            } else if v < glyph.0 {
                lo = mid + 1;
            } else {
                hi = mid;
            }
        }
        proof {
            if self.glyphs@.contains(glyph) {
                let k = choose|k: int| 0 <= k < self.glyphs@.len() && self.glyphs@[k] == glyph;
                assert(self.glyphs@[k].0 == glyph.0);
            }
            if lo < self.glyphs@.len() {
                lemma_sorted_bounds(self.glyphs@, lo as int);
            } else if lo > 0 {
                lemma_sorted_bounds(self.glyphs@, lo - 1);
            }
        }
        self.glyphs.insert(lo, glyph);
        proof {
            let after = self.glyphs@;
            assert forall|i: int, j: int| 0 <= i < j < after.len() implies after[i].0
                < after[j].0 by {
                let before = old(self)@;
                if j < lo {
                    assert(after[i] == before[i] && after[j] == before[j]);
                } else if j == lo {
                    assert(after[i] == before[i]);
                } else if i < lo {
                    assert(after[j] == before[j - 1]);
                    assert(after[i] == before[i]);
                } else if i == lo {
                    assert(after[j] == before[j - 1]);
                } else {
                    assert(after[j] == before[j - 1] && after[i] == before[i - 1]);
                }
            }
        }
        lo as u16
    }
}

/// A run of consecutive glyph ids, and the coverage index of its first glyph.
#[derive(Debug, Clone, Copy, PartialEq, Eq, Structural)]
pub struct RangeRecord {
    pub start_glyph_id: GlyphId,
    pub end_glyph_id: GlyphId,
    pub start_coverage_index: u16,
}

/// The ids from `r`'s start to its end, both included (none where the start
/// is after the end).
pub open spec fn range_ids(r: RangeRecord) -> Seq<GlyphId> {
    let start = r.start_glyph_id.0 as int;
    let end = r.end_glyph_id.0 as int;
    Seq::new(
        if start <= end {
            (end - start + 1) as nat
        } else {
            0
        },
        |i: int| GlyphId((start + i) as u16),
    )
}

/// The ids of the ranges `rs`, one range after another.
pub open spec fn expand(rs: Seq<RangeRecord>) -> Seq<GlyphId>
    decreases rs.len(),
{
    if rs.len() == 0 {
        Seq::empty()
    } else {
        expand(rs.drop_last()) + range_ids(rs.last())
    }
}

/// The range records of `s`, in one pass: an id that follows the end of the
/// last range by exactly 1 extends it, any other id starts a new range whose
/// coverage index is the number of ids before it.
pub open spec fn compress(s: Seq<GlyphId>) -> Seq<RangeRecord>
    decreases s.len(),
{
    if s.len() == 0 {
        Seq::empty()
    } else {
        let prev = compress(s.drop_last());
        let g = s.last();
        if prev.len() > 0 && prev.last().end_glyph_id.0 + 1 == g.0 {
            prev.update(
                prev.len() - 1,
                RangeRecord { end_glyph_id: g, ..prev.last() },
            )
        } else {
            prev.push(
                RangeRecord {
                    start_glyph_id: g,
                    end_glyph_id: g,
                    start_coverage_index: (s.len() - 1) as u16,
                },
            )
        }
    }
}

/// Whether the range encoding of `s` (4 bytes, and 6 per range) is smaller
/// than the array encoding (4 bytes, and 2 per glyph); a tie goes to the array.
pub open spec fn prefers_coverage_format_2(s: Seq<GlyphId>) -> bool {
    4 + 6 * compress(s).len() < 4 + 2 * s.len()
}

proof fn lemma_compress_len(s: Seq<GlyphId>)
    ensures
        compress(s).len() <= s.len(),
        s.len() > 0 ==> compress(s).len() > 0,
    decreases s.len(),
{
    if s.len() > 0 {
        lemma_compress_len(s.drop_last());
    }
}

impl RangeRecord {
    /// The range records of the sorted ids `glyphs`.
    pub fn iter_for_glyphs(glyphs: &[GlyphId]) -> (r: Vec<RangeRecord>)
        requires
            strictly_sorted(glyphs@),
        ensures
            r@ == compress(glyphs@),
    {
        let mut out: Vec<RangeRecord> = Vec::new();
        let mut i: usize = 0;
        while i < glyphs.len()
            invariant
                0 <= i <= glyphs@.len(),
                strictly_sorted(glyphs@),
                out@ == compress(glyphs@.subrange(0, i as int)),
            decreases glyphs@.len() - i,
        {
            let g = glyphs[i];
            proof {
                let pre = glyphs@.subrange(0, i + 1);
                assert(pre.drop_last() == glyphs@.subrange(0, i as int));
                assert(pre.last() == g);
                lemma_sorted_bounds(glyphs@, i as int);
            }
            let n = out.len();
            if n > 0 && out[n - 1].end_glyph_id.0 < 65535 && out[n - 1].end_glyph_id.0 + 1 == g.0 {
                let last = out[n - 1];
                out[n - 1] = RangeRecord { end_glyph_id: g, ..last };
            } else {
                out.push(
                    RangeRecord { start_glyph_id: g, end_glyph_id: g, start_coverage_index: i as u16 },
                );
            }
            i = i + 1;
        }
        assert(glyphs@.subrange(0, glyphs@.len() as int) == glyphs@);
        out
    }
}

/// Whether the coverage encoding of the sorted ids `glyphs` should be the
/// range encoding.
pub fn should_choose_coverage_format_2(glyphs: &[GlyphId]) -> (r: bool)
    requires
        strictly_sorted(glyphs@),
    ensures
        r == prefers_coverage_format_2(glyphs@),
{
    let ranges = RangeRecord::iter_for_glyphs(glyphs);
    proof {
        lemma_compress_len(glyphs@);
        if glyphs@.len() > 0 {
            lemma_sorted_bounds(glyphs@, glyphs@.len() - 1);
        }
    }
    let format2_len = 4 + ranges.len() * 6;
    let format1_len = 4 + glyphs.len() * 2;
    format2_len < format1_len
}

/// Coverage as an array of glyph ids.
#[derive(Debug, Clone, PartialEq, Eq)]
pub struct CoverageFormat1 {
    pub glyph_array: Vec<GlyphId>,
}

/// Coverage as ranges of consecutive glyph ids.
#[derive(Debug, Clone, PartialEq, Eq)]
pub struct CoverageFormat2 {
    pub range_records: Vec<RangeRecord>,
}

/// A set of glyphs, in one of two encodings; a glyph's coverage index is its
/// position in the set.
#[derive(Debug, Clone, PartialEq, Eq)]
pub enum CoverageTable {
    Format1(CoverageFormat1),
    Format2(CoverageFormat2),
}

/// The number of ids in each range, counting a range whose start is after its
/// end as one.
pub open spec fn ranges_len(rs: Seq<RangeRecord>) -> nat
    decreases rs.len(),
{
    if rs.len() == 0 {
        0
    } else {
        ranges_len(rs.drop_last()) + if rs.last().start_glyph_id.0 <= rs.last().end_glyph_id.0 {
            (rs.last().end_glyph_id.0 - rs.last().start_glyph_id.0 + 1) as nat
        } else {
            1
        }
    }
}

impl CoverageTable {
    /// The glyphs of the table, in coverage-index order.
    pub open spec fn spec_glyphs(&self) -> Seq<GlyphId> {
        match self {
            CoverageTable::Format1(t) => t.glyph_array@,
            CoverageTable::Format2(t) => expand(t.range_records@),
        }
    }

    /// The number of glyphs the table declares.
    pub open spec fn spec_len(&self) -> nat {
        match self {
            CoverageTable::Format1(t) => t.glyph_array@.len(),
            CoverageTable::Format2(t) => ranges_len(t.range_records@),
        }
    }

    /// The glyphs, in coverage-index order.
    pub fn iter(&self) -> (r: Vec<GlyphId>)
        ensures
            r@ == self.spec_glyphs(),
    {
        match self {
            CoverageTable::Format1(t) => t.glyph_array.clone(),
            CoverageTable::Format2(t) => {
                let mut out: Vec<GlyphId> = Vec::new();
                let rs = &t.range_records;
                let mut k: usize = 0;
                while k < rs.len()
                    invariant
                        0 <= k <= rs@.len(),
                        out@ == expand(rs@.subrange(0, k as int)),
                    decreases rs@.len() - k,
                {
                    let rec = rs[k];
                    let ghost base = out@;
                    let start = rec.start_glyph_id.0 as u32;
                    let end = rec.end_glyph_id.0 as u32;
                    let mut g: u32 = start;
                    while g <= end
                        invariant
                            start <= g,
                            start <= end ==> g <= end + 1,
                            start > end ==> g == start,
                            end <= 65535,
                            start == rec.start_glyph_id.0,
                            end == rec.end_glyph_id.0,
                            out@ == base + range_ids(rec).subrange(0, g - start),
                        decreases end + 1 - g,
                    {
                        out.push(GlyphId(g as u16));
                        proof {
                            assert(range_ids(rec).subrange(0, g + 1 - start) == range_ids(
                                rec,
                            ).subrange(0, g - start).push(GlyphId(g as u16)));
                        }
                        g = g + 1;
                    }
                    proof {
                        assert(range_ids(rec).subrange(0, range_ids(rec).len() as int) == range_ids(
                            rec,
                        ));
                        if start > end {
                            assert(range_ids(rec).len() == 0);
                        }
                        assert(rs@.subrange(0, k + 1).drop_last() == rs@.subrange(0, k as int));
                    }
                    k = k + 1;
                }
                assert(rs@.subrange(0, rs@.len() as int) == rs@);
                out
            },
        }
    }

    /// The number of glyphs the table declares.
    pub fn len(&self) -> (n: usize)
        requires
            self.spec_len() <= usize::MAX,
        ensures
            n == self.spec_len(),
    {
        match self {
            CoverageTable::Format1(t) => t.glyph_array.len(),
            CoverageTable::Format2(t) => {
                let rs = &t.range_records;
                let mut total: usize = 0;
                let mut k: usize = 0;
                while k < rs.len()
                    invariant
                        0 <= k <= rs@.len(),
                        total == ranges_len(rs@.subrange(0, k as int)),
                        ranges_len(rs@) <= usize::MAX,
                    decreases rs@.len() - k,
                {
                    proof {
                        assert(rs@.subrange(0, k + 1).drop_last() == rs@.subrange(0, k as int));
                        lemma_ranges_len_prefix(rs@, k + 1);
                    }
                    let rec = rs[k];
                    let size = if rec.end_glyph_id.0 >= rec.start_glyph_id.0 {
                        (rec.end_glyph_id.0 - rec.start_glyph_id.0) as usize + 1
                    } else {
                        1
                    };
                    total = total + size;
                    k = k + 1;
                }
                assert(rs@.subrange(0, rs@.len() as int) == rs@);
                total
            },
        }
    }

    pub fn is_empty(&self) -> (b: bool)
        requires
            self.spec_len() <= usize::MAX,
        ensures
            b <==> self.spec_len() == 0,
    {
        self.len() == 0
    }
}

/// Whether `t` is the table built from the sorted ids `s`.
pub open spec fn coverage_built_from(s: Seq<GlyphId>, t: CoverageTable) -> bool {
    if prefers_coverage_format_2(s) {
        t matches CoverageTable::Format2(f) && f.range_records@ == compress(s)
    } else {
        t matches CoverageTable::Format1(f) && f.glyph_array@ == s
    }
}

/// Building a table from a set and then iterating it gives back the set's
/// ids, sorted and each once, in either encoding.
pub proof fn coverage_round_trip(s: Seq<GlyphId>, t: CoverageTable)
    requires
        strictly_sorted(s),
        coverage_built_from(s, t),
    ensures
        t.spec_glyphs() == s,
{
    compressed_ranges_cover_ids(s);
}

/// The encoding chosen depends on the set alone.
pub proof fn coverage_format_is_deterministic(s: Seq<GlyphId>, t1: CoverageTable, t2: CoverageTable)
    requires
        coverage_built_from(s, t1),
        coverage_built_from(s, t2),
    ensures
        (t1 is Format1) == (t2 is Format1),
        (t1 is Format2) == (t2 is Format2),
{
}

/// The ranges of `s` cover exactly the ids of `s`, in order, and none of them
/// starts after its end.
pub proof fn compressed_ranges_cover_ids(s: Seq<GlyphId>)
    ensures
        expand(compress(s)) == s,
        forall|k: int|
            0 <= k < compress(s).len() ==> #[trigger] compress(s)[k].start_glyph_id.0
                <= compress(s)[k].end_glyph_id.0,
    decreases s.len(),
{
    if s.len() > 0 {
        let s0 = s.drop_last();
        compressed_ranges_cover_ids(s0);
        let prev = compress(s0);
        let g = s.last();
        if prev.len() > 0 && prev.last().end_glyph_id.0 + 1 == g.0 {
            let last = prev.last();
            let next = RangeRecord { end_glyph_id: g, ..last };
            let cur = prev.update(prev.len() - 1, next);
            assert(cur == compress(s));
            assert(cur.drop_last() == prev.drop_last());
            assert(cur.last() == next);
            assert(range_ids(next) == range_ids(last).push(g));
            assert(expand(prev) == expand(prev.drop_last()) + range_ids(last));
            assert(expand(cur) == expand(prev.drop_last()) + range_ids(next));
            assert(expand(cur) == expand(prev).push(g));
            assert(s == s0.push(g));
            assert forall|k: int| 0 <= k < cur.len() implies #[trigger] cur[k].start_glyph_id.0
                <= cur[k].end_glyph_id.0 by {
                if k < cur.len() - 1 {
                    assert(cur[k] == prev[k]);
                }
            }
        } else {
            let rec = RangeRecord {
                start_glyph_id: g,
                end_glyph_id: g,
                start_coverage_index: (s.len() - 1) as u16,
            };
            let cur = prev.push(rec);
            assert(cur == compress(s));
            assert(cur.drop_last() == prev);
            assert(range_ids(rec) == seq![g]);
            assert(s == s0.push(g));
            assert(expand(cur) == expand(prev) + seq![g]);
            assert forall|k: int| 0 <= k < cur.len() implies #[trigger] cur[k].start_glyph_id.0
                <= cur[k].end_glyph_id.0 by {
                if k < cur.len() - 1 {
                    assert(cur[k] == prev[k]);
                }
            }
        }
    }
}

/// The ranges of sorted ids are maximal and do not overlap: each one ends at
/// least two ids before the next one starts, and each one's coverage index is
/// the number of ids before it.
pub proof fn compressed_ranges_are_maximal(s: Seq<GlyphId>)
    requires
        strictly_sorted(s),
    ensures
        forall|k: int|
            0 <= k < compress(s).len() - 1 ==> #[trigger] compress(s)[k].end_glyph_id.0 + 1
                < compress(s)[k + 1].start_glyph_id.0,
        forall|k: int|
            0 <= k < compress(s).len() ==> #[trigger] compress(s)[k].start_coverage_index
                == ranges_len(compress(s).subrange(0, k)),
    decreases s.len(),
{
    if s.len() > 0 {
        let s0 = s.drop_last();
        assert(strictly_sorted(s0));
        compressed_ranges_are_maximal(s0);
        compressed_ranges_cover_ids(s0);
        compressed_ranges_cover_ids(s);
        lemma_compress_tail(s0);
        lemma_sorted_bounds(s, s.len() - 1);
        let prev = compress(s0);
        let cur = compress(s);
        let g = s.last();
        if prev.len() > 0 && prev.last().end_glyph_id.0 + 1 == g.0 {
            assert forall|k: int| 0 <= k < cur.len() - 1 implies #[trigger] cur[k].end_glyph_id.0
                + 1 < cur[k + 1].start_glyph_id.0 by {
                assert(cur[k] == prev[k]);
                assert(cur[k + 1].start_glyph_id == prev[k + 1].start_glyph_id);
            }
            assert forall|k: int| 0 <= k < cur.len() implies #[trigger] cur[k].start_coverage_index
                == ranges_len(cur.subrange(0, k)) by {
                assert(cur.subrange(0, k) == prev.subrange(0, k));
            }
        } else {
            if prev.len() > 0 {
                assert(prev.last().end_glyph_id.0 < g.0);
            }
            assert forall|k: int| 0 <= k < cur.len() - 1 implies #[trigger] cur[k].end_glyph_id.0
                + 1 < cur[k + 1].start_glyph_id.0 by {
                assert(cur[k] == prev[k]);
                if k + 1 < prev.len() {
                    assert(cur[k + 1] == prev[k + 1]);
                }
            }
            assert forall|k: int| 0 <= k < cur.len() implies #[trigger] cur[k].start_coverage_index
                == ranges_len(cur.subrange(0, k)) by {
                if k < prev.len() {
                    assert(cur.subrange(0, k) == prev.subrange(0, k));
                } else {
                    assert(cur.subrange(0, k) == prev);
                    lemma_ranges_len_expand(prev);
                }
            }
        }
    }
}

/// The last range of the ranges of `s` ends at the last id of `s`.
proof fn lemma_compress_tail(s: Seq<GlyphId>)
    ensures
        s.len() > 0 ==> compress(s).last().end_glyph_id == s.last(),
    decreases s.len(),
{
}

/// Where no range starts after its end, the sizes of the ranges add up to
/// the number of ids they cover.
proof fn lemma_ranges_len_expand(rs: Seq<RangeRecord>)
    requires
        forall|k: int|
            0 <= k < rs.len() ==> #[trigger] rs[k].start_glyph_id.0 <= rs[k].end_glyph_id.0,
    ensures
        ranges_len(rs) == expand(rs).len(),
    decreases rs.len(),
{
    if rs.len() > 0 {
        let p = rs.drop_last();
        assert forall|k: int| 0 <= k < p.len() implies #[trigger] p[k].start_glyph_id.0
            <= p[k].end_glyph_id.0 by {
            assert(p[k] == rs[k]);
        }
        lemma_ranges_len_expand(p);
        assert(rs[rs.len() - 1] == rs.last());
    }
}

/// The sizes of a prefix of the ranges add up to no more than those of all.
proof fn lemma_ranges_len_prefix(rs: Seq<RangeRecord>, k: int)
    requires
        0 <= k <= rs.len(),
    ensures
        ranges_len(rs.subrange(0, k)) <= ranges_len(rs),
    decreases rs.len() - k,
{
    if k < rs.len() {
        lemma_ranges_len_prefix(rs, k + 1);
        assert(rs.subrange(0, k + 1).drop_last() == rs.subrange(0, k));
    } else {
        assert(rs.subrange(0, k) == rs);
    }
}

impl Default for CoverageTableBuilder {
    /// An empty set.
    fn default() -> (r: CoverageTableBuilder)
        ensures
            r.wf(),
            r@ == Seq::<GlyphId>::empty(),
    {
        CoverageTableBuilder::new()
    }
}

/// Adding `g` to a set adds it to the set of elements.
proof fn lemma_add_to_set(before: Seq<GlyphId>, g: GlyphId, after: Seq<GlyphId>, r: int)
    requires
        add_post(before, g, after, r),
    ensures
        after.to_set() == before.to_set().insert(g),
{
    if before.contains(g) {
        assert(after.to_set() =~= before.to_set().insert(g));
    } else {
        assert forall|x: GlyphId| after.to_set().contains(x) <==> before.to_set().insert(
            g,
        ).contains(x) by {
            if after.contains(x) {
                let k = choose|k: int| 0 <= k < after.len() && after[k] == x;
                if k < r {
                    assert(before[k] == x);
                } else if k > r {
                    assert(before[k - 1] == x);
                }
            }
            if before.contains(x) {
                let k = choose|k: int| 0 <= k < before.len() && before[k] == x;
                if k < r {
                    assert(after[k] == x);
                } else {
                    assert(after[k + 1] == x);
                }
            }
        }
        assert(after.to_set() =~= before.to_set().insert(g));
    }
}

} // verus!
