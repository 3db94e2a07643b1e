use font_tables::class_def::{ClassDef, ClassDefBuilder, ClassDefFormat2, ClassRangeRecord};
use font_tables::layout::{
    should_choose_coverage_format_2, CoverageFormat1, CoverageFormat2, CoverageTable,
    CoverageTableBuilder, RangeRecord,
};
use font_tables::scalar::GlyphId;

fn gids(ids: &[u16]) -> Vec<GlyphId> {
    ids.iter().map(|g| GlyphId::new(*g)).collect()
}

fn class_builder(items: &[(u16, u16)]) -> ClassDefBuilder {
    ClassDefBuilder::from_items(items.iter().map(|(g, c)| (GlyphId::new(*g), *c)).collect())
}

#[test]
fn classdef_format() {
    let builder = class_builder(&[(3u16, 4u16), (4, 6), (5, 1), (9, 5), (10, 2), (11, 3)]);

    assert!(builder.prefer_format_1());

    let builder = class_builder(&[(1u16, 1u16), (3, 4), (9, 5), (10, 2), (11, 3)]);

    assert!(builder.prefer_format_1());
}

#[test]
fn classdef_format_builds_dense_array() {
    let builder = class_builder(&[(3, 4), (4, 6), (5, 1), (9, 5), (10, 2), (11, 3)]);
    match builder.build() {
        ClassDef::Format1(t) => {
            assert_eq!(t.start_glyph_id, GlyphId::new(3));
            assert_eq!(t.class_value_array, vec![4, 6, 1, 0, 0, 0, 5, 2, 3]);
        }
        ClassDef::Format2(_) => panic!("expected the array encoding"),
    }
}

#[test]
fn classdef_format_2_when_ranges_are_smaller() {
    // Two long runs of one class, far apart: 2 ranges (16 bytes) beat an array
    // over 1000 glyphs.
    let mut items = Vec::new();
    for g in 0..20u16 {
        items.push((g, 1u16));
    }
    for g in 1000..1020u16 {
        items.push((g, 2u16));
    }
    let builder = class_builder(&items);
    assert!(!builder.prefer_format_1());
    let table = builder.build();
    match &table {
        ClassDef::Format2(t) => {
            assert_eq!(
                t.class_range_records,
                vec![
                    ClassRangeRecord {
                        start_glyph_id: GlyphId::new(0),
                        end_glyph_id: GlyphId::new(19),
                        class: 1
                    },
                    ClassRangeRecord {
                        start_glyph_id: GlyphId::new(1000),
                        end_glyph_id: GlyphId::new(1019),
                        class: 2
                    },
                ]
            );
        }
        ClassDef::Format1(_) => panic!("expected the range encoding"),
    }
    let entries = table.iter();
    assert_eq!(entries.len(), 40);
    assert_eq!(entries[0], (GlyphId::new(0), 1));
    assert_eq!(entries[39], (GlyphId::new(1019), 2));
    assert_eq!(table.class_count(), 3);
}

#[test]
fn classdef_ranges_split_on_class_change() {
    let builder = class_builder(&[(1, 1), (2, 1), (3, 2), (5, 2)]);
    let ranges = font_tables::class_def::iter_class_ranges(&[
        (GlyphId::new(1), 1),
        (GlyphId::new(2), 1),
        (GlyphId::new(3), 2),
        (GlyphId::new(5), 2),
    ]);
    assert_eq!(ranges.len(), 3);
    assert_eq!(ranges[0].end_glyph_id, GlyphId::new(2));
    assert_eq!(ranges[1].start_glyph_id, GlyphId::new(3));
    assert_eq!(ranges[2].start_glyph_id, GlyphId::new(5));
    // array: 3 + 4 = 7; ranges: 4 + 3 * 6 = 22
    assert!(builder.prefer_format_1());
}

#[test]
fn classdef_format_choice_by_size() {
    // one glyph: array 3 + 0 = 3, ranges 4 + 6 = 10
    let builder = class_builder(&[(7, 3)]);
    assert!(builder.prefer_format_1());
    // ids 0 and 7 in two classes: array 3 + 7 = 10, ranges 4 + 2 * 6 = 16
    let builder = class_builder(&[(0, 1), (7, 2)]);
    assert!(builder.prefer_format_1());
    // ids 0 and 20 in two classes: array 3 + 20 = 23, ranges 16
    let builder = class_builder(&[(0, 1), (20, 2)]);
    assert!(!builder.prefer_format_1());
    // ids 0 to 7 in one class: array 3 + 7 = 10, ranges 4 + 6 = 10: a tie
    let items: Vec<(u16, u16)> = (0..8u16).map(|g| (g, 5)).collect();
    assert!(class_builder(&items).prefer_format_1());
    // ids 0 to 8 in one class: array 3 + 8 = 11, ranges 10
    let items: Vec<(u16, u16)> = (0..9u16).map(|g| (g, 5)).collect();
    assert!(!class_builder(&items).prefer_format_1());
}

#[test]
fn classdef_later_entry_wins() {
    let builder = class_builder(&[(4, 1), (2, 5), (4, 9)]);
    assert_eq!(builder.get(GlyphId::new(4)), Some(9));
    assert_eq!(builder.get(GlyphId::new(2)), Some(5));
    assert_eq!(builder.get(GlyphId::new(3)), None);
}

#[test]
fn classdef_empty_builder() {
    let builder = ClassDefBuilder::new();
    assert!(builder.prefer_format_1());
    match builder.build() {
        ClassDef::Format1(t) => {
            assert_eq!(t.start_glyph_id, GlyphId::new(0));
            assert_eq!(t.class_value_array, vec![0]);
        }
        ClassDef::Format2(_) => panic!("expected the array encoding"),
    }
}

#[test]
fn classdef_class_count_counts_zero() {
    let table = class_builder(&[(3, 4), (4, 6), (5, 4), (9, 5)]).build();
    // classes 4, 6, 5, and 0 for the gaps / unlisted glyphs
    assert_eq!(table.class_count(), 4);
    let table = class_builder(&[(3, 0)]).build();
    assert_eq!(table.class_count(), 1);
}

#[test]
fn classdef_format1_iter() {
    let table = class_builder(&[(3, 4), (5, 1)]).build();
    assert_eq!(
        table.iter(),
        vec![(GlyphId::new(3), 4), (GlyphId::new(4), 0), (GlyphId::new(5), 1)]
    );
}

#[test]
fn classdef_reversed_range_is_reported() {
    let classdef = ClassDefFormat2 {
        class_range_records: vec![ClassRangeRecord {
            start_glyph_id: GlyphId::new(12),
            end_glyph_id: GlyphId::new(3),
            class: 7,
        }],
    };
    let err = classdef.validate().unwrap_err();
    assert_eq!(err.index, 0);
    assert_eq!(err.start_glyph_id, GlyphId::new(12));
    assert_eq!(err.end_glyph_id, GlyphId::new(3));

    let ok = ClassDefFormat2 {
        class_range_records: vec![ClassRangeRecord {
            start_glyph_id: GlyphId::new(3),
            end_glyph_id: GlyphId::new(3),
            class: 7,
        }],
    };
    assert!(ok.validate().is_ok());
}

#[test]
fn coverage_add_is_idempotent() {
    let mut builder = CoverageTableBuilder::from_glyphs(gids(&[10, 2, 7]));
    assert_eq!(builder.add(GlyphId::new(5)), 1);
    let once = builder.add(GlyphId::new(8));
    let after_once = builder.build();
    let mut builder = CoverageTableBuilder::from_glyphs(gids(&[10, 2, 7]));
    builder.add(GlyphId::new(5));
    let first = builder.add(GlyphId::new(8));
    let second = builder.add(GlyphId::new(8));
    assert_eq!(once, 3);
    assert_eq!(first, second);
    assert_eq!(builder.build(), after_once);
}

#[test]
fn coverage_from_glyphs_sorts_and_dedups() {
    let table = CoverageTableBuilder::from_glyphs(gids(&[9, 3, 3, 1, 9])).build();
    assert_eq!(table.iter(), gids(&[1, 3, 9]));
    assert_eq!(table.len(), 3);
    assert!(!table.is_empty());
}

#[test]
fn coverage_ranges_of_5_6_7_10() {
    let ranges = RangeRecord::iter_for_glyphs(&gids(&[5, 6, 7, 10]));
    assert_eq!(
        ranges,
        vec![
            RangeRecord {
                start_glyph_id: GlyphId::new(5),
                end_glyph_id: GlyphId::new(7),
                start_coverage_index: 0
            },
            RangeRecord {
                start_glyph_id: GlyphId::new(10),
                end_glyph_id: GlyphId::new(10),
                start_coverage_index: 3
            },
        ]
    );
}

#[test]
fn coverage_round_trip_array_format() {
    // isolated ids: 4 ranges (28 bytes) against an array (12 bytes)
    let ids = gids(&[40, 1, 30, 20, 1]);
    let table = CoverageTableBuilder::from_glyphs(ids).build();
    assert!(matches!(table, CoverageTable::Format1(_)));
    assert_eq!(table.iter(), gids(&[1, 20, 30, 40]));
}

#[test]
fn coverage_round_trip_range_format() {
    // one run of 10 ids: one range (10 bytes) against an array (24 bytes)
    let ids: Vec<GlyphId> = (100..110u16).rev().map(GlyphId::new).collect();
    let table = CoverageTableBuilder::from_glyphs(ids).build();
    match &table {
        CoverageTable::Format2(t) => assert_eq!(t.range_records.len(), 1),
        CoverageTable::Format1(_) => panic!("expected the range encoding"),
    }
    let expected: Vec<GlyphId> = (100..110u16).map(GlyphId::new).collect();
    assert_eq!(table.iter(), expected);
    assert_eq!(table.len(), 10);
}

#[test]
fn coverage_format_choice_is_deterministic() {
    let a = CoverageTableBuilder::from_glyphs(gids(&[1, 2, 3, 4, 9])).build();
    let b = CoverageTableBuilder::from_glyphs(gids(&[9, 4, 3, 2, 1])).build();
    assert_eq!(a, b);
}

#[test]
fn coverage_format_tie_goes_to_array() {
    // 3 ids in one run: ranges 4 + 6 = 10, array 4 + 6 = 10
    assert!(!should_choose_coverage_format_2(&gids(&[1, 2, 3])));
    assert!(should_choose_coverage_format_2(&gids(&[1, 2, 3, 4])));
    assert!(!should_choose_coverage_format_2(&[]));
}

#[test]
fn coverage_empty_table() {
    let table = CoverageTableBuilder::new().build();
    assert!(table.is_empty());
    assert_eq!(table.iter(), Vec::<GlyphId>::new());
}

#[test]
fn coverage_len_counts_reversed_range_as_one() {
    let table = CoverageTable::Format2(CoverageFormat2 {
        range_records: vec![RangeRecord {
            start_glyph_id: GlyphId::new(9),
            end_glyph_id: GlyphId::new(4),
            start_coverage_index: 0,
        }],
    });
    assert_eq!(table.len(), 1);
    assert_eq!(table.iter(), Vec::<GlyphId>::new());
    let table = CoverageTable::Format1(CoverageFormat1 { glyph_array: gids(&[4, 5]) });
    assert_eq!(table.len(), 2);
}

#[test]
fn coverage_largest_glyph_ids() {
    let mut builder = CoverageTableBuilder::new();
    assert_eq!(builder.add(GlyphId::new(65535)), 0);
    assert_eq!(builder.add(GlyphId::new(65534)), 0);
    assert_eq!(builder.add(GlyphId::new(65535)), 1);
    let ranges = RangeRecord::iter_for_glyphs(&gids(&[65533, 65534, 65535]));
    assert_eq!(ranges.len(), 1);
    assert_eq!(ranges[0].end_glyph_id, GlyphId::new(65535));
    let table = builder.build();
    assert_eq!(table.iter(), gids(&[65534, 65535]));
}
