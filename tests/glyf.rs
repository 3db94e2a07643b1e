use font_tables::bbox::Bbox;
use font_tables::font_data::{FontData, ReadError};
use font_tables::component::{
    DEFINED_COMPONENT_FLAGS, Component, ComponentPos, FieldValue, ARGS_ARE_XY_VALUES, ARG_1_AND_2_ARE_WORDS,
    MORE_COMPONENTS, WE_HAVE_A_SCALE, WE_HAVE_A_TWO_BY_TWO,
};
use font_tables::glyf::{CompositeGlyph, Glyf, Glyph, SimpleGlyph};
use font_tables::outline::{resolve_coords_len, FieldLengths, GlyphPoint, Point};
use font_tables::scalar::GlyphId;

fn header(n_contours: i16) -> Vec<u8> {
    let mut b = n_contours.to_be_bytes().to_vec();
    for v in [-5i16, -6, 70, 80] {
        b.extend_from_slice(&v.to_be_bytes());
    }
    b
}

fn roles(points: &[GlyphPoint]) -> Vec<&'static str> {
    points
        .iter()
        .map(|p| match p {
            GlyphPoint::OffCurve(_) => "off",
            GlyphPoint::OnCurve(_) => "on",
            GlyphPoint::End(_) => "end",
        })
        .collect()
}

#[test]
fn contour_ends_mark_end_points() {
    let mut bytes = header(2);
    bytes.extend_from_slice(&[0, 2, 0, 5, 0, 0]);
    // three off-curve points, then three on-curve points, coordinates repeated
    bytes.extend_from_slice(&[0x38, 2, 0x39, 2]);
    let glyph = SimpleGlyph::read(FontData::new(&bytes)).ok().unwrap();
    let points = glyph.points();
    assert_eq!(roles(&points), vec!["off", "off", "end", "on", "on", "end"]);

    let mut iter = glyph.iter_points();
    let mut n = 0;
    while iter.next().is_some() {
        n += 1;
    }
    assert_eq!(n, 6);
}

#[test]
fn point_deltas_decode() {
    let mut bytes = header(1);
    bytes.extend_from_slice(&[0, 2, 0, 0]);
    bytes.extend_from_slice(&[0x37, 0x03, 0x30]);
    bytes.extend_from_slice(&[10, 3]);
    bytes.extend_from_slice(&[20, 0xFF, 0xF6]);
    let glyph = SimpleGlyph::read(FontData::new(&bytes)).ok().unwrap();
    assert_eq!(
        glyph.points(),
        vec![
            GlyphPoint::OnCurve(Point { x: 10, y: 20 }),
            GlyphPoint::OnCurve(Point { x: 7, y: 10 }),
            GlyphPoint::End(Point { x: 7, y: 10 }),
        ]
    );
    assert_eq!(
        glyph.compute_bbox(),
        Bbox { x_min: 7, y_min: 10, x_max: 10, y_max: 20 }
    );
    assert_eq!(
        resolve_coords_len(glyph.glyph_data(), 3),
        Some(FieldLengths { flags: 3, x_coords: 2, y_coords: 3 })
    );
}

#[test]
fn coordinates_wrap() {
    let mut bytes = header(1);
    bytes.extend_from_slice(&[0, 1, 0, 0]);
    // two points with 16-bit x deltas of 0x7FFF and 2, y repeated
    bytes.extend_from_slice(&[0x20, 0x20]);
    bytes.extend_from_slice(&[0x7F, 0xFF, 0x00, 0x02]);
    let glyph = SimpleGlyph::read(FontData::new(&bytes)).ok().unwrap();
    let points = glyph.points();
    assert_eq!(points[0].point(), Point { x: 32767, y: 0 });
    assert_eq!(points[1].point(), Point { x: -32767, y: 0 });
}

#[test]
fn measuring_counts_two_bytes_for_long_coordinates() {
    // 2 points, x long and y long: 4 bytes each; then a repeated flag
    assert_eq!(
        resolve_coords_len(&[0x00, 0x00], 2),
        Some(FieldLengths { flags: 2, x_coords: 4, y_coords: 4 })
    );
    assert_eq!(
        resolve_coords_len(&[0x0A, 4], 5),
        Some(FieldLengths { flags: 2, x_coords: 5, y_coords: 10 })
    );
    // repeat count past the last point, or flags that run out
    assert_eq!(resolve_coords_len(&[0x08, 4], 3), None);
    assert_eq!(resolve_coords_len(&[0x00], 2), None);
    assert_eq!(resolve_coords_len(&[0x08], 2), None);
    assert_eq!(resolve_coords_len(&[], 0), Some(FieldLengths { flags: 0, x_coords: 0, y_coords: 0 }));
}

#[test]
fn malformed_point_data_gives_no_points() {
    let mut bytes = header(1);
    bytes.extend_from_slice(&[0, 3, 0, 0]);
    // four points, but flags for one only
    bytes.extend_from_slice(&[0x00, 0x00]);
    let glyph = SimpleGlyph::read(FontData::new(&bytes)).ok().unwrap();
    assert_eq!(glyph.header().x_max, 70);
    assert!(glyph.points().is_empty());
    assert_eq!(glyph.compute_bbox(), Bbox::empty());
    let mut iter = glyph.iter_points();
    assert!(iter.next().is_none());
}

#[test]
fn simple_glyph_layout() {
    let mut bytes = header(1);
    bytes.extend_from_slice(&[0, 0, 0, 2, 0xB0, 0x01, 0x31]);
    let glyph = SimpleGlyph::read(FontData::new(&bytes)).ok().unwrap();
    assert_eq!(glyph.end_pts_of_contours().get(0), Some(0));
    assert_eq!(glyph.instruction_length(), 2);
    assert_eq!(glyph.instructions(), &[0xB0, 0x01]);
    assert_eq!(glyph.glyph_data(), &[0x31]);
    assert_eq!(glyph.points(), vec![GlyphPoint::End(Point { x: 0, y: 0 })]);

    let mut truncated = header(2);
    truncated.extend_from_slice(&[0, 0]);
    assert!(matches!(SimpleGlyph::read(FontData::new(&truncated)), Err(ReadError::OutOfBounds)));
    let mut long_instr = header(0);
    long_instr.extend_from_slice(&[0, 5, 1]);
    assert!(matches!(SimpleGlyph::read(FontData::new(&long_instr)), Err(ReadError::OutOfBounds)));
    assert!(matches!(
        SimpleGlyph::read(FontData::new(&header(-1))),
        Err(ReadError::InvalidFormat(0xFFFF))
    ));
    assert!(matches!(SimpleGlyph::read(FontData::new(&[0, 1, 0])), Err(ReadError::OutOfBounds)));
}

fn composite(records: &[u8]) -> Vec<u8> {
    let mut bytes = header(-1);
    bytes.extend_from_slice(records);
    bytes
}

#[test]
fn single_component_ends_iteration() {
    // xy offsets of one byte each, no "more components"; trailing bytes after
    let bytes = composite(&[0x00, 0x02, 0x00, 0x09, 0x01, 0x02, 0x00, 0x22, 0x00, 0x01, 5, 5]);
    let glyph = CompositeGlyph::read(FontData::new(&bytes)).ok().unwrap();
    let mut iter = glyph.iter_components();
    assert_eq!(
        iter.next(),
        Some(Component {
            flags: ARGS_ARE_XY_VALUES,
            glyph: GlyphId::new(9),
            pos: ComponentPos::Offset { x: 1, y: 2 },
        })
    );
    assert_eq!(iter.next(), None);
    assert_eq!(iter.next(), None);
    assert_eq!(glyph.components().len(), 1);
}

#[test]
fn components_in_each_argument_form() {
    let bytes = composite(&[
        // 16-bit signed offsets, more follow
        0x00, 0x23, 0x00, 0x05, 0x00, 0x0A, 0xFF, 0xFE,
        // 8-bit signed offsets with a scale (2 bytes), more follow
        0x00, 0x2A, 0x00, 0x07, 0xFE, 0x03, 0x40, 0x00,
        // 16-bit point numbers with a 2x2 transform (8 bytes), more follow
        0x00, 0xA1, 0x00, 0x08, 0x01, 0x00, 0x00, 0x02, 1, 2, 3, 4, 5, 6, 7, 8,
        // 8-bit point numbers, last
        0x00, 0x00, 0x00, 0x0B, 0xFE, 0x04,
    ]);
    let glyph = match Glyph::read(FontData::new(&bytes)).ok().unwrap() {
        Glyph::Composite(g) => g,
        Glyph::Simple(_) => panic!("expected a composite glyph"),
    };
    assert_eq!(glyph.flags(), 0x23);
    assert_eq!(glyph.glyph_index(), 5);
    assert_eq!(
        glyph.components(),
        vec![
            Component {
                flags: ARG_1_AND_2_ARE_WORDS | ARGS_ARE_XY_VALUES | MORE_COMPONENTS,
                glyph: GlyphId::new(5),
                pos: ComponentPos::Offset { x: 10, y: -2 },
            },
            Component {
                flags: ARGS_ARE_XY_VALUES | WE_HAVE_A_SCALE | MORE_COMPONENTS,
                glyph: GlyphId::new(7),
                pos: ComponentPos::Offset { x: -2, y: 3 },
            },
            Component {
                flags: ARG_1_AND_2_ARE_WORDS | WE_HAVE_A_TWO_BY_TWO | MORE_COMPONENTS,
                glyph: GlyphId::new(8),
                pos: ComponentPos::Point { base: 256, component: 2 },
            },
            Component {
                flags: 0,
                glyph: GlyphId::new(11),
                pos: ComponentPos::Point { base: 254, component: 4 },
            },
        ]
    );
}

#[test]
fn truncated_components_stop_early() {
    // more components announced, but the second record is cut short
    let bytes = composite(&[0x00, 0x20, 0x00, 0x03, 0x01, 0x02, 0x00, 0x00, 0x00]);
    let glyph = CompositeGlyph::read(FontData::new(&bytes)).ok().unwrap();
    let components = glyph.components();
    assert_eq!(components.len(), 1);
    assert_eq!(components[0].pos, ComponentPos::Point { base: 1, component: 2 });
    assert!(matches!(
        CompositeGlyph::read(FontData::new(&composite(&[0, 0, 0]))),
        Err(ReadError::OutOfBounds)
    ));
}

#[test]
fn glyph_dispatch_and_header_bbox() {
    let mut bytes = header(0);
    bytes.extend_from_slice(&[0, 0]);
    let glyph = Glyph::read(FontData::new(&bytes)).ok().unwrap();
    assert!(matches!(glyph, Glyph::Simple(_)));
    assert_eq!(glyph.bbox(), Bbox { x_min: -5, y_min: -6, x_max: 70, y_max: 80 });
    assert_eq!(glyph.number_of_contours(), 0);
    assert!(matches!(Glyph::read(FontData::new(&[1])), Err(ReadError::OutOfBounds)));
}

#[test]
fn bbox_union_laws_on_values() {
    let a = Bbox { x_min: 0, y_min: 0, x_max: 10, y_max: 10 };
    let b = Bbox { x_min: -5, y_min: 3, x_max: 4, y_max: 20 };
    let c = Bbox { x_min: 2, y_min: -7, x_max: 30, y_max: 1 };
    let union = |x: Bbox, y: Bbox| {
        let mut r = x;
        r.union(y);
        r
    };
    assert_eq!(union(a, b), Bbox { x_min: -5, y_min: 0, x_max: 10, y_max: 20 });
    assert_eq!(union(a, b), union(b, a));
    assert_eq!(union(union(a, b), c), union(a, union(b, c)));
    assert_eq!(union(union(c, a), b), union(union(a, b), c));
    assert_eq!(union(a, a), a);
    assert_eq!(union(Bbox::default(), a), a);
    assert_eq!(Bbox::from_point(Point { x: 3, y: -4 }), Bbox { x_min: 3, y_min: -4, x_max: 3, y_max: -4 });
}

#[test]
fn glyf_resolves_glyph_ranges() {
    let mut bytes = header(0);
    bytes.extend_from_slice(&[0, 0]);
    let first_len = bytes.len();
    bytes.extend_from_slice(&composite(&[0x00, 0x00, 0x00, 0x04, 1, 2]));
    let glyf = Glyf::read(FontData::new(&bytes)).ok().unwrap();
    assert_eq!(glyf.bytes().len(), bytes.len());
    assert!(matches!(glyf.resolve_glyph(0, first_len), Ok(Glyph::Simple(_))));
    match glyf.resolve_glyph(first_len, bytes.len()) {
        Ok(Glyph::Composite(g)) => assert_eq!(g.components()[0].glyph, GlyphId::new(4)),
        _ => panic!("expected a composite glyph"),
    }
    assert!(matches!(glyf.resolve_glyph(0, bytes.len() + 1), Err(ReadError::OutOfBounds)));
    assert!(matches!(glyf.resolve_glyph(5, 4), Err(ReadError::OutOfBounds)));
    assert!(matches!(glyf.resolve_glyph(3, 3), Err(ReadError::OutOfBounds)));
}

#[test]
fn component_fields_in_order() {
    let offset = Component {
        flags: ARGS_ARE_XY_VALUES,
        glyph: GlyphId::new(9),
        pos: ComponentPos::Offset { x: -1, y: 2 },
    };
    let names: Vec<&str> = (0..5).filter_map(|i| offset.get_field(i)).map(|f| f.name).collect();
    assert_eq!(names, vec!["flags", "glyph", "x", "y"]);
    assert_eq!(offset.get_field(2).unwrap().value, FieldValue::I16(-1));
    assert_eq!(offset.get_field(1).unwrap().value, FieldValue::GlyphId(GlyphId::new(9)));
    let point = Component {
        flags: 0,
        glyph: GlyphId::new(3),
        pos: ComponentPos::Point { base: 7, component: 8 },
    };
    assert_eq!(point.get_field(2).unwrap().name, "base");
    assert_eq!(point.get_field(3).unwrap().value, FieldValue::U16(8));
    assert!(point.get_field(4).is_none());
}

#[test]
fn undefined_component_flag_bits_are_cleared() {
    // flag word 0x0010 is bit 4, which no flag defines; 0xE002 adds bits 13-15
    let bytes = composite(&[0x00, 0x10, 0x00, 0x02, 0x01, 0x02]);
    let glyph = CompositeGlyph::read(FontData::new(&bytes)).ok().unwrap();
    assert_eq!(glyph.flags(), 0);
    assert_eq!(glyph.components()[0].flags, 0);
    let bytes = composite(&[0xE0, 0x02, 0x00, 0x02, 0x01, 0x02]);
    let glyph = CompositeGlyph::read(FontData::new(&bytes)).ok().unwrap();
    assert_eq!(glyph.flags(), ARGS_ARE_XY_VALUES);
    assert_eq!(glyph.components()[0].flags, ARGS_ARE_XY_VALUES);
    assert_eq!(glyph.components()[0].pos, ComponentPos::Offset { x: 1, y: 2 });
    assert_eq!(DEFINED_COMPONENT_FLAGS, 0x1FEF);
}
