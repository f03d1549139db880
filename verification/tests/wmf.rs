use agentview::types::Rgb;
use agentview::wmf::{
    add_object, colorref, inside_spans, is_drawable, joint_corners, outline_sides, render, Bitmap,
    Object, Op, Path, BS_SOLID, META_CREATEBRUSHINDIRECT, META_CREATEFONTINDIRECT,
    META_CREATEPENINDIRECT, META_DELETEOBJECT, META_ELLIPSE, META_EOF, META_LINETO, META_MOVETO,
    META_OFFSETWINDOWORG, META_POLYGON, META_POLYLINE, META_POLYPOLYGON, META_RECTANGLE,
    META_RESTOREDC, META_ROUNDRECT, META_SAVEDC, META_SCALEWINDOWEXT, META_SELECTOBJECT,
    META_SETPOLYFILLMODE, META_SETWINDOWEXT, META_SETWINDOWORG, PS_NULL,
};

/// A placeable metafile with a 100x100 bounding box and these records.
fn metafile(records: &[(u16, &[u16])]) -> Vec<u8> {
    let mut out = Vec::new();
    out.extend_from_slice(&[0xD7, 0xCD, 0xC6, 0x9A]);
    out.extend_from_slice(&0u16.to_le_bytes());
    for v in [0i16, 0, 100, 100] {
        out.extend_from_slice(&v.to_le_bytes());
    }
    out.extend_from_slice(&100u16.to_le_bytes());
    out.extend_from_slice(&0u32.to_le_bytes());
    out.extend_from_slice(&0u16.to_le_bytes());
    out.extend_from_slice(&[0; 18]);
    for (func, params) in records {
        out.extend_from_slice(&(3 + params.len() as u32).to_le_bytes());
        out.extend_from_slice(&func.to_le_bytes());
        for p in *params {
            out.extend_from_slice(&p.to_le_bytes());
        }
    }
    out
}

fn ops(records: &[(u16, &[u16])]) -> Vec<Op> {
    let data = metafile(records);
    assert!(is_drawable(&data, 100, 100));
    render(&data, 100, 100).unwrap().ops
}

const RED_BRUSH: (u16, &[u16]) = (META_CREATEBRUSHINDIRECT, &[BS_SOLID, 0x00FF, 0x0000, 0]);
const BLUE_PEN: (u16, &[u16]) = (META_CREATEPENINDIRECT, &[0, 3, 0, 0x0000, 0x00FF]);

#[test]
fn plays_a_filled_polygon() {
    let drawn = ops(&[
        RED_BRUSH,
        (META_SELECTOBJECT, &[0]),
        (META_CREATEPENINDIRECT, &[PS_NULL, 0, 0, 0, 0]),
        (META_SELECTOBJECT, &[1]),
        (META_POLYGON, &[4, 25, 25, 75, 25, 75, 75, 25, 75]),
        (META_EOF, &[]),
        (META_POLYGON, &[2, 0, 0, 1, 1]),
    ]);
    assert_eq!(drawn.len(), 1);
    match &drawn[0] {
        Op::Fill { rings, winding, color, ext } => {
            assert!(!winding);
            assert_eq!(*color, Rgb { r: 255, g: 0, b: 0 });
            assert_eq!(*ext, (100, 100));
            assert_eq!(rings.len(), 1);
            match &rings[0] {
                Path::Points(p) => {
                    assert_eq!(*p, vec![(25, 25), (75, 25), (75, 75), (25, 75)])
                }
                Path::Ellipse { .. } => panic!("an ellipse"),
            }
        }
        Op::Stroke { .. } => panic!("a stroke"),
    }
}

#[test]
fn nothing_is_drawn_without_pen_and_brush() {
    assert!(ops(&[(META_POLYGON, &[3, 0, 0, 1, 1, 2, 2]), (META_ELLIPSE, &[9, 9, 0, 0])])
        .is_empty());
}

#[test]
fn restoring_brings_back_what_was_saved() {
    let drawn = ops(&[
        RED_BRUSH,
        (META_SELECTOBJECT, &[0]),
        (META_SAVEDC, &[]),
        (META_SETWINDOWORG, &[7, 5]),
        (META_SETWINDOWEXT, &[20, 10]),
        (META_SETPOLYFILLMODE, &[2]),
        (META_RECTANGLE, &[4, 3, 2, 1]),
        (META_RESTOREDC, &[1]),
        (META_RESTOREDC, &[1]),
        (META_RECTANGLE, &[4, 3, 2, 1]),
    ]);
    assert_eq!(drawn.len(), 2);
    let mut seen = Vec::new();
    for op in &drawn {
        if let Op::Fill { rings, winding, ext, .. } = op {
            if let Path::Points(p) = &rings[0] {
                seen.push((p.clone(), *winding, *ext));
            }
        }
    }
    assert_eq!(seen[0], (vec![(-4, -5), (-2, -5), (-2, -3), (-4, -3)], true, (10, 20)));
    assert_eq!(seen[1], (vec![(1, 2), (3, 2), (3, 4), (1, 4)], false, (100, 100)));
}

#[test]
fn lines_start_where_the_last_one_ended() {
    let drawn = ops(&[
        BLUE_PEN,
        (META_SELECTOBJECT, &[0]),
        (META_MOVETO, &[2, 1]),
        (META_LINETO, &[4, 3]),
        (META_LINETO, &[6, 5]),
        (META_POLYLINE, &[1, 9, 9]),
        (META_POLYLINE, &[2, 9, 9, 8, 8]),
    ]);
    let mut seen = Vec::new();
    for op in &drawn {
        match op {
            Op::Stroke { path: Path::Points(p), close, width, color, .. } => {
                assert!(!close);
                assert_eq!(*width, 3);
                assert_eq!(*color, Rgb { r: 0, g: 0, b: 255 });
                seen.push(p.clone());
            }
            _ => panic!("no line"),
        }
    }
    // A polyline of one point has no outline.
    assert_eq!(seen, vec![vec![(1, 2), (3, 4)], vec![(3, 4), (5, 6)], vec![(9, 9), (8, 8)]]);
}

#[test]
fn several_polygons_fill_as_one_figure() {
    let drawn = ops(&[
        RED_BRUSH,
        (META_SELECTOBJECT, &[0]),
        BLUE_PEN,
        (META_SELECTOBJECT, &[1]),
        (META_POLYPOLYGON, &[2, 2, 3, 1, 2, 3, 4, 5, 6, 7, 8, 9, 10]),
    ]);
    assert_eq!(drawn.len(), 3);
    match &drawn[0] {
        Op::Fill { rings, .. } => {
            let sizes: Vec<usize> = rings
                .iter()
                .map(|r| match r {
                    Path::Points(p) => p.len(),
                    Path::Ellipse { .. } => 0,
                })
                .collect();
            assert_eq!(sizes, vec![2, 3]);
        }
        Op::Stroke { .. } => panic!("a stroke"),
    }
    match &drawn[2] {
        Op::Stroke { path: Path::Points(p), close, .. } => {
            assert!(*close);
            assert_eq!(*p, vec![(5, 6), (7, 8), (9, 10)]);
        }
        _ => panic!("no outline"),
    }
}

#[test]
fn ellipses_and_round_rectangles_are_placed() {
    let drawn = ops(&[
        RED_BRUSH,
        (META_SELECTOBJECT, &[0]),
        (META_OFFSETWINDOWORG, &[2, 1]),
        (META_ELLIPSE, &[40, 30, 20, 10]),
        (META_ROUNDRECT, &[5, 5, 40, 30, 20, 10]),
    ]);
    match &drawn[0] {
        Op::Fill { rings, .. } => match &rings[0] {
            Path::Ellipse { left, top, right, bottom, org } => {
                assert_eq!((*left, *top, *right, *bottom), (10, 20, 30, 40));
                assert_eq!(*org, (1, 2));
            }
            Path::Points(_) => panic!("points"),
        },
        Op::Stroke { .. } => panic!("a stroke"),
    }
    match &drawn[1] {
        Op::Fill { rings, .. } => match &rings[0] {
            Path::Points(p) => assert_eq!(*p, vec![(9, 18), (29, 18), (29, 38), (9, 38)]),
            Path::Ellipse { .. } => panic!("an ellipse"),
        },
        Op::Stroke { .. } => panic!("a stroke"),
    }
}

#[test]
fn scaling_the_window_truncates() {
    let drawn = ops(&[
        RED_BRUSH,
        (META_SELECTOBJECT, &[0]),
        (META_SETWINDOWEXT, &[7, 0xFFF9]),
        (META_SCALEWINDOWEXT, &[2, 1, 2, 1]),
        (META_SCALEWINDOWEXT, &[0, 1, 2, 1]),
        (META_RECTANGLE, &[1, 1, 0, 0]),
    ]);
    match &drawn[0] {
        Op::Fill { ext, .. } => assert_eq!(*ext, (-3, 3)),
        Op::Stroke { .. } => panic!("a stroke"),
    }
}

#[test]
fn objects_take_the_lowest_free_slot() {
    let mut table = Vec::new();
    add_object(&mut table, Object::Font);
    add_object(&mut table, Object::Font);
    table[0] = Object::Free;
    let brush = Object::Brush(agentview::wmf::Brush {
        style: BS_SOLID,
        color: Rgb { r: 1, g: 2, b: 3 },
    });
    add_object(&mut table, brush);
    assert_eq!(table, vec![brush, Object::Font]);
    add_object(&mut table, Object::Font);
    assert_eq!(table.len(), 3);

    // The same through records: the font keeps the indices aligned.
    let drawn = ops(&[
        (META_CREATEFONTINDIRECT, &[]),
        RED_BRUSH,
        (META_DELETEOBJECT, &[0]),
        (META_DELETEOBJECT, &[9]),
        (META_CREATEBRUSHINDIRECT, &[BS_SOLID, 0xFF00, 0, 0]),
        (META_SELECTOBJECT, &[0]),
        (META_SELECTOBJECT, &[9]),
        (META_RECTANGLE, &[1, 1, 0, 0]),
    ]);
    match &drawn[0] {
        Op::Fill { color, .. } => assert_eq!(*color, Rgb { r: 0, g: 255, b: 0 }),
        Op::Stroke { .. } => panic!("a stroke"),
    }
}

#[test]
fn hollow_brushes_do_not_fill() {
    for (style, fills) in [(0u16, 1), (1, 0), (2, 1), (3, 0)] {
        let params = [style, 0, 0, 0];
        let drawn = ops(&[
            (META_CREATEBRUSHINDIRECT, &params),
            (META_SELECTOBJECT, &[0]),
            (META_RECTANGLE, &[1, 1, 0, 0]),
        ]);
        assert_eq!(drawn.len(), fills);
    }
}

#[test]
fn short_metafiles_are_refused() {
    assert_eq!(render(&[0; 17], 4, 4).unwrap_err().message(), "truncated Actor metafile");
    assert!(render(&[0; 18], 4, 4).unwrap().ops.is_empty());
    let empty = render(&[], 0, 7).unwrap();
    assert_eq!((empty.width, empty.height), (1, 7));
    assert!(empty.ops.is_empty());
}

#[test]
fn without_a_bounding_box_the_picture_is_the_window() {
    let mut data = vec![0u8; 18];
    for (func, params) in [
        (META_CREATEBRUSHINDIRECT, vec![0u16, 0, 0, 0]),
        (META_SELECTOBJECT, vec![0]),
        (META_RECTANGLE, vec![1, 1, 0, 0]),
    ] {
        data.extend_from_slice(&(3 + params.len() as u32).to_le_bytes());
        data.extend_from_slice(&func.to_le_bytes());
        for p in params {
            data.extend_from_slice(&p.to_le_bytes());
        }
    }
    match &render(&data, 30, 40).unwrap().ops[0] {
        Op::Fill { ext, .. } => assert_eq!(*ext, (30, 40)),
        Op::Stroke { .. } => panic!("a stroke"),
    }
}

#[test]
fn overflowing_metafiles_are_told_apart() {
    let params = [1u16, 0x7FFF, 1, 0x7FFF];
    let data = metafile(&[
        (META_SCALEWINDOWEXT, &params),
        (META_SCALEWINDOWEXT, &params),
        (META_SCALEWINDOWEXT, &params),
    ]);
    assert!(!is_drawable(&data, 100, 100));
    assert!(is_drawable(&data, 0, 100));
}

#[test]
fn colours_are_stored_red_lowest() {
    assert_eq!(colorref(0x0033_2211), Rgb { r: 0x11, g: 0x22, b: 0x33 });
}

#[test]
fn bitmaps_start_clear() {
    let b = Bitmap::blank(3, 2);
    assert_eq!(b.rgba, vec![0; 24]);
    let p = b.pixel(2, 1);
    assert_eq!((p.r, p.g, p.b, p.a), (0, 0, 0, 0));
}

#[test]
fn outlines_and_spans() {
    assert_eq!(outline_sides(3, true), vec![(0, 1), (1, 2), (2, 0)]);
    assert_eq!(outline_sides(3, false), vec![(0, 1), (1, 2)]);
    assert_eq!(outline_sides(0, false), vec![]);
    assert_eq!(joint_corners(4, true), (0, 4));
    assert_eq!(joint_corners(4, false), (1, 4));
    assert_eq!(inside_spans(&vec![true, true, false, false], true), vec![true, true, true]);
    assert_eq!(inside_spans(&vec![true, false, true, false], true), vec![true, false, true]);
    assert_eq!(inside_spans(&vec![true, true, false, false], false), vec![true, false, true]);
    assert_eq!(inside_spans(&vec![], true), vec![]);
}
