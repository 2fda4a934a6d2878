use rich_text::geometry::{
    compute_selection, point_in_text_selection, range_band_rects, PixelBounds, PixelPoint,
    Selection,
};

fn point(x: i64, y: i64) -> PixelPoint {
    PixelPoint { x, y }
}

#[test]
fn test_point_in_text_selection() {
    let line_height = 20;
    let char_width = 10;
    let bounds = PixelBounds::new(50, 50, 100, 100);

    // First line but half a line above, true
    assert!(point_in_text_selection(point(50, 40), char_width, &bounds, line_height));

    // First line in selection, true
    assert!(point_in_text_selection(point(50, 50), char_width, &bounds, line_height));
    // First line, but left out of selection, false
    assert!(!point_in_text_selection(point(40, 50), char_width, &bounds, line_height));
    // First line but right out of selection, true
    assert!(point_in_text_selection(point(160, 50), char_width, &bounds, line_height));

    // Middle line in selection, true
    assert!(point_in_text_selection(point(100, 70), char_width, &bounds, line_height));
    // Middle line, but left out of selection, true
    assert!(point_in_text_selection(point(40, 70), char_width, &bounds, line_height));
    // Middle line, but right out of selection, true
    assert!(point_in_text_selection(point(160, 70), char_width, &bounds, line_height));

    // Last line in selection, true
    assert!(point_in_text_selection(point(100, 140), char_width, &bounds, line_height));
    // Last line, but left out of selection, true
    assert!(point_in_text_selection(point(40, 140), char_width, &bounds, line_height));
    // Last line, but right out of selection, false
    assert!(!point_in_text_selection(point(160, 140), char_width, &bounds, line_height));

    // Out of vertical bounds (top), false
    assert!(!point_in_text_selection(point(100, 20), char_width, &bounds, line_height));
    // Out of vertical bounds (bottom), false
    assert!(!point_in_text_selection(point(100, 160), char_width, &bounds, line_height));
}

#[test]
fn selection_round_trip_on_one_line() {
    // five characters at x = 0, 10, 20, 30, 40, each 10 wide, on one line
    let positions: Vec<Option<PixelPoint>> =
        (0..=5).map(|k| Some(point(10 * k, 100))).collect();
    // bounds exactly covering characters [1, 4)
    let bounds = PixelBounds::new(10, 100, 30, 20);
    let sel = compute_selection(5, &positions, &bounds, 20).unwrap();
    assert_eq!((sel.start, sel.end), (1, 4));
    // bounds covering nothing select nothing
    let far = PixelBounds::new(0, 500, 30, 20);
    assert!(compute_selection(5, &positions, &far, 20).is_none());
}

#[test]
fn selection_skips_unpositioned_characters() {
    let positions: Vec<Option<PixelPoint>> = vec![
        Some(point(0, 0)),
        None,
        Some(point(20, 0)),
        Some(point(30, 0)),
    ];
    let bounds = PixelBounds::new(0, 0, 30, 20);
    let sel = compute_selection(3, &positions, &bounds, 20).unwrap();
    assert_eq!((sel.start, sel.end), (0, 3));
}

#[test]
fn band_rects_single_and_multi_line() {
    // one line: a single rectangle between the two positions
    let rects = range_band_rects(point(5, 0), point(25, 0), 0, 100, 20);
    assert_eq!(rects, vec![PixelBounds::new(5, 0, 20, 20)]);

    // two lines: to the right edge, then from the left edge
    let rects = range_band_rects(point(5, 0), point(25, 20), 0, 100, 20);
    assert_eq!(
        rects,
        vec![PixelBounds::new(5, 0, 95, 20), PixelBounds::new(0, 20, 25, 20)]
    );

    // three or more lines: a full-width middle band appears
    let rects = range_band_rects(point(5, 0), point(25, 60), 0, 100, 20);
    assert_eq!(
        rects,
        vec![
            PixelBounds::new(5, 0, 95, 20),
            PixelBounds::new(0, 20, 100, 40),
            PixelBounds::new(0, 60, 25, 20),
        ]
    );
}

#[test]
fn selections_normalize_their_ends() {
    let backwards = Selection { start: 9, end: 2 };
    assert_eq!(backwards.normalized(), Selection { start: 2, end: 9 });
    let forwards = Selection { start: 2, end: 9 };
    assert_eq!(forwards.normalized(), Selection { start: 2, end: 9 });
}

#[test]
fn multi_line_selection_takes_line_ends() {
    // two visual lines of three characters, 10 pixels apart
    let positions: Vec<Option<PixelPoint>> = vec![
        Some(point(0, 0)),
        Some(point(10, 0)),
        Some(point(20, 0)),
        Some(point(0, 20)),
        Some(point(10, 20)),
        Some(point(20, 20)),
    ];
    // a rectangle from mid-first-line to mid-last-line: the selection runs
    // from the first qualifying character to the end of the qualifying ones
    let bounds = PixelBounds::new(10, 0, 5, 40);
    let sel = compute_selection(6, &positions, &bounds, 20).unwrap();
    assert_eq!((sel.start, sel.end), (1, 5));
}

#[test]
fn inflating_bounds_pads_every_side() {
    let b = PixelBounds::new(10, 20, 30, 40).inflated(2, 3);
    assert_eq!(b, PixelBounds::new(8, 17, 34, 46));
}
