//! Selection geometry: pixel-space hit testing for text selections, the
//! character range a selection rectangle covers, and the band rectangles a
//! multi-line range paints.
//!
//! Pixels are whole numbers here. Midpoint tests compare doubled
//! coordinates, so no precision is lost to halving.

use vstd::prelude::*;

verus! {

/// A pixel position.
#[derive(Clone, Copy, Debug, PartialEq, Eq, Structural)]
pub struct PixelPoint {
    pub x: i64,
    pub y: i64,
}

/// A pixel rectangle: origin and size.
#[derive(Clone, Copy, Debug, PartialEq, Eq, Structural)]
pub struct PixelBounds {
    pub x: i64,
    pub y: i64,
    pub width: i64,
    pub height: i64,
}

impl PixelBounds {
    /// A rectangle from its origin and size.
    pub fn new(x: i64, y: i64, width: i64, height: i64) -> (r: PixelBounds)
        ensures
            r == (PixelBounds { x, y, width, height }),
    {
        PixelBounds { x, y, width, height }
    }

    /// This rectangle grown by a horizontal and vertical padding on every
    /// side, as a painted background extends past its text.
    pub fn inflated(self, pad_x: i64, pad_y: i64) -> (r: PixelBounds)
        requires
            coord_ok(self.x as int),
            coord_ok(self.y as int),
            coord_ok(self.width as int),
            coord_ok(self.height as int),
            coord_ok(pad_x as int),
            coord_ok(pad_y as int),
        ensures
            r.x == self.x - pad_x,
            r.y == self.y - pad_y,
            r.width == self.width + 2 * pad_x,
            r.height == self.height + 2 * pad_y,
    {
        PixelBounds {
            x: self.x - pad_x,
            y: self.y - pad_y,
            width: self.width + 2 * pad_x,
            height: self.height + 2 * pad_y,
        }
    }
}

/// A contiguous character-offset selection `[start, end)`.
#[derive(Clone, Copy, Debug, PartialEq, Eq, Structural)]
pub struct Selection {
    pub start: usize,
    pub end: usize,
}

impl Selection {
    /// This selection with its ends in ascending order, as painting wants
    /// them; a drag can run right to left.
    pub fn normalized(self) -> (r: Selection)
        ensures
            r.start <= r.end,
            (r.start == self.start && r.end == self.end) || (r.start == self.end && r.end
                == self.start),
    {
        if self.end < self.start {
            Selection { start: self.end, end: self.start }
        } else {
            self
        }
    }
}

/// A coordinate small enough that the doubled sums this module forms never
/// leave the machine range.
pub open spec fn coord_ok(v: int) -> bool {
    -0x4000_0000_0000 <= v <= 0x4000_0000_0000
}

/// A character width in range: the difference of two in-range coordinates.
pub open spec fn width_ok(v: int) -> bool {
    -0x8000_0000_0000 <= v <= 0x8000_0000_0000
}

/// All four bounds coordinates in range.
pub open spec fn bounds_ok(b: PixelBounds) -> bool {
    coord_ok(b.x as int) && coord_ok(b.y as int) && coord_ok(b.width as int) && coord_ok(
        b.height as int,
    )
}

/// Whether a character drawn at `pos` with width `w` counts as inside the
/// selection rectangle `b`, for lines `lh` tall.
///
/// A character outside the rectangle's vertical extent never counts. Within
/// a single-line rectangle its horizontal midpoint must lie between both
/// edges; in a multi-line rectangle a first-row character needs its midpoint
/// at or after the left edge, a last-row character at or before the right
/// edge, and an interior-row character always counts.
pub open spec fn spec_point_in_text_selection(pos: PixelPoint, w: int, b: PixelBounds, lh: int) -> bool {
    let top = b.y as int;
    let bottom = b.y + b.height;
    let left = b.x as int;
    let right = b.x + b.width;
    if pos.y + lh < top || pos.y as int >= bottom {
        false
    } else if bottom - top <= lh {
        2 * pos.x + w >= 2 * left && 2 * pos.x + w <= 2 * right
    } else if pos.y as int <= top {
        2 * pos.x + w >= 2 * left
    } else if pos.y + lh >= bottom {
        2 * pos.x + w <= 2 * right
    } else {
        true
    }
}

/// Checks whether a position falls inside a selection rectangle, honoring
/// the single-line and multi-line rules.
pub fn point_in_text_selection(pos: PixelPoint, char_width: i64, bounds: &PixelBounds, line_height: i64) -> (r: bool)
    requires
        coord_ok(pos.x as int),
        coord_ok(pos.y as int),
        width_ok(char_width as int),
        coord_ok(line_height as int),
        bounds_ok(*bounds),
    ensures
        r == spec_point_in_text_selection(pos, char_width as int, *bounds, line_height as int),
{
    let top = bounds.y;
    let bottom = bounds.y + bounds.height;
    let left = bounds.x;
    let right = bounds.x + bounds.width;
    if pos.y + line_height < top || pos.y >= bottom {
        return false;
    }
    let mid2 = 2 * pos.x + char_width;
    if bottom - top <= line_height {
        return mid2 >= 2 * left && mid2 <= 2 * right;
    }
    if pos.y <= top {
        mid2 >= 2 * left
    } else if pos.y + line_height >= bottom {
        mid2 <= 2 * right
    } else {
        true
    }
}

/// The position recorded for character offset `i`, or nothing when the
/// offset is off-screen or beyond the table.
pub open spec fn lookup_pos(ps: Seq<Option<PixelPoint>>, i: int) -> Option<PixelPoint> {
    if 0 <= i < ps.len() {
        ps[i]
    } else {
        None
    }
}

/// The estimated width of the character at offset `i` drawn at `pos`: the
/// distance to the next recorded position when it sits on the same visual
/// line, else half the line height.
pub open spec fn spec_char_width(ps: Seq<Option<PixelPoint>>, i: int, pos: PixelPoint, lh: int) -> int {
    match lookup_pos(ps, i + 1) {
        Some(np) => if np.y == pos.y {
            np.x - pos.x
        } else {
            lh / 2
        },
        None => lh / 2,
    }
}

/// Whether the character at offset `i` counts as selected: it must have a
/// recorded position, and that position must fall inside the rectangle.
pub open spec fn char_selected(ps: Seq<Option<PixelPoint>>, b: PixelBounds, lh: int, i: int) -> bool {
    match lookup_pos(ps, i) {
        None => false,
        Some(pos) => spec_point_in_text_selection(
            pos,
            spec_char_width(ps, i, pos, lh),
            b,
            lh,
        ),
    }
}

/// Every recorded position within coordinate range.
pub open spec fn positions_ok(ps: Seq<Option<PixelPoint>>) -> bool {
    forall|i: int|
        0 <= i < ps.len() ==> (match #[trigger] ps[i] {
            Some(p) => coord_ok(p.x as int) && coord_ok(p.y as int),
            None => true,
        })
}

/// Computes the contiguous character range a selection rectangle covers, for
/// a text of `char_count` characters whose positions are in `positions`.
///
/// The range runs from the first selected character to one past the last;
/// characters without a recorded position are skipped. No character
/// selected means no selection.
pub fn compute_selection(
    char_count: usize,
    positions: &Vec<Option<PixelPoint>>,
    bounds: &PixelBounds,
    line_height: i64,
) -> (r: Option<Selection>)
    requires
        positions_ok(positions@),
        bounds_ok(*bounds),
        0 <= line_height,
        coord_ok(line_height as int),
    ensures
        (match r {
            None => forall|i: int|
                0 <= i < char_count ==> !char_selected(
                    positions@,
                    *bounds,
                    line_height as int,
                    i,
                ),
            Some(sel) => sel.start < sel.end <= char_count && char_selected(
                positions@,
                *bounds,
                line_height as int,
                sel.start as int,
            ) && char_selected(positions@, *bounds, line_height as int, sel.end - 1) && (forall|
                i: int,
            |
                0 <= i < sel.start ==> !char_selected(
                    positions@,
                    *bounds,
                    line_height as int,
                    i,
                )) && (forall|i: int|
                sel.end <= i < char_count ==> !char_selected(
                    positions@,
                    *bounds,
                    line_height as int,
                    i,
                )),
        }),
{
    let ghost ps = positions@;
    let ghost lh = line_height as int;
    let mut selection: Option<Selection> = None;
    let mut i: usize = 0;
    while i < char_count
        invariant
            ps == positions@,
            lh == line_height as int,
            positions_ok(ps),
            bounds_ok(*bounds),
            0 <= line_height,
            coord_ok(lh),
            i <= char_count,
            match selection {
                None => forall|k: int| 0 <= k < i ==> !char_selected(ps, *bounds, lh, k),
                Some(sel) => sel.start < sel.end <= i && char_selected(
                    ps,
                    *bounds,
                    lh,
                    sel.start as int,
                ) && char_selected(ps, *bounds, lh, sel.end - 1) && (forall|k: int|
                    0 <= k < sel.start ==> !char_selected(ps, *bounds, lh, k)) && (forall|k: int|
                    sel.end <= k < i ==> !char_selected(ps, *bounds, lh, k)),
            },
        decreases char_count - i,
    {
        let poso: Option<PixelPoint> = if i < positions.len() {
            positions[i]
        } else {
            None
        };
        match poso {
            None => {
                proof {
                    assert(!char_selected(ps, *bounds, lh, i as int));
                }
            },
            Some(pos) => {
                let mut char_width = line_height / 2;
                if i + 1 < positions.len() {
                    if let Some(np) = positions[i + 1] {
                        if np.y == pos.y {
                            char_width = np.x - pos.x;
                        }
                    }
                }
                proof {
                    assert(char_width as int == spec_char_width(ps, i as int, pos, lh));
                }
                if point_in_text_selection(pos, char_width, bounds, line_height) {
                    proof {
                        assert(char_selected(ps, *bounds, lh, i as int));
                    }
                    match selection {
                        None => {
                            selection = Some(Selection { start: i, end: i + 1 });
                        },
                        Some(sel) => {
                            selection = Some(Selection { start: sel.start, end: i + 1 });
                        },
                    }
                } else {
                    proof {
                        assert(!char_selected(ps, *bounds, lh, i as int));
                    }
                }
            },
        }
        i += 1;
    }
    selection
}

/// Positions on one visual line with strictly increasing x: every entry of
/// `ps` recorded, on the same y, ordered left to right.
pub open spec fn single_line_layout(ps: Seq<Option<PixelPoint>>) -> bool {
    &&& forall|k: int| 0 <= k < ps.len() ==> (#[trigger] ps[k]) is Some
    &&& forall|k: int|
        0 < k < ps.len() ==> ((#[trigger] ps[k])->Some_0).y == (ps[0]->Some_0).y
    &&& forall|k: int|
        0 <= k < ps.len() - 1 ==> ((#[trigger] ps[k])->Some_0).x < (ps[k + 1]->Some_0).x
}

proof fn lemma_x_monotone(ps: Seq<Option<PixelPoint>>, a: int, b: int)
    requires
        single_line_layout(ps),
        0 <= a <= b < ps.len(),
    ensures
        (ps[a]->Some_0).x <= (ps[b]->Some_0).x,
        a < b ==> (ps[a]->Some_0).x < (ps[b]->Some_0).x,
    decreases b - a,
{
    if a < b {
        lemma_x_monotone(ps, a, b - 1);
    }
}

/// The selection round-trip law: take characters laid out on one visual
/// line, left to right, and a selection rectangle exactly one line tall
/// whose left and right edges sit at the pixel positions of characters `i`
/// and `j`. Then precisely the characters of `[i, j)` count as selected, so
/// the computed selection range is exactly `[i, j)`.
pub proof fn lemma_selection_round_trip(
    ps: Seq<Option<PixelPoint>>,
    b: PixelBounds,
    lh: int,
    i: int,
    j: int,
)
    requires
        0 < lh,
        single_line_layout(ps),
        0 <= i < j < ps.len(),
        b.y == (ps[0]->Some_0).y,
        b.height == lh,
        b.x == (ps[i]->Some_0).x,
        b.x + b.width == (ps[j]->Some_0).x,
    ensures
        forall|k: int|
            0 <= k < ps.len() - 1 ==> (char_selected(ps, b, lh, k) <==> i <= k < j),
        forall|sel: Selection|
            #![trigger sel.start, sel.end]
            (sel.start < sel.end <= ps.len() - 1 && char_selected(ps, b, lh, sel.start as int)
                && char_selected(ps, b, lh, sel.end - 1) && (forall|k: int|
                0 <= k < sel.start ==> !char_selected(ps, b, lh, k)) && (forall|k: int|
                sel.end <= k < ps.len() - 1 ==> !char_selected(ps, b, lh, k))) ==> sel.start == i
                && sel.end == j,
{
    let y0 = (ps[0]->Some_0).y;
    assert forall|k: int|
        0 <= k < ps.len() - 1 implies (char_selected(ps, b, lh, k) <==> i <= k < j) by {
        let pos = ps[k]->Some_0;
        let np = ps[k + 1]->Some_0;
        assert(pos.y == y0 && np.y == y0);
        assert(lookup_pos(ps, k) == Some(pos));
        assert(lookup_pos(ps, k + 1) == Some(np));
        let w = spec_char_width(ps, k, pos, lh);
        assert(w == np.x - pos.x);
        assert(w > 0);
        // vertical extent always matches: the rectangle is one line tall
        assert(!(pos.y + lh < b.y || pos.y as int >= b.y + b.height));
        assert(b.y + b.height - b.y <= lh);
        let left = b.x as int;
        let right = b.x + b.width;
        if i <= k && k < j {
            lemma_x_monotone(ps, i, k);
            lemma_x_monotone(ps, k + 1, j);
            assert(2 * pos.x + w == pos.x + np.x);
            assert(pos.x >= left && np.x <= right);
            assert(char_selected(ps, b, lh, k));
        } else if k < i {
            lemma_x_monotone(ps, k + 1, i);
            assert(pos.x + np.x < 2 * left);
            assert(!char_selected(ps, b, lh, k));
        } else {
            lemma_x_monotone(ps, j, k);
            assert(pos.x + np.x > 2 * right);
            assert(!char_selected(ps, b, lh, k));
        }
    }
    assert forall|sel: Selection|
        #![trigger sel.start, sel.end]
        (sel.start < sel.end <= ps.len() - 1 && char_selected(ps, b, lh, sel.start as int)
            && char_selected(ps, b, lh, sel.end - 1) && (forall|k: int|
            0 <= k < sel.start ==> !char_selected(ps, b, lh, k)) && (forall|k: int|
            sel.end <= k < ps.len() - 1 ==> !char_selected(ps, b, lh, k))) implies sel.start == i
        && sel.end == j by {
        if sel.start < sel.end <= ps.len() - 1 && char_selected(ps, b, lh, sel.start as int)
            && char_selected(ps, b, lh, sel.end - 1) && (forall|k: int|
            0 <= k < sel.start ==> !char_selected(ps, b, lh, k)) && (forall|k: int|
            sel.end <= k < ps.len() - 1 ==> !char_selected(ps, b, lh, k)) {
            // the first selected character is `i`, the last is `j - 1`
            assert(i <= sel.start < j);
            if sel.start != i {
                assert(!char_selected(ps, b, lh, i));
            }
            assert(i <= sel.end - 1 < j);
            if sel.end != j {
                assert(!char_selected(ps, b, lh, j - 1));
            }
        }
    }
}

/// The rectangles that paint a range of text between two positions: one
/// rectangle when both ends share a visual line; otherwise a band to the
/// right edge, a full-width middle band when more than two lines are
/// spanned, and a band from the left edge.
pub fn range_band_rects(
    start_position: PixelPoint,
    end_position: PixelPoint,
    bounds_left: i64,
    bounds_right: i64,
    line_height: i64,
) -> (rects: Vec<PixelBounds>)
    requires
        coord_ok(start_position.x as int),
        coord_ok(start_position.y as int),
        coord_ok(end_position.x as int),
        coord_ok(end_position.y as int),
        coord_ok(bounds_left as int),
        coord_ok(bounds_right as int),
        coord_ok(line_height as int),
    ensures
        start_position.y == end_position.y ==> rects@ =~= seq![
            (PixelBounds {
                x: start_position.x,
                y: start_position.y,
                width: (end_position.x - start_position.x) as i64,
                height: line_height,
            }),
        ],
        start_position.y != end_position.y && end_position.y <= start_position.y + line_height
            ==> rects@ =~= seq![
            (PixelBounds {
                x: start_position.x,
                y: start_position.y,
                width: (bounds_right - start_position.x) as i64,
                height: line_height,
            }),
            (PixelBounds {
                x: bounds_left,
                y: end_position.y,
                width: (end_position.x - bounds_left) as i64,
                height: line_height,
            }),
        ],
        start_position.y != end_position.y && end_position.y > start_position.y + line_height
            ==> rects@ =~= seq![
            (PixelBounds {
                x: start_position.x,
                y: start_position.y,
                width: (bounds_right - start_position.x) as i64,
                height: line_height,
            }),
            (PixelBounds {
                x: bounds_left,
                y: (start_position.y + line_height) as i64,
                width: (bounds_right - bounds_left) as i64,
                height: (end_position.y - start_position.y - line_height) as i64,
            }),
            (PixelBounds {
                x: bounds_left,
                y: end_position.y,
                width: (end_position.x - bounds_left) as i64,
                height: line_height,
            }),
        ],
{
    let mut rects: Vec<PixelBounds> = Vec::new();
    if start_position.y == end_position.y {
        rects.push(
            PixelBounds {
                x: start_position.x,
                y: start_position.y,
                width: end_position.x - start_position.x,
                height: line_height,
            },
        );
    } else {
        rects.push(
            PixelBounds {
                x: start_position.x,
                y: start_position.y,
                width: bounds_right - start_position.x,
                height: line_height,
            },
        );
        if end_position.y > start_position.y + line_height {
            rects.push(
                PixelBounds {
                    x: bounds_left,
                    y: start_position.y + line_height,
                    width: bounds_right - bounds_left,
                    height: end_position.y - start_position.y - line_height,
                },
            );
        }
        rects.push(
            PixelBounds {
                x: bounds_left,
                y: end_position.y,
                width: end_position.x - bounds_left,
                height: line_height,
            },
        );
    }
    rects
}

/// The first link range containing a character offset, with its mark.
pub fn link_at_offset<'a>(links: &'a Vec<(core::ops::Range<usize>, crate::node::LinkMark)>, offset: usize) -> (r: Option<
    &'a crate::node::LinkMark,
>)
    ensures
        (match r {
            Some(m) => exists|k: int|
                0 <= k < links@.len() && (#[trigger] links@[k]).0.start <= offset < links@[k].0.end
                    && m == &links@[k].1 && (forall|j: int|
                    0 <= j < k ==> !((#[trigger] links@[j]).0.start <= offset
                        < links@[j].0.end)),
            None => forall|k: int|
                0 <= k < links@.len() ==> !((#[trigger] links@[k]).0.start <= offset
                    < links@[k].0.end),
        }),
{
    let mut k: usize = 0;
    while k < links.len()
        invariant
            k <= links@.len(),
            forall|j: int|
                0 <= j < k ==> !((#[trigger] links@[j]).0.start <= offset < links@[j].0.end),
        decreases links@.len() - k,
    {
        if links[k].0.start <= offset && offset < links[k].0.end {
            return Some(&links[k].1);
        }
        k += 1;
    }
    None
}

} // verus!
