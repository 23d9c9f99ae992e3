//! The cursor overlay: the cursor's state and the rectangles that draw its
//! arrow, upright or turned a quarter clockwise for a rotated display.
use vstd::prelude::*;

verus! {

/// Cursor position, shape and visibility.
#[derive(Debug, Clone, Copy, PartialEq, Eq)]
pub struct CursorRenderer {
    pub x: i32,
    pub y: i32,
    pub shape_id: u8,
    pub visible: bool,
    /// Turn the arrow to compensate for a physically rotated monitor.
    pub rotated: bool,
}

/// A filled rectangle: position and size.
#[derive(Debug, Clone, Copy, PartialEq, Eq)]
pub struct CursorRect {
    pub x: i32,
    pub y: i32,
    pub w: u32,
    pub h: u32,
}

/// The arrow's rows: `(row offset, column offset, width)`.
pub open spec fn arrow_rows() -> Seq<(i32, i32, u32)> {
    seq![
        (0i32, 0i32, 1u32), (1, 0, 2), (2, 0, 3), (3, 0, 4), (4, 0, 5), (5, 0, 6), (6, 0, 7), (7, 0, 8),
        (8, 0, 9), (9, 0, 10), (10, 0, 11), (11, 0, 6), (12, 0, 4), (12, 5, 3), (13, 1, 3), (13, 6, 2),
        (14, 2, 2), (14, 7, 2), (15, 3, 1), (15, 8, 1)
    ]
}

/// The rectangle of arrow row `(dy, dx, w)` at `(bx, by)`, grown by `pad` on
/// every side; turned a quarter clockwise when `rotated`.
pub open spec fn row_rect(bx: int, by: int, pad: int, rotated: bool, row: (i32, i32, u32)) -> CursorRect {
    let (dy, dx, w) = row;
    if rotated {
        CursorRect {
            x: (bx + dy - pad) as i32,
            y: (by - dx - w + 1 - pad) as i32,
            w: (1 + 2 * pad) as u32,
            h: (w + 2 * pad) as u32,
        }
    } else {
        CursorRect {
            x: (bx + dx - pad) as i32,
            y: (by + dy - pad) as i32,
            w: (w + 2 * pad) as u32,
            h: (1 + 2 * pad) as u32,
        }
    }
}

/// Rectangles of the arrow at `(bx, by)` with padding `pad`.
pub open spec fn arrow_spec(bx: int, by: int, pad: int, rotated: bool) -> Seq<CursorRect> {
    Seq::new(20, |i: int| row_rect(bx, by, pad, rotated, arrow_rows()[i]))
}

fn arrow_row(i: usize) -> (r: (i32, i32, u32))
    requires
        i < 20,
    ensures
        r == arrow_rows()[i as int],
        0 <= r.0 <= 15 && 0 <= r.1 <= 8 && 1 <= r.2 <= 11,
{
    match i {
        0 => (0, 0, 1),
        1 => (1, 0, 2),
        2 => (2, 0, 3),
        3 => (3, 0, 4),
        4 => (4, 0, 5),
        5 => (5, 0, 6),
        6 => (6, 0, 7),
        7 => (7, 0, 8),
        8 => (8, 0, 9),
        9 => (9, 0, 10),
        10 => (10, 0, 11),
        11 => (11, 0, 6),
        12 => (12, 0, 4),
        13 => (12, 5, 3),
        14 => (13, 1, 3),
        15 => (13, 6, 2),
        16 => (14, 2, 2),
        17 => (14, 7, 2),
        18 => (15, 3, 1),
        _ => (15, 8, 1),
    }
}

/// The arrow's rectangles at `(bx, by)` with padding `pad` (0 or 1).
pub fn arrow_rects(bx: i32, by: i32, pad: i32, rotated: bool) -> (r: Vec<CursorRect>)
    requires
        0 <= pad <= 1,
        i32::MIN + 20 <= bx <= i32::MAX - 20,
        i32::MIN + 20 <= by <= i32::MAX - 20,
    ensures
        r@ == arrow_spec(bx as int, by as int, pad as int, rotated),
{
    let mut out: Vec<CursorRect> = Vec::new();
    let mut i: usize = 0;
    while i < 20
        invariant
            i <= 20,
            0 <= pad <= 1,
            i32::MIN + 20 <= bx <= i32::MAX - 20,
            i32::MIN + 20 <= by <= i32::MAX - 20,
            out@.len() == i,
            forall|k: int| 0 <= k < i ==> #[trigger] out@[k] == row_rect(bx as int, by as int, pad as int, rotated, arrow_rows()[k]),
        decreases 20 - i,
    {
        let (dy, dx, w) = arrow_row(i);
        let rect = if rotated {
            CursorRect { x: bx + dy - pad, y: by - dx - w as i32 + 1 - pad, w: 1 + pad as u32 * 2, h: w + pad as u32 * 2 }
        } else {
            CursorRect { x: bx + dx - pad, y: by + dy - pad, w: w + pad as u32 * 2, h: 1 + pad as u32 * 2 }
        };
        out.push(rect);
        i += 1;
    }
    assert(out@ =~= arrow_spec(bx as int, by as int, pad as int, rotated));
    out
}

impl CursorRenderer {
    /// Hidden at the origin, arrow shape, upright.
    pub fn new() -> (c: Self)
        ensures
            c == (CursorRenderer { x: 0, y: 0, shape_id: 0, visible: false, rotated: false }),
    {
        CursorRenderer { x: 0, y: 0, shape_id: 0, visible: false, rotated: false }
    }

    /// A cursor update: new position and shape; the cursor becomes visible.
    pub fn update(&mut self, x: i32, y: i32, shape_id: u8)
        ensures
            *final(self) == (CursorRenderer { x, y, shape_id, visible: true, ..*old(self) }),
    {
        self.x = x;
        self.y = y;
        self.shape_id = shape_id;
        self.visible = true;
    }

    /// What to draw: nothing while hidden; else the black outline (padded
    /// by one) at the position, then the white fill one pixel down and
    /// right.
    pub fn rects(&self) -> (r: (Vec<CursorRect>, Vec<CursorRect>))
        requires
            i32::MIN + 20 <= self.x <= i32::MAX - 21,
            i32::MIN + 20 <= self.y <= i32::MAX - 21,
        ensures
            !self.visible ==> r.0@.len() == 0 && r.1@.len() == 0,
            self.visible ==> r.0@ == arrow_spec(self.x as int, self.y as int, 1, self.rotated)
                && r.1@ == arrow_spec(self.x + 1, self.y + 1, 0, self.rotated),
    {
        if !self.visible {
            return (Vec::new(), Vec::new());
        }
        (arrow_rects(self.x, self.y, 1, self.rotated), arrow_rects(self.x + 1, self.y + 1, 0, self.rotated))
    }
}

} // verus!
