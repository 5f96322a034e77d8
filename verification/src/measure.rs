use vstd::prelude::*;

use crate::frame::FrozenFrame;

verus! {

/// The result of measuring the uniform region around a cursor.
///
/// `left`, `right`, `up` and `down` count pixels from the cursor to the first
/// pixel that differs from the cursor's colour, the cursor pixel included; when
/// no such pixel exists in a direction, the count runs to the frame's border.
#[derive(Debug, Clone, Copy, PartialEq, Eq)]
pub struct Measurement {
    pub cursor_x: u32,
    pub cursor_y: u32,
    pub threshold: u8,
    pub left: u32,
    pub right: u32,
    pub up: u32,
    pub down: u32,
    pub width: u32,
    pub height: u32,
    pub left_edge_x: u32,
    pub right_edge_x: u32,
    pub top_edge_y: u32,
    pub bottom_edge_y: u32,
}

/// `|a - b|` for two channel values.
pub open spec fn channel_distance(a: u8, b: u8) -> int {
    if a >= b {
        a - b
    } else {
        b - a
    }
}

/// Sum of the absolute differences of the red, green and blue channels; alpha is ignored.
pub open spec fn color_distance(a: Seq<u8>, b: Seq<u8>) -> int {
    channel_distance(a[0], b[0]) + channel_distance(a[1], b[1]) + channel_distance(a[2], b[2])
}

/// The pixel at (`x`, `y`) is within `threshold` of the pixel at (`ox`, `oy`).
pub open spec fn similar(frame: FrozenFrame, x: int, y: int, ox: int, oy: int, threshold: int) -> bool {
    color_distance(frame.pixel(x, y), frame.pixel(ox, oy)) <= threshold
}

/// `r` is the leftward reach from (`x`, `y`): every pixel strictly between the cursor
/// and `r` columns to its left is similar to the cursor, and the pixel `r` columns to
/// the left differs from it, or lies past the left border (`r == x + 1`).
pub open spec fn is_left_reach(frame: FrozenFrame, x: int, y: int, t: int, r: int) -> bool {
    &&& 1 <= r <= x + 1
    &&& forall|i: int| x - r < i < x ==> #[trigger] similar(frame, i, y, x, y, t)
    &&& r <= x ==> !similar(frame, x - r, y, x, y, t)
}

/// `r` is the rightward reach from (`x`, `y`), ending at the first differing pixel
/// or at the right border (`r == width - x`).
pub open spec fn is_right_reach(frame: FrozenFrame, x: int, y: int, t: int, r: int) -> bool {
    &&& 1 <= r <= frame.width - x
    &&& forall|i: int| x < i < x + r ==> #[trigger] similar(frame, i, y, x, y, t)
    &&& x + r < frame.width ==> !similar(frame, x + r, y, x, y, t)
}

/// `r` is the upward reach from (`x`, `y`), ending at the first differing pixel
/// or at the top border (`r == y + 1`).
pub open spec fn is_up_reach(frame: FrozenFrame, x: int, y: int, t: int, r: int) -> bool {
    &&& 1 <= r <= y + 1
    &&& forall|i: int| y - r < i < y ==> #[trigger] similar(frame, x, i, x, y, t)
    &&& r <= y ==> !similar(frame, x, y - r, x, y, t)
}

/// `r` is the downward reach from (`x`, `y`), ending at the first differing pixel
/// or at the bottom border (`r == height - y`).
pub open spec fn is_down_reach(frame: FrozenFrame, x: int, y: int, t: int, r: int) -> bool {
    &&& 1 <= r <= frame.height - y
    &&& forall|i: int| y < i < y + r ==> #[trigger] similar(frame, x, i, x, y, t)
    &&& y + r < frame.height ==> !similar(frame, x, y + r, x, y, t)
}

/// The cursor coordinate clamped to the last pixel of an axis of length `len`.
pub open spec fn clamp_to_axis(c: int, len: int) -> int {
    if c <= len - 1 {
        c
    } else {
        len - 1
    }
}

/// `m` is the measurement of `frame` for a cursor at (`cx`, `cy`) and `threshold`:
/// the cursor is clamped into the frame, the four reaches are measured from it, and
/// the size and edges of the region follow from the reaches.
pub open spec fn is_measurement(frame: FrozenFrame, cx: int, cy: int, threshold: int, m: Measurement) -> bool {
    let x = clamp_to_axis(cx, frame.width as int);
    let y = clamp_to_axis(cy, frame.height as int);
    &&& m.cursor_x == x
    &&& m.cursor_y == y
    &&& m.threshold == threshold
    &&& is_left_reach(frame, x, y, threshold, m.left as int)
    &&& is_right_reach(frame, x, y, threshold, m.right as int)
    &&& is_up_reach(frame, x, y, threshold, m.up as int)
    &&& is_down_reach(frame, x, y, threshold, m.down as int)
    &&& m.width == m.left + m.right - 1
    &&& m.height == m.up + m.down - 1
    &&& m.left_edge_x == x - (m.left - 1)
    &&& m.right_edge_x == x + m.right - 1
    &&& m.top_edge_y == y - (m.up - 1)
    &&& m.bottom_edge_y == y + m.down - 1
}

/// Each side of a frame of at most 2^30 pixels is at most 2^30 long.
pub proof fn lemma_axes_bounded(w: int, h: int)
    requires
        w >= 1,
        h >= 1,
        w * h <= 0x4000_0000,
    ensures
        w <= 0x4000_0000,
        h <= 0x4000_0000,
{
    assert(w <= w * h && h <= w * h) by (nonlinear_arith)
        requires
            w >= 1,
            h >= 1,
    ;
}

/// Red, green and blue distance between two pixels.
pub fn diff(a: [u8; 4], b: [u8; 4]) -> (d: u16)
    ensures
        d == color_distance(a@, b@),
{
    let dr: u16 = if a[0] >= b[0] { (a[0] - b[0]) as u16 } else { (b[0] - a[0]) as u16 };
    let dg: u16 = if a[1] >= b[1] { (a[1] - b[1]) as u16 } else { (b[1] - a[1]) as u16 };
    let db: u16 = if a[2] >= b[2] { (a[2] - b[2]) as u16 } else { (b[2] - a[2]) as u16 };
    dr + dg + db
}

/// The pixel at column `x`, row `y` of the frame.
pub fn pixel_at(frame: &FrozenFrame, x: u32, y: u32) -> (px: [u8; 4])
    requires
        frame.wf(),
        x < frame.width,
        y < frame.height,
    ensures
        px@ == frame.pixel(x as int, y as int),
{
    frame.load(x, y)
}

/// Leftward reach from the pixel at (`x`, `y`).
pub fn scan_left(frame: &FrozenFrame, x: u32, y: u32, threshold: u8) -> (r: u32)
    requires
        frame.wf(),
        x < frame.width,
        y < frame.height,
    ensures
        is_left_reach(*frame, x as int, y as int, threshold as int, r as int),
{
    let origin = pixel_at(frame, x, y);
    let mut ix: u32 = x;
    while ix > 0
        invariant
            frame.wf(),
            x < frame.width,
            y < frame.height,
            ix <= x,
            origin@ == frame.pixel(x as int, y as int),
            forall|i: int| ix <= i < x ==> #[trigger] similar(*frame, i, y as int, x as int, y as int, threshold as int),
        decreases ix,
    {
        ix = ix - 1;
        if diff(pixel_at(frame, ix, y), origin) > threshold as u16 {
            return x - ix;
        }
    }
    x + 1
}

/// Rightward reach from the pixel at (`x`, `y`).
pub fn scan_right(frame: &FrozenFrame, x: u32, y: u32, threshold: u8) -> (r: u32)
    requires
        frame.wf(),
        x < frame.width,
        y < frame.height,
    ensures
        is_right_reach(*frame, x as int, y as int, threshold as int, r as int),
{
    let origin = pixel_at(frame, x, y);
    let mut ix: u32 = x + 1;
    while ix < frame.width
        invariant
            frame.wf(),
            x < frame.width,
            y < frame.height,
            x < ix <= frame.width,
            origin@ == frame.pixel(x as int, y as int),
            forall|i: int| x < i < ix ==> #[trigger] similar(*frame, i, y as int, x as int, y as int, threshold as int),
        decreases frame.width - ix,
    {
        if diff(pixel_at(frame, ix, y), origin) > threshold as u16 {
            return ix - x;
        }
        ix = ix + 1;
    }
    frame.width - x
}

/// Upward reach from the pixel at (`x`, `y`).
pub fn scan_up(frame: &FrozenFrame, x: u32, y: u32, threshold: u8) -> (r: u32)
    requires
        frame.wf(),
        x < frame.width,
        y < frame.height,
    ensures
        is_up_reach(*frame, x as int, y as int, threshold as int, r as int),
{
    let origin = pixel_at(frame, x, y);
    let mut iy: u32 = y;
    while iy > 0
        invariant
            frame.wf(),
            x < frame.width,
            y < frame.height,
            iy <= y,
            origin@ == frame.pixel(x as int, y as int),
            forall|i: int| iy <= i < y ==> #[trigger] similar(*frame, x as int, i, x as int, y as int, threshold as int),
        decreases iy,
    {
        iy = iy - 1;
        if diff(pixel_at(frame, x, iy), origin) > threshold as u16 {
            return y - iy;
        }
    }
    y + 1
}

/// Downward reach from the pixel at (`x`, `y`).
pub fn scan_down(frame: &FrozenFrame, x: u32, y: u32, threshold: u8) -> (r: u32)
    requires
        frame.wf(),
        x < frame.width,
        y < frame.height,
    ensures
        is_down_reach(*frame, x as int, y as int, threshold as int, r as int),
{
    let origin = pixel_at(frame, x, y);
    let mut iy: u32 = y + 1;
    while iy < frame.height
        invariant
            frame.wf(),
            x < frame.width,
            y < frame.height,
            y < iy <= frame.height,
            origin@ == frame.pixel(x as int, y as int),
            forall|i: int| y < i < iy ==> #[trigger] similar(*frame, x as int, i, x as int, y as int, threshold as int),
        decreases frame.height - iy,
    {
        if diff(pixel_at(frame, x, iy), origin) > threshold as u16 {
            return iy - y;
        }
        iy = iy + 1;
    }
    frame.height - y
}

/// Measures the region of colours within `threshold` of the cursor pixel,
/// scanning left, right, up and down from the cursor clamped into the frame.
pub fn measure(frame: &FrozenFrame, cursor_x: u32, cursor_y: u32, threshold: u8) -> (m: Measurement)
    requires
        frame.wf(),
        frame.width > 0,
        frame.height > 0,
    ensures
        is_measurement(*frame, cursor_x as int, cursor_y as int, threshold as int, m),
{
    proof {
        lemma_axes_bounded(frame.width as int, frame.height as int);
    }
    let x = cursor_x.min(frame.width.saturating_sub(1));
    let y = cursor_y.min(frame.height.saturating_sub(1));

    let left = scan_left(frame, x, y, threshold);
    let right = scan_right(frame, x, y, threshold);
    let up = scan_up(frame, x, y, threshold);
    let down = scan_down(frame, x, y, threshold);

    Measurement {
        cursor_x: x,
        cursor_y: y,
        threshold,
        left,
        right,
        up,
        down,
        width: left + right - 1,
        height: up + down - 1,
        left_edge_x: x.saturating_sub(left - 1),
        right_edge_x: (x + right - 1).min(frame.width.saturating_sub(1)),
        top_edge_y: y.saturating_sub(up - 1),
        bottom_edge_y: (y + down - 1).min(frame.height.saturating_sub(1)),
    }
}

/// A reach in each direction is determined by the frame, the cursor and the threshold.
pub proof fn lemma_reaches_unique(frame: FrozenFrame, x: int, y: int, t: int, r1: int, r2: int)
    ensures
        is_left_reach(frame, x, y, t, r1) && is_left_reach(frame, x, y, t, r2) ==> r1 == r2,
        is_right_reach(frame, x, y, t, r1) && is_right_reach(frame, x, y, t, r2) ==> r1 == r2,
        is_up_reach(frame, x, y, t, r1) && is_up_reach(frame, x, y, t, r2) ==> r1 == r2,
        is_down_reach(frame, x, y, t, r1) && is_down_reach(frame, x, y, t, r2) ==> r1 == r2,
{
    if is_left_reach(frame, x, y, t, r1) && is_left_reach(frame, x, y, t, r2) && r1 != r2 {
        if r1 < r2 {
            assert(similar(frame, x - r1, y, x, y, t));
        } else {
            assert(similar(frame, x - r2, y, x, y, t));
        }
    }
    if is_right_reach(frame, x, y, t, r1) && is_right_reach(frame, x, y, t, r2) && r1 != r2 {
        if r1 < r2 {
            assert(similar(frame, x + r1, y, x, y, t));
        } else {
            assert(similar(frame, x + r2, y, x, y, t));
        }
    }
    if is_up_reach(frame, x, y, t, r1) && is_up_reach(frame, x, y, t, r2) && r1 != r2 {
        if r1 < r2 {
            assert(similar(frame, x, y - r1, x, y, t));
        } else {
            assert(similar(frame, x, y - r2, x, y, t));
        }
    }
    if is_down_reach(frame, x, y, t, r1) && is_down_reach(frame, x, y, t, r2) && r1 != r2 {
        if r1 < r2 {
            assert(similar(frame, x, y + r1, x, y, t));
        } else {
            assert(similar(frame, x, y + r2, x, y, t));
        }
    }
}

/// Measuring is deterministic: one frame, cursor and threshold have exactly one measurement.
pub proof fn lemma_measurement_determined(
    frame: FrozenFrame,
    cx: int,
    cy: int,
    threshold: int,
    m1: Measurement,
    m2: Measurement,
)
    requires
        is_measurement(frame, cx, cy, threshold, m1),
        is_measurement(frame, cx, cy, threshold, m2),
    ensures
        m1 == m2,
{
    let x = clamp_to_axis(cx, frame.width as int);
    let y = clamp_to_axis(cy, frame.height as int);
    lemma_reaches_unique(frame, x, y, threshold, m1.left as int, m2.left as int);
    lemma_reaches_unique(frame, x, y, threshold, m1.right as int, m2.right as int);
    lemma_reaches_unique(frame, x, y, threshold, m1.up as int, m2.up as int);
    lemma_reaches_unique(frame, x, y, threshold, m1.down as int, m2.down as int);
}

/// A lower threshold stops at subtler colour changes: raising the threshold never
/// shrinks any reach, so the measured width and height never shrink either.
pub proof fn lemma_threshold_monotone(
    frame: FrozenFrame,
    cx: int,
    cy: int,
    t1: int,
    t2: int,
    m1: Measurement,
    m2: Measurement,
)
    requires
        t1 <= t2,
        is_measurement(frame, cx, cy, t1, m1),
        is_measurement(frame, cx, cy, t2, m2),
    ensures
        m1.left <= m2.left,
        m1.right <= m2.right,
        m1.up <= m2.up,
        m1.down <= m2.down,
        m1.width <= m2.width,
        m1.height <= m2.height,
{
    let x = clamp_to_axis(cx, frame.width as int);
    let y = clamp_to_axis(cy, frame.height as int);
    if m2.left < m1.left {
        assert(similar(frame, x - m2.left, y, x, y, t1));
    }
    if m2.right < m1.right {
        assert(similar(frame, x + m2.right, y, x, y, t1));
    }
    if m2.up < m1.up {
        assert(similar(frame, x, y - m2.up, x, y, t1));
    }
    if m2.down < m1.down {
        assert(similar(frame, x, y + m2.down, x, y, t1));
    }
}

/// The measured region lies inside the frame and contains the cursor; every pixel of
/// the cursor's row between the left and right edges, and of the cursor's column between
/// the top and bottom edges, is similar to the cursor pixel; and the pixel just past
/// each edge, when it lies inside the frame, differs from it.
pub proof fn lemma_region_bounds(frame: FrozenFrame, cx: int, cy: int, threshold: int, m: Measurement)
    requires
        frame.width > 0,
        frame.height > 0,
        is_measurement(frame, cx, cy, threshold, m),
    ensures
        m.left_edge_x <= m.cursor_x <= m.right_edge_x < frame.width,
        m.top_edge_y <= m.cursor_y <= m.bottom_edge_y < frame.height,
        m.width == m.right_edge_x - m.left_edge_x + 1,
        m.height == m.bottom_edge_y - m.top_edge_y + 1,
        1 <= m.width <= frame.width,
        1 <= m.height <= frame.height,
        forall|i: int|
            m.left_edge_x <= i <= m.right_edge_x ==> #[trigger] similar(
                frame,
                i,
                m.cursor_y as int,
                m.cursor_x as int,
                m.cursor_y as int,
                threshold,
            ),
        forall|j: int|
            m.top_edge_y <= j <= m.bottom_edge_y ==> #[trigger] similar(
                frame,
                m.cursor_x as int,
                j,
                m.cursor_x as int,
                m.cursor_y as int,
                threshold,
            ),
        m.left_edge_x > 0 ==> !similar(
            frame,
            m.left_edge_x - 1,
            m.cursor_y as int,
            m.cursor_x as int,
            m.cursor_y as int,
            threshold,
        ),
        m.right_edge_x + 1 < frame.width ==> !similar(
            frame,
            m.right_edge_x + 1,
            m.cursor_y as int,
            m.cursor_x as int,
            m.cursor_y as int,
            threshold,
        ),
        m.top_edge_y > 0 ==> !similar(
            frame,
            m.cursor_x as int,
            m.top_edge_y - 1,
            m.cursor_x as int,
            m.cursor_y as int,
            threshold,
        ),
        m.bottom_edge_y + 1 < frame.height ==> !similar(
            frame,
            m.cursor_x as int,
            m.bottom_edge_y + 1,
            m.cursor_x as int,
            m.cursor_y as int,
            threshold,
        ),
{
    let x = m.cursor_x as int;
    let y = m.cursor_y as int;
    assert(similar(frame, x, y, x, y, threshold));
}

} // verus!
