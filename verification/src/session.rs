use vstd::prelude::*;

use crate::frame::FrozenFrame;
use crate::measure::{is_measurement, lemma_axes_bounded, lemma_threshold_monotone, measure, Measurement};

verus! {

/// Threshold a session starts with.
pub const INITIAL_THRESHOLD: u8 = 24;

/// `v` clamped to the pixels `0 ..= len - 1` of an axis.
pub open spec fn clamp_pixel(v: int, len: int) -> int {
    if v < 0 {
        0
    } else if v > len - 1 {
        len - 1
    } else {
        v
    }
}

/// The threshold after one wheel step: two up or two down, kept within `1 ..= 255`.
pub open spec fn scrolled_threshold(t: int, up: bool) -> int {
    let s = if up {
        t + 2
    } else {
        t - 2
    };
    if s < 1 {
        1
    } else if s > 255 {
        255
    } else {
        s
    }
}

/// The threshold after an input frame that scrolled up, down, or not at all.
pub open spec fn next_threshold(t: int, scroll_up: Option<bool>) -> int {
    match scroll_up {
        Some(up) => scrolled_threshold(t, up),
        None => t,
    }
}

/// Cap positions around a measurement: the pixel before the left and top edges, and the
/// pixel after the right and bottom edges, each kept inside the frame.
pub open spec fn cap_positions(m: Measurement, width: int, height: int) -> (int, int, int, int) {
    (
        if m.left_edge_x >= 1 { m.left_edge_x - 1 } else { 0 },
        if m.right_edge_x + 1 <= width - 1 { m.right_edge_x + 1 } else { width - 1 },
        if m.top_edge_y >= 1 { m.top_edge_y - 1 } else { 0 },
        if m.bottom_edge_y + 1 <= height - 1 { m.bottom_edge_y + 1 } else { height - 1 },
    )
}

/// The interactive state of the ruler over one frozen frame: the current measurement,
/// the colour threshold, and whether the ruler is to close.
pub struct Session {
    pub frame: FrozenFrame,
    pub measurement: Measurement,
    pub threshold: u8,
    pub should_close: bool,
}

/// `v` clamped to the pixels of an axis of length `len`.
fn clamp_to_pixel(v: i64, len: u32) -> (c: u32)
    requires
        len > 0,
    ensures
        c == clamp_pixel(v as int, len as int),
{
    if v < 0 {
        0
    } else if v > (len - 1) as i64 {
        len - 1
    } else {
        v as u32
    }
}

impl Session {
    /// The frame is usable and non-empty, and the threshold is at least one.
    pub open spec fn ready(&self) -> bool {
        &&& self.frame.wf()
        &&& self.frame.width > 0
        &&& self.frame.height > 0
        &&& 1 <= self.threshold
    }

    /// The frame is usable and non-empty, the threshold is at least one, and the
    /// measurement is the frame's measurement at its own cursor and the current threshold.
    pub open spec fn wf(&self) -> bool {
        &&& self.frame.wf()
        &&& self.frame.width > 0
        &&& self.frame.height > 0
        &&& 1 <= self.threshold
        &&& is_measurement(
            self.frame,
            self.measurement.cursor_x as int,
            self.measurement.cursor_y as int,
            self.threshold as int,
            self.measurement,
        )
    }

    /// Starts a session over `frame` with the cursor at (`cursor_x`, `cursor_y`).
    pub fn new(frame: FrozenFrame, cursor_x: u32, cursor_y: u32) -> (s: Session)
        requires
            frame.wf(),
            frame.width > 0,
            frame.height > 0,
        ensures
            s.wf(),
            s.frame == frame,
            s.threshold == INITIAL_THRESHOLD,
            !s.should_close,
            is_measurement(frame, cursor_x as int, cursor_y as int, INITIAL_THRESHOLD as int, s.measurement),
    {
        let threshold = INITIAL_THRESHOLD;
        let measurement = measure(&frame, cursor_x, cursor_y, threshold);
        Session { frame, measurement, threshold, should_close: false }
    }

    /// Measures again with the cursor at (`x`, `y`), clamped into the frame.
    pub fn recompute(&mut self, x: i64, y: i64)
        requires
            old(self).ready(),
        ensures
            final(self).wf(),
            final(self).frame == old(self).frame,
            final(self).threshold == old(self).threshold,
            final(self).should_close == old(self).should_close,
            is_measurement(
                final(self).frame,
                clamp_pixel(x as int, old(self).frame.width as int),
                clamp_pixel(y as int, old(self).frame.height as int),
                final(self).threshold as int,
                final(self).measurement,
            ),
    {
        let cx = clamp_to_pixel(x, self.frame.width);
        let cy = clamp_to_pixel(y, self.frame.height);
        self.measurement = measure(&self.frame, cx, cy, self.threshold);
    }

    /// Moves the threshold two steps up or down, kept within `1 ..= 255`.
    fn step_threshold(&mut self, up: bool)
        ensures
            final(self).threshold == scrolled_threshold(old(self).threshold as int, up),
            1 <= final(self).threshold,
            final(self).frame == old(self).frame,
            final(self).measurement == old(self).measurement,
            final(self).should_close == old(self).should_close,
    {
        let step: i16 = if up { 2 } else { -2 };
        let t: i16 = self.threshold as i16 + step;
        self.threshold = if t < 1 { 1 } else if t > 255 { 255 } else { t as u8 };
    }

    /// Marks the ruler to close and hands back the size to copy, `width` by `height`.
    pub fn copy_and_quit(&mut self) -> (size: (u32, u32))
        ensures
            size == (old(self).measurement.width, old(self).measurement.height),
            final(self).should_close,
            final(self).frame == old(self).frame,
            final(self).measurement == old(self).measurement,
            final(self).threshold == old(self).threshold,
    {
        self.should_close = true;
        (self.measurement.width, self.measurement.height)
    }

    /// One frame of input. `pointer` is the new cursor when it moved, `cursor` the cursor
    /// the ruler stands on, `scroll_up` the direction of a wheel movement, `escape` a press
    /// of Escape and `primary_click` a click of the primary button. The threshold follows
    /// the wheel; a moved pointer or a wheel movement measures again, at the new cursor if
    /// it moved; Escape or a click closes the ruler, and a click hands back the size to copy.
    pub fn handle_input(
        &mut self,
        pointer: Option<(i64, i64)>,
        cursor: (i64, i64),
        scroll_up: Option<bool>,
        escape: bool,
        primary_click: bool,
    ) -> (copied: Option<(u32, u32)>)
        requires
            old(self).wf(),
        ensures
            final(self).wf(),
            final(self).frame == old(self).frame,
            final(self).threshold == next_threshold(old(self).threshold as int, scroll_up),
            final(self).should_close == (old(self).should_close || escape || primary_click),
            pointer is Some || scroll_up is Some ==> {
                let at = match pointer {
                    Some(p) => p,
                    None => cursor,
                };
                is_measurement(
                    final(self).frame,
                    clamp_pixel(at.0 as int, old(self).frame.width as int),
                    clamp_pixel(at.1 as int, old(self).frame.height as int),
                    final(self).threshold as int,
                    final(self).measurement,
                )
            },
            pointer is None && scroll_up is None ==> final(self).measurement == old(
                self,
            ).measurement,
            copied == (if primary_click {
                Some((final(self).measurement.width, final(self).measurement.height))
            } else {
                None
            }),
    {
        let mut at = cursor;
        if let Some(up) = scroll_up {
            self.step_threshold(up);
        }
        if escape {
            self.should_close = true;
        }
        if let Some(p) = pointer {
            at = p;
            self.recompute(p.0, p.1);
        }
        if scroll_up.is_some() {
            self.recompute(at.0, at.1);
        }
        if primary_click {
            Some(self.copy_and_quit())
        } else {
            None
        }
    }

    /// Where the caps at the ends of the four arms are drawn: the column left of the left
    /// edge, right of the right edge, and the row above the top edge and below the bottom
    /// edge, each kept inside the frame.
    pub fn caps(&self) -> (c: (u32, u32, u32, u32))
        requires
            self.wf(),
        ensures
            (c.0 as int, c.1 as int, c.2 as int, c.3 as int) == cap_positions(
                self.measurement,
                self.frame.width as int,
                self.frame.height as int,
            ),
            c.0 < self.frame.width,
            c.1 < self.frame.width,
            c.2 < self.frame.height,
            c.3 < self.frame.height,
            self.measurement.left_edge_x > 0 ==> c.0 == self.measurement.left_edge_x - 1,
            self.measurement.left_edge_x == 0 ==> c.0 == 0,
            self.measurement.right_edge_x + 1 < self.frame.width ==> c.1
                == self.measurement.right_edge_x + 1,
            self.measurement.right_edge_x + 1 >= self.frame.width ==> c.1 == self.frame.width - 1,
            self.measurement.top_edge_y > 0 ==> c.2 == self.measurement.top_edge_y - 1,
            self.measurement.top_edge_y == 0 ==> c.2 == 0,
            self.measurement.bottom_edge_y + 1 < self.frame.height ==> c.3
                == self.measurement.bottom_edge_y + 1,
            self.measurement.bottom_edge_y + 1 >= self.frame.height ==> c.3 == self.frame.height
                - 1,
    {
        proof {
            lemma_axes_bounded(self.frame.width as int, self.frame.height as int);
        }
        let m = self.measurement;
        let w = self.frame.width;
        let h = self.frame.height;
        (
            m.left_edge_x.saturating_sub(1),
            (m.right_edge_x + 1).min(w.saturating_sub(1)),
            m.top_edge_y.saturating_sub(1),
            (m.bottom_edge_y + 1).min(h.saturating_sub(1)),
        )
    }
}

/// Each cap sits one pixel outside its edge of the measured region, on the pixel just
/// beside the region, and only where that pixel would leave the frame does the cap stay
/// on the frame's border.
pub proof fn lemma_caps_beside_edges(m: Measurement, width: int, height: int)
    requires
        m.right_edge_x < width,
        m.bottom_edge_y < height,
    ensures
        m.left_edge_x > 0 ==> cap_positions(m, width, height).0 == m.left_edge_x - 1,
        m.left_edge_x == 0 ==> cap_positions(m, width, height).0 == 0,
        m.right_edge_x + 1 < width ==> cap_positions(m, width, height).1 == m.right_edge_x + 1,
        m.right_edge_x + 1 == width ==> cap_positions(m, width, height).1 == m.right_edge_x,
        m.top_edge_y > 0 ==> cap_positions(m, width, height).2 == m.top_edge_y - 1,
        m.top_edge_y == 0 ==> cap_positions(m, width, height).2 == 0,
        m.bottom_edge_y + 1 < height ==> cap_positions(m, width, height).3 == m.bottom_edge_y + 1,
        m.bottom_edge_y + 1 == height ==> cap_positions(m, width, height).3 == m.bottom_edge_y,
{
}

/// A wheel step always leaves the threshold within `1 ..= 255`; up never lowers it and
/// down never raises it.
pub proof fn lemma_scroll_bounds(t: int, up: bool)
    requires
        1 <= t <= 255,
    ensures
        1 <= scrolled_threshold(t, up) <= 255,
        up ==> scrolled_threshold(t, up) >= t,
        !up ==> scrolled_threshold(t, up) <= t,
{
}

/// A wheel step down undoes a step up, and a step up undoes a step down, unless the
/// first step was cut off at the bounds.
pub proof fn lemma_scroll_round_trip(t: int)
    ensures
        1 <= t <= 253 ==> scrolled_threshold(scrolled_threshold(t, true), false) == t,
        3 <= t <= 255 ==> scrolled_threshold(scrolled_threshold(t, false), true) == t,
{
}

/// With the cursor held still, a wheel step up never narrows the measured region and a
/// step down never widens it.
pub proof fn lemma_scroll_resizes_monotonically(
    frame: FrozenFrame,
    cx: int,
    cy: int,
    t: int,
    up: bool,
    before: Measurement,
    after: Measurement,
)
    requires
        1 <= t <= 255,
        is_measurement(frame, cx, cy, t, before),
        is_measurement(frame, cx, cy, scrolled_threshold(t, up), after),
    ensures
        up ==> before.width <= after.width && before.height <= after.height,
        !up ==> after.width <= before.width && after.height <= before.height,
{
    if up {
        lemma_threshold_monotone(frame, cx, cy, t, scrolled_threshold(t, up), before, after);
    } else {
        lemma_threshold_monotone(frame, cx, cy, scrolled_threshold(t, up), t, after, before);
    }
}

} // verus!
