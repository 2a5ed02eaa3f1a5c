//! The state of one drawing tool: where it is, whether it is down, and the
//! style that its strokes take.
use vstd::prelude::*;
use crate::geometry::{Point, MAX_LINE_WIDTH};

verus! {

/// A color with 8-bit red, green, blue and alpha channels.
#[derive(Clone, Copy, Debug, PartialEq, Eq, Structural)]
pub struct Rgba {
    pub r: u8,
    pub g: u8,
    pub b: u8,
    pub a: u8,
}

impl Rgba {
    pub fn new(r: u8, g: u8, b: u8, a: u8) -> (c: Rgba)
        ensures
            c == (Rgba { r, g, b, a }),
    {
        Rgba { r, g, b, a }
    }
}

/// Number of colors in the palette that `next_color` walks through.
pub const PALETTE_LEN: usize = 7;

/// Widest line that `incr_size` reaches.
pub const MAX_STEPPED_WIDTH: u32 = 100;

/// Width of a new pen's line.
pub const DEFAULT_LINE_WIDTH: u32 = 8;

/// The palette: white, blue, turquoise, green, yellow, orange, red.
pub open spec fn palette(i: int) -> Rgba {
    if i == 0 {
        Rgba { r: 255, g: 255, b: 255, a: 255 }
    } else if i == 1 {
        Rgba { r: 0, g: 0, b: 255, a: 255 }
    } else if i == 2 {
        Rgba { r: 64, g: 224, b: 209, a: 255 }
    } else if i == 3 {
        Rgba { r: 0, g: 255, b: 0, a: 255 }
    } else if i == 4 {
        Rgba { r: 255, g: 255, b: 0, a: 255 }
    } else if i == 5 {
        Rgba { r: 255, g: 165, b: 0, a: 255 }
    } else {
        Rgba { r: 255, g: 0, b: 0, a: 255 }
    }
}

/// The palette entry at index `i`.
pub fn palette_color(i: usize) -> (c: Rgba)
    requires
        i < PALETTE_LEN,
    ensures
        c == palette(i as int),
{
    if i == 0 {
        Rgba { r: 255, g: 255, b: 255, a: 255 }
    } else if i == 1 {
        Rgba { r: 0, g: 0, b: 255, a: 255 }
    } else if i == 2 {
        Rgba { r: 64, g: 224, b: 209, a: 255 }
    } else if i == 3 {
        Rgba { r: 0, g: 255, b: 0, a: 255 }
    } else if i == 4 {
        Rgba { r: 255, g: 255, b: 0, a: 255 }
    } else if i == 5 {
        Rgba { r: 255, g: 165, b: 0, a: 255 }
    } else {
        Rgba { r: 255, g: 0, b: 0, a: 255 }
    }
}

/// The index of `c` in the palette, or `PALETTE_LEN` when it is not there.
pub open spec fn palette_index(c: Rgba) -> int {
    if c == palette(0) {
        0
    } else if c == palette(1) {
        1
    } else if c == palette(2) {
        2
    } else if c == palette(3) {
        3
    } else if c == palette(4) {
        4
    } else if c == palette(5) {
        5
    } else if c == palette(6) {
        6
    } else {
        PALETTE_LEN as int
    }
}

/// The color after `c` in the palette, wrapping from the last to the first;
/// a color outside the palette stays as it is.
pub open spec fn next_color_of(c: Rgba) -> Rgba {
    if palette_index(c) < PALETTE_LEN {
        palette((palette_index(c) + 1) % (PALETTE_LEN as int))
    } else {
        c
    }
}

pub fn next_color(c: Rgba) -> (r: Rgba)
    ensures
        r == next_color_of(c),
{
    let mut i: usize = 0;
    while i < PALETTE_LEN
        invariant
            i <= PALETTE_LEN,
            forall|k: int| 0 <= k < i ==> palette(k) != c,
        decreases PALETTE_LEN - i,
    {
        if palette_color(i) == c {
            return palette_color((i + 1) % PALETTE_LEN);
        }
        i = i + 1;
    }
    c
}

/// Twice the width, but no more than `MAX_STEPPED_WIDTH`.
pub fn incr_size(size: u32) -> (r: u32)
    ensures
        r == if 2 * size > MAX_STEPPED_WIDTH { MAX_STEPPED_WIDTH as int } else { 2 * size },
{
    if size > MAX_STEPPED_WIDTH / 2 {
        MAX_STEPPED_WIDTH
    } else {
        size * 2
    }
}

/// Half the width, rounded down, but no less than 1.
pub fn decr_size(size: u32) -> (r: u32)
    ensures
        r == if size / 2 < 1 { 1 } else { size / 2 },
{
    if size / 2 < 1 {
        1
    } else {
        size / 2
    }
}

/// One drawing tool, local or remote.
#[derive(Clone, Copy, Debug, PartialEq, Eq, Structural)]
pub struct Pen {
    /// Where the tool is, in canvas pixels.
    pub position: Point,
    /// Whether the tool is down.
    pub pressed: bool,
    /// Whether the tool went up at the last tick.
    pub just_released: bool,
    /// Whether anything of the tool changed at the last tick.
    pub updated: bool,
    pub color: Rgba,
    pub line_width: u32,
}

/// A pen at the origin, up, unchanged, white, of the default width.
pub open spec fn initial_pen() -> Pen {
    Pen {
        position: Point { x: 0, y: 0 },
        pressed: false,
        just_released: false,
        updated: false,
        color: palette(0),
        line_width: DEFAULT_LINE_WIDTH,
    }
}

/// The pen after a tick in which the tool stands at `(x, y)` (limited to
/// the canvas range) and is down or up as `pressed` says.
pub open spec fn pen_after_sample(pen: Pen, x: i64, y: i64, pressed: bool) -> Pen {
    let position = Point { x: crate::geometry::clamp_coord(x as int) as i64, y: crate::geometry::clamp_coord(y as int) as i64 };
    let just_released = pen.pressed && !pressed;
    Pen {
        position,
        pressed,
        just_released,
        updated: position != pen.position || pressed != pen.pressed || just_released
            != pen.just_released,
        ..pen
    }
}

impl Pen {
    /// Positions lie on the canvas and the line width is within bounds.
    pub open spec fn wf(self) -> bool {
        self.position.in_range() && self.line_width <= MAX_LINE_WIDTH
    }

    /// A pen at the origin, up, unchanged, white, of the default width.
    pub fn new() -> (p: Pen)
        ensures
            p.wf(),
            p == initial_pen(),
    {
        Pen {
            position: Point::new(0, 0),
            pressed: false,
            just_released: false,
            updated: false,
            color: palette_color(0),
            line_width: DEFAULT_LINE_WIDTH,
        }
    }

    /// Applies the button transitions of one tick in order (`true` for
    /// down, `false` for up); `just_released` then says whether the tool was
    /// down before the tick and is up after it.
    pub fn update_pressed(&mut self, transitions: &Vec<bool>)
        ensures
            final(self).pressed == if transitions@.len() == 0 {
                old(self).pressed
            } else {
                transitions@.last()
            },
            final(self).just_released == (old(self).pressed && !final(self).pressed),
            final(self).position == old(self).position,
            final(self).updated == old(self).updated,
            final(self).color == old(self).color,
            final(self).line_width == old(self).line_width,
    {
        let was_pressed = self.pressed;
        let mut i: usize = 0;
        while i < transitions.len()
            invariant
                i <= transitions@.len(),
                self.pressed == if i == 0 {
                    old(self).pressed
                } else {
                    transitions@[i - 1]
                },
                self.position == old(self).position,
                self.updated == old(self).updated,
                self.color == old(self).color,
                self.line_width == old(self).line_width,
            decreases transitions@.len() - i,
        {
            if transitions[i] {
                self.just_released = false;
                self.pressed = true;
            } else {
                self.pressed = false;
            }
            i = i + 1;
        }
        self.just_released = was_pressed && !self.pressed;
    }

    /// One tick of input: the tool stands at `(x, y)`, each coordinate
    /// clamped to `[-MAX_COORD, MAX_COORD]` (the range of exact geometry), and
    /// is down or up as `pressed` says.
    pub fn submit_sample(&mut self, x: i64, y: i64, pressed: bool)
        requires
            old(self).wf(),
        ensures
            *final(self) == pen_after_sample(*old(self), x, y, pressed),
            final(self).wf(),
    {
        let prev = *self;
        let was_pressed = self.pressed;
        self.pressed = pressed;
        self.just_released = was_pressed && !pressed;
        self.position = Point::clamped(x, y);
        self.updated = is_updated(&prev, self);
    }

    /// Sets the color and the line width, the width clamped to
    /// `MAX_LINE_WIDTH` (the bound of exact geometry).
    pub fn set_style(&mut self, color: Rgba, line_width: u32)
        requires
            old(self).wf(),
        ensures
            *final(self) == (Pen {
                color,
                line_width: if line_width > MAX_LINE_WIDTH { MAX_LINE_WIDTH } else { line_width },
                ..*old(self)
            }),
            final(self).wf(),
    {
        self.color = color;
        self.line_width = if line_width > MAX_LINE_WIDTH { MAX_LINE_WIDTH } else { line_width };
    }

    /// Moves to the next palette color and returns it.
    pub fn next_color(&mut self) -> (c: Rgba)
        ensures
            c == next_color_of(old(self).color),
            *final(self) == (Pen { color: c, ..*old(self) }),
    {
        self.color = next_color(self.color);
        self.color
    }

    /// Doubles the line width, up to `MAX_STEPPED_WIDTH`, and returns it.
    pub fn incr_size(&mut self) -> (w: u32)
        requires
            old(self).wf(),
        ensures
            w == if 2 * old(self).line_width > MAX_STEPPED_WIDTH { MAX_STEPPED_WIDTH as int } else { 2 * old(self).line_width },
            *final(self) == (Pen { line_width: w, ..*old(self) }),
            final(self).wf(),
    {
        self.line_width = incr_size(self.line_width);
        self.line_width
    }

    /// Halves the line width, down to 1, and returns it.
    pub fn decr_size(&mut self) -> (w: u32)
        requires
            old(self).wf(),
        ensures
            w == if old(self).line_width / 2 < 1 { 1 } else { old(self).line_width / 2 },
            *final(self) == (Pen { line_width: w, ..*old(self) }),
            final(self).wf(),
    {
        self.line_width = decr_size(self.line_width);
        self.line_width
    }
}

/// Whether the position, the button or the release flag differ.
pub fn is_updated(before: &Pen, after: &Pen) -> (r: bool)
    ensures
        r == (before.position != after.position || before.pressed != after.pressed
            || before.just_released != after.just_released),
{
    before.position.x != after.position.x || before.position.y != after.position.y
        || before.pressed != after.pressed || before.just_released != after.just_released
}

/// A release shows for one tick only: the tick that lifts a pressed tool
/// reports `just_released`, and a following tick with the tool still up does
/// not; a tick that presses the tool never reports it.
pub proof fn lemma_release_once(pen: Pen, x1: i64, y1: i64, x2: i64, y2: i64, pressed2: bool)
    ensures
        pen.pressed ==> pen_after_sample(pen, x1, y1, false).just_released,
        !pen_after_sample(pen_after_sample(pen, x1, y1, false), x2, y2, pressed2).just_released,
        !pen_after_sample(pen, x1, y1, true).just_released,
{
}

} // verus!
