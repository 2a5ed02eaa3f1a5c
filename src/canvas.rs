//! The raster canvas and its lifecycle across resize, suspend and resume.
use vstd::prelude::*;
use crate::pen::Rgba;

verus! {

/// Largest width or height that a canvas can be allocated with.
pub const MAX_SURFACE_SIDE: u32 = 8192;

/// The blank pixel: fully transparent black.
pub open spec fn blank() -> Rgba {
    Rgba { r: 0, g: 0, b: 0, a: 0 }
}

/// Why a canvas could not be allocated.
#[derive(Clone, Copy, Debug, PartialEq, Eq, Structural)]
pub enum CanvasError {
    /// A side is zero or larger than `MAX_SURFACE_SIDE`.
    InvalidSize,
}

/// Whether a canvas of this size can be allocated.
pub open spec fn size_ok(width: u32, height: u32) -> bool {
    0 < width <= MAX_SURFACE_SIDE && 0 < height <= MAX_SURFACE_SIDE
}

/// A rectangular grid of pixels, stored row by row.
#[derive(Debug)]
pub struct Raster {
    width: u32,
    height: u32,
    rows: Vec<Vec<Rgba>>,
}

/// The pixel at `(x, y)` of an image that holds `src` at its origin over a
/// background `dst`: `src` where the two overlap, else `dst`.
pub open spec fn overlay(dst: Raster, src: Raster, x: int, y: int) -> Rgba {
    if x < src.width() && y < src.height() {
        src.pixel(x, y)
    } else {
        dst.pixel(x, y)
    }
}

impl Raster {
    pub closed spec fn width(self) -> nat {
        self.width as nat
    }

    pub closed spec fn height(self) -> nat {
        self.height as nat
    }

    pub closed spec fn pixel(self, x: int, y: int) -> Rgba {
        self.rows@[y]@[x]
    }

    /// Rows of `width` pixels, `height` of them, neither side larger than
    /// `MAX_SURFACE_SIDE`.
    pub closed spec fn wf(self) -> bool {
        &&& self.width <= MAX_SURFACE_SIDE
        &&& self.height <= MAX_SURFACE_SIDE
        &&& self.rows@.len() == self.height
        &&& forall|y: int| 0 <= y < self.height ==> (#[trigger] self.rows@[y])@.len() == self.width
    }

    /// Same size and the same pixels.
    pub open spec fn same_image(self, other: Raster) -> bool {
        &&& self.width() == other.width()
        &&& self.height() == other.height()
        &&& forall|x: int, y: int|
            0 <= x < self.width() && 0 <= y < self.height() ==> #[trigger] self.pixel(x, y)
                == other.pixel(x, y)
    }

    /// Neither side of a well-formed raster exceeds `MAX_SURFACE_SIDE`.
    pub proof fn lemma_bounded(self)
        requires
            self.wf(),
        ensures
            self.width() <= MAX_SURFACE_SIDE,
            self.height() <= MAX_SURFACE_SIDE,
    {
    }

    pub fn width_of(&self) -> (w: u32)
        ensures
            w == self.width(),
    {
        self.width
    }

    pub fn height_of(&self) -> (h: u32)
        ensures
            h == self.height(),
    {
        self.height
    }

    /// A blank raster of the given size; fails when a side is zero or larger
    /// than `MAX_SURFACE_SIDE`.
    pub fn new(width: u32, height: u32) -> (r: Result<Raster, CanvasError>)
        ensures
            r is Err <==> !size_ok(width, height),
            r is Err ==> r == Err::<Raster, CanvasError>(CanvasError::InvalidSize),
            r matches Ok(c) ==> {
                &&& c.wf()
                &&& c.width() == width
                &&& c.height() == height
                &&& forall|x: int, y: int|
                    0 <= x < width && 0 <= y < height ==> #[trigger] c.pixel(x, y) == blank()
            },
    {
        if width == 0 || height == 0 || width > MAX_SURFACE_SIDE || height > MAX_SURFACE_SIDE {
            return Err(CanvasError::InvalidSize);
        }
        let mut rows: Vec<Vec<Rgba>> = Vec::new();
        let mut y: u32 = 0;
        while y < height
            invariant
                y <= height,
                rows@.len() == y,
                forall|j: int|
                    0 <= j < y ==> (#[trigger] rows@[j])@.len() == width && forall|i: int|
                        0 <= i < width ==> rows@[j]@[i] == blank(),
            decreases height - y,
        {
            let mut row: Vec<Rgba> = Vec::new();
            let mut x: u32 = 0;
            while x < width
                invariant
                    x <= width,
                    row@.len() == x,
                    forall|i: int| 0 <= i < x ==> row@[i] == blank(),
                decreases width - x,
            {
                row.push(Rgba::new(0, 0, 0, 0));
                x = x + 1;
            }
            rows.push(row);
            y = y + 1;
        }
        Ok(Raster { width, height, rows })
    }

    pub fn get_pixel(&self, x: u32, y: u32) -> (p: Rgba)
        requires
            self.wf(),
            x < self.width(),
            y < self.height(),
        ensures
            p == self.pixel(x as int, y as int),
    {
        self.rows[y as usize][x as usize]
    }

    pub fn set_pixel(&mut self, x: u32, y: u32, p: Rgba)
        requires
            old(self).wf(),
            x < old(self).width(),
            y < old(self).height(),
        ensures
            final(self).wf(),
            final(self).width() == old(self).width(),
            final(self).height() == old(self).height(),
            forall|i: int, j: int|
                #![trigger final(self).pixel(i, j)]
                0 <= i < old(self).width() && 0 <= j < old(self).height() ==> final(self).pixel(i, j)
                    == if i == x && j == y {
                    p
                } else {
                    old(self).pixel(i, j)
                },
    {
        let ghost before = *self;
        self.rows[y as usize].set(x as usize, p);
        assert forall|j: int| 0 <= j < self.height implies (#[trigger] self.rows@[j])@.len()
            == self.width by {
            assert(before.rows@[j]@.len() == before.width);
        }
    }

    /// Copies `src` in at the origin, clipped to the overlap of the two
    /// sizes, without scaling; pixels outside the overlap keep their values.
    pub fn copy_from(&mut self, src: &Raster)
        requires
            old(self).wf(),
            src.wf(),
        ensures
            final(self).wf(),
            final(self).width() == old(self).width(),
            final(self).height() == old(self).height(),
            forall|x: int, y: int|
                0 <= x < old(self).width() && 0 <= y < old(self).height() ==> #[trigger] final(self).pixel(x, y) == overlay(*old(self), *src, x, y),
    {
        let ghost before = *self;
        let mut rows: Vec<Vec<Rgba>> = Vec::new();
        let mut y: u32 = 0;
        while y < self.height
            invariant
                *self == before,
                self.wf(),
                src.wf(),
                y <= self.height,
                rows@.len() == y,
                forall|j: int|
                    0 <= j < y ==> (#[trigger] rows@[j])@.len() == self.width && forall|i: int|
                        0 <= i < self.width ==> rows@[j]@[i] == overlay(before, *src, i, j),
            decreases self.height - y,
        {
            let mut row: Vec<Rgba> = Vec::new();
            let mut x: u32 = 0;
            while x < self.width
                invariant
                    *self == before,
                    self.wf(),
                    src.wf(),
                    y < self.height,
                    x <= self.width,
                    row@.len() == x,
                    forall|i: int| 0 <= i < x ==> row@[i] == overlay(before, *src, i, y as int),
                decreases self.width - x,
            {
                let p = if x < src.width && y < src.height {
                    src.get_pixel(x, y)
                } else {
                    self.get_pixel(x, y)
                };
                row.push(p);
                x = x + 1;
            }
            rows.push(row);
            y = y + 1;
        }
        self.rows = rows;
    }

    /// An owned copy of the image.
    pub fn snapshot(&self) -> (r: Raster)
        requires
            self.wf(),
        ensures
            r.wf(),
            r.same_image(*self),
    {
        let mut rows: Vec<Vec<Rgba>> = Vec::new();
        let mut y: u32 = 0;
        while y < self.height
            invariant
                self.wf(),
                y <= self.height,
                rows@.len() == y,
                forall|j: int|
                    0 <= j < y ==> (#[trigger] rows@[j])@.len() == self.width && forall|i: int|
                        0 <= i < self.width ==> rows@[j]@[i] == self.pixel(i, j),
            decreases self.height - y,
        {
            let mut row: Vec<Rgba> = Vec::new();
            let mut x: u32 = 0;
            while x < self.width
                invariant
                    self.wf(),
                    y < self.height,
                    x <= self.width,
                    row@.len() == x,
                    forall|i: int| 0 <= i < x ==> row@[i] == self.pixel(i, y as int),
                decreases self.width - x,
            {
                row.push(self.get_pixel(x, y));
                x = x + 1;
            }
            rows.push(row);
            y = y + 1;
        }
        Raster { width: self.width, height: self.height, rows }
    }
}

/// The pixel at `(x, y)` of a blank canvas into which `from`, if any, was
/// copied at the origin.
pub open spec fn restored_pixel(from: Option<Raster>, x: int, y: int) -> Rgba {
    match from {
        Some(f) => if x < f.width() && y < f.height() {
            f.pixel(x, y)
        } else {
            blank()
        },
        None => blank(),
    }
}

/// `c` is a well-formed `width` by `height` canvas that holds `from`, if any,
/// at its origin, clipped, and is blank elsewhere.
pub open spec fn restores(c: Raster, width: u32, height: u32, from: Option<Raster>) -> bool {
    &&& c.wf()
    &&& c.width() == width
    &&& c.height() == height
    &&& forall|x: int, y: int|
        0 <= x < width && 0 <= y < height ==> #[trigger] c.pixel(x, y) == restored_pixel(
            from,
            x,
            y,
        )
}

/// A canvas of a new size holding a copy of `from` at its origin.
fn allocate_with(width: u32, height: u32, from: &Option<Raster>) -> (r: Result<Raster, CanvasError>)
    requires
        from matches Some(f) ==> f.wf(),
    ensures
        r is Err <==> !size_ok(width, height),
        r is Err ==> r == Err::<Raster, CanvasError>(CanvasError::InvalidSize),
        r matches Ok(c) ==> restores(c, width, height, *from),
{
    let mut c = Raster::new(width, height)?;
    if let Some(f) = from {
        c.copy_from(f);
    }
    Ok(c)
}

/// What the surface reports to the canvas.
#[derive(Clone, Copy, Debug, PartialEq, Eq, Structural)]
pub enum SurfaceEvent {
    Resumed { width: u32, height: u32 },
    Suspended,
    Resized { width: u32, height: u32 },
}

/// Owns the canvas: none while the surface is away, one of the surface's
/// size while it is there, and the image kept across a suspension.
pub struct CanvasManager {
    active: Option<Raster>,
    frozen: Option<Raster>,
}

impl CanvasManager {
    /// The canvas in use, if any.
    pub closed spec fn active(self) -> Option<Raster> {
        self.active
    }

    /// The image kept for the next canvas, if any.
    pub closed spec fn frozen(self) -> Option<Raster> {
        self.frozen
    }

    /// The canvas in use and the kept image are well formed, of sizes that
    /// `size_ok` accepts.
    pub closed spec fn wf(self) -> bool {
        &&& (self.active matches Some(c) ==> c.wf() && c.width > 0 && c.height > 0)
        &&& (self.frozen matches Some(f) ==> f.wf() && f.width > 0 && f.height > 0)
    }

    /// The canvas in use and the kept image have sizes that `size_ok`
    /// accepts, so either can be allocated again.
    pub proof fn lemma_valid_sizes(self)
        requires
            self.wf(),
        ensures
            self.active() matches Some(c) ==> c.wf() && size_ok(c.width() as u32, c.height() as u32),
            self.frozen() matches Some(f) ==> f.wf() && size_ok(f.width() as u32, f.height() as u32),
    {
        if let Some(c) = self.active {
            c.lemma_bounded();
        }
        if let Some(f) = self.frozen {
            f.lemma_bounded();
        }
    }

    /// Blanks the canvas in use, keeping its size, and drops the kept image.
    pub fn erase(&mut self)
        requires
            old(self).wf(),
        ensures
            final(self).wf(),
            erased(*old(self), *final(self)),
    {
        self.frozen = None;
        let size = match &self.active {
            Some(c) => Some((c.width, c.height)),
            None => None,
        };
        if let Some((w, h)) = size {
            self.active = None;
            if let Ok(c) = Raster::new(w, h) {
                self.active = Some(c);
            }
        }
    }

    /// No canvas and no kept image.
    pub fn new() -> (m: CanvasManager)
        ensures
            m.wf(),
            m.active() is None,
            m.frozen() is None,
    {
        CanvasManager { active: None, frozen: None }
    }

    /// The canvas in use, if any.
    pub fn canvas(&self) -> (r: Option<&Raster>)
        ensures
            r matches Some(c) ==> self.active() == Some(*c),
            r is None <==> self.active() is None,
    {
        match &self.active {
            Some(c) => Some(c),
            None => None,
        }
    }

    /// The canvas in use, to draw on; the kept image stays as it is.
    pub fn canvas_mut(&mut self) -> (r: Option<&mut Raster>)
        requires
            old(self).wf(),
        ensures
            r is None <==> old(self).active() is None,
            r is None ==> *final(self) == *old(self),
            r matches Some(c) ==> old(self).active() == Some(*c) && c.wf(),
            r matches Some(c) ==> final(self).active() == Some(*final(c)),
            r matches Some(c) ==> (final(c).wf() && final(c).width() == c.width()
                && final(c).height() == c.height() ==> final(self).wf()),
            final(self).frozen() == old(self).frozen(),
    {
        match &mut self.active {
            Some(c) => Some(c),
            None => None,
        }
    }

    /// An owned copy of the canvas in use; `None` when there is none.
    pub fn extract_snapshot(&self) -> (r: Option<Raster>)
        requires
            self.wf(),
        ensures
            r is None <==> self.active() is None,
            r matches Some(s) ==> s.wf() && s.same_image(self.active()->0),
    {
        match &self.active {
            Some(c) => Some(c.snapshot()),
            None => None,
        }
    }

    /// Allocates a blank canvas of the given size and copies the kept image,
    /// if any, into it at the origin, clipped. On failure no canvas is in use
    /// and the kept image stays for a later attempt.
    pub fn create(&mut self, width: u32, height: u32) -> (r: Result<(), CanvasError>)
        requires
            old(self).wf(),
        ensures
            final(self).wf(),
            r is Err <==> !size_ok(width, height),
            r is Err ==> r == Err::<(), CanvasError>(CanvasError::InvalidSize),
            r is Ok ==> final(self).frozen() is None,
            r is Ok ==> (final(self).active() matches Some(c) && restores(
                c,
                width,
                height,
                old(self).frozen(),
            )),
            r is Err ==> final(self).active() is None && final(self).frozen() == old(self).frozen(),
    {
        self.active = None;
        match allocate_with(width, height, &self.frozen) {
            Ok(c) => {
                self.active = Some(c);
                self.frozen = None;
                Ok(())
            },
            Err(e) => Err(e),
        }
    }

    /// Keeps a copy of the canvas in use, if any, and gives the canvas up.
    pub fn suspend(&mut self)
        requires
            old(self).wf(),
        ensures
            final(self).wf(),
            final(self).active() is None,
            old(self).active() is None ==> final(self).frozen() == old(self).frozen(),
            old(self).active() matches Some(c) ==> final(self).frozen() matches Some(f)
                && f.same_image(c),
    {
        if let Some(s) = self.extract_snapshot() {
            self.frozen = Some(s);
        }
        self.active = None;
    }

    /// Gives the canvas the new size, keeping its image at the origin,
    /// clipped, with blank pixels where it grew. With no canvas in use this
    /// creates one. On failure no canvas is in use, and the image it held is
    /// kept for a later attempt.
    pub fn resize(&mut self, width: u32, height: u32) -> (r: Result<(), CanvasError>)
        requires
            old(self).wf(),
        ensures
            final(self).wf(),
            r is Err <==> !size_ok(width, height),
            r is Err ==> r == Err::<(), CanvasError>(CanvasError::InvalidSize),
            r is Ok && old(self).active() is None ==> final(self).frozen() is None,
            r is Ok && old(self).active() is None ==> (final(self).active() matches Some(c)
                && restores(c, width, height, old(self).frozen())),
            r is Ok && old(self).active() is Some ==> final(self).frozen() == old(self).frozen(),
            r is Ok && old(self).active() is Some ==> (final(self).active() matches Some(c)
                && restores(c, width, height, old(self).active())),
            r is Err ==> final(self).active() is None,
            r is Err && old(self).active() is None ==> final(self).frozen() == old(self).frozen(),
            r is Err ==> (old(self).active() matches Some(c0) ==> final(self).frozen() matches Some(f) && f.same_image(c0)),
    {
        if let Some(c) = &self.active {
            if 0 < width && 0 < height && width == c.width && height == c.height {
                assert forall|x: int, y: int|
                    0 <= x < width && 0 <= y < height implies #[trigger] c.pixel(x, y)
                    == restored_pixel(Some(*c), x, y) by {}
                return Ok(());
            }
        }
        match self.extract_snapshot() {
            None => self.create(width, height),
            Some(old_image) => {
                let ghost c0 = self.active->0;
                self.active = None;
                let from = Some(old_image);
                match allocate_with(width, height, &from) {
                    Ok(c) => {
                        assert forall|x: int, y: int|
                            0 <= x < width && 0 <= y < height implies #[trigger] c.pixel(x, y)
                            == restored_pixel(Some(c0), x, y) by {}
                        self.active = Some(c);
                        Ok(())
                    },
                    Err(e) => {
                        self.frozen = from;
                        Err(e)
                    },
                }
            },
        }
    }

    /// Drives the canvas through one surface event: a resume gives up the
    /// canvas in use, if any, and creates one of the new size holding its
    /// image, or else the kept one; a suspension keeps the image; a resize
    /// resizes.
    pub fn on_surface_event(&mut self, event: SurfaceEvent) -> (r: Result<(), CanvasError>)
        requires
            old(self).wf(),
        ensures
            final(self).wf(),
            event_outcome(*old(self), event, *final(self), r),
    {
        match event {
            SurfaceEvent::Resumed { width, height } => {
                let ghost before = *self;
                self.suspend();
                let ghost kept = self.frozen;
                let r = self.create(width, height);
                proof {
                    if r is Ok && before.active is Some {
                        let c = self.active->0;
                        assert forall|x: int, y: int|
                            0 <= x < width && 0 <= y < height implies #[trigger] c.pixel(x, y)
                            == restored_pixel(before.active, x, y) by {
                            assert(c.pixel(x, y) == restored_pixel(kept, x, y));
                        }
                    }
                }
                r
            },
            SurfaceEvent::Suspended => {
                self.suspend();
                Ok(())
            },
            SurfaceEvent::Resized { width, height } => self.resize(width, height),
        }
    }
}

/// What a surface event does to the canvas: `before` becomes `after`, with
/// result `r`.
pub open spec fn event_outcome(
    before: CanvasManager,
    event: SurfaceEvent,
    after: CanvasManager,
    r: Result<(), CanvasError>,
) -> bool {
    match event {
        SurfaceEvent::Suspended => {
            &&& r is Ok
            &&& after.active() is None
            &&& before.active() is None ==> after.frozen() == before.frozen()
            &&& before.active() matches Some(c) ==> (after.frozen() matches Some(f)
                && f.same_image(c))
        },
        SurfaceEvent::Resumed { width, height } => {
            &&& r is Ok <==> size_ok(width, height)
            &&& r is Err ==> r == Err::<(), CanvasError>(CanvasError::InvalidSize)
            &&& r is Err ==> after.active() is None
            &&& r is Err && before.active() is None ==> after.frozen() == before.frozen()
            &&& r is Err ==> (before.active() matches Some(c0) ==> (after.frozen() matches Some(f)
                && f.same_image(c0)))
            &&& r is Ok ==> after.frozen() is None
            &&& r is Ok ==> (after.active() matches Some(c) && restores(
                c,
                width,
                height,
                if before.active() is Some {
                    before.active()
                } else {
                    before.frozen()
                },
            ))
        },
        SurfaceEvent::Resized { width, height } => {
            &&& r is Ok <==> size_ok(width, height)
            &&& r is Err ==> r == Err::<(), CanvasError>(CanvasError::InvalidSize)
            &&& r is Err ==> after.active() is None
            &&& r is Err && before.active() is None ==> after.frozen() == before.frozen()
            &&& r is Err ==> (before.active() matches Some(c0) ==> (after.frozen() matches Some(f)
                && f.same_image(c0)))
            &&& r is Ok && before.active() is None ==> after.frozen() is None
            &&& r is Ok && before.active() is None ==> (after.active() matches Some(c)
                && restores(c, width, height, before.frozen()))
            &&& r is Ok && before.active() is Some ==> after.frozen() == before.frozen()
            &&& r is Ok && before.active() is Some ==> (after.active() matches Some(c)
                && restores(c, width, height, before.active()))
        },
    }
}

/// `after` is `before` with the canvas in use, if any, blank at its old size
/// and no kept image.
pub open spec fn erased(before: CanvasManager, after: CanvasManager) -> bool {
    &&& after.frozen() is None
    &&& before.active() is None <==> after.active() is None
    &&& before.active() matches Some(c0) ==> (after.active() matches Some(c) && c.wf()
        && c.width() == c0.width() && c.height() == c0.height() && forall|x: int, y: int|
        0 <= x < c.width() && 0 <= y < c.height() ==> #[trigger] c.pixel(x, y) == blank())
}

/// Growing a canvas and shrinking it back to its old size leaves its image
/// exactly as it was: the copy back and forth loses nothing and adds nothing.
pub proof fn lemma_resize_round_trip(orig: Raster, grown: Raster, back: Raster, w: u32, h: u32)
    requires
        orig.wf(),
        w >= orig.width(),
        h >= orig.height(),
        restores(grown, w, h, Some(orig)),
        restores(back, orig.width() as u32, orig.height() as u32, Some(grown)),
    ensures
        back.same_image(orig),
{
    assert forall|x: int, y: int| 0 <= x < back.width() && 0 <= y < back.height() implies #[trigger] back.pixel(x, y)
        == orig.pixel(x, y) by {
        assert(grown.pixel(x, y) == restored_pixel(Some(orig), x, y));
    }
}

/// A canvas recreated at its old size from the image kept when it was
/// suspended holds exactly the pixels it held before.
pub proof fn lemma_suspend_resume(orig: Raster, kept: Raster, restored: Raster)
    requires
        kept.same_image(orig),
        restores(restored, orig.width() as u32, orig.height() as u32, Some(kept)),
    ensures
        restored.same_image(orig),
{
    assert forall|x: int, y: int| 0 <= x < restored.width() && 0 <= y < restored.height() implies #[trigger] restored.pixel(x, y)
        == orig.pixel(x, y) by {
        assert(kept.pixel(x, y) == orig.pixel(x, y));
    }
}

} // verus!
