//! The drawing surface the renderer blits to.
//!
//! The renderer needs one capability from a display: fill an axis-aligned
//! rectangle with a solid color, fallibly. [`DrawSurface`] states that
//! capability together with its contract over the surface's fill log, and
//! [`RecordingSurface`] is an in-memory implementation that keeps the log
//! as a vector and can be told to fail a chosen fill attempt.

use vstd::prelude::*;

use crate::geometry::Rect;

verus! {

/// A color in RGB565 form: 5 bits red, 6 bits green, 5 bits blue,
/// packed into 16 bits.
#[derive(Clone, Copy, Debug, PartialEq, Eq, Structural)]
pub struct Color {
    pub rgb565: u16,
}

impl Color {
    /// The all-bits-set RGB565 value: solid white.
    pub open spec fn white_spec() -> Color {
        Color { rgb565: 0xFFFF }
    }

    /// Solid white, the foreground color text is drawn with.
    pub fn white() -> (c: Color)
        ensures
            c == Color::white_spec(),
    {
        Color { rgb565: 0xFFFF }
    }
}

/// The opaque failure a surface reports when a fill does not take effect.
#[derive(Clone, Copy, Debug, PartialEq, Eq, Structural)]
pub struct SurfaceError;

/// One rectangle fill that a surface performed.
#[derive(Clone, Copy, Debug, PartialEq, Eq, Structural)]
pub struct FillOp {
    pub rect: Rect,
    pub color: Color,
}

/// A drawable target that can fill axis-aligned rectangles with a solid
/// color, and may fail on any attempt.
///
/// The surface is modeled by its fill log, the sequence of fills it has
/// performed so far, oldest first. A successful `fill_rect` appends exactly
/// one entry; a failed one leaves the log unchanged. Nothing promises that
/// any attempt succeeds: a hardware surface may fail at any point.
pub trait DrawSurface {
    /// The fills this surface has performed, in order.
    spec fn fills(&self) -> Seq<FillOp>;

    /// Fill `rect` with `color`, or report failure.
    fn fill_rect(&mut self, rect: Rect, color: Color) -> (r: Result<(), SurfaceError>)
        ensures
            r is Ok ==> final(self).fills() == old(self).fills().push((FillOp { rect, color })),
            r is Err ==> final(self).fills() == old(self).fills(),
    ;
}

/// An in-memory surface: every successful fill is appended to `log`.
///
/// `attempts` counts fill attempts, successes and failures alike (it stops
/// counting if it would overflow). When `fail_at` is `Some(n)`, the attempt
/// with index `n` (counting from zero) reports failure; every other attempt
/// succeeds. This gives tests a surface whose first failure point they choose.
pub struct RecordingSurface {
    pub log: Vec<FillOp>,
    pub attempts: u64,
    pub fail_at: Option<u64>,
}

impl RecordingSurface {
    /// A fresh surface on which every fill succeeds.
    pub fn new() -> (s: RecordingSurface)
        ensures
            s.log@ == Seq::<FillOp>::empty(),
            s.attempts == 0,
            s.fail_at is None,
    {
        RecordingSurface { log: Vec::new(), attempts: 0, fail_at: None }
    }

    /// A fresh surface whose fill attempt number `n` (from zero) fails.
    pub fn failing_at(n: u64) -> (s: RecordingSurface)
        ensures
            s.log@ == Seq::<FillOp>::empty(),
            s.attempts == 0,
            s.fail_at == Some(n),
    {
        RecordingSurface { log: Vec::new(), attempts: 0, fail_at: Some(n) }
    }
}

impl DrawSurface for RecordingSurface {
    open spec fn fills(&self) -> Seq<FillOp> {
        self.log@
    }

    fn fill_rect(&mut self, rect: Rect, color: Color) -> (r: Result<(), SurfaceError>)
        ensures
            final(self).fail_at == old(self).fail_at,
            old(self).attempts < u64::MAX ==> final(self).attempts == old(self).attempts + 1,
            old(self).attempts == u64::MAX ==> final(self).attempts == u64::MAX,
            r is Err <==> old(self).fail_at == Some(old(self).attempts),
            r is Ok ==> final(self).log@ == old(self).log@.push((FillOp { rect, color })),
            r is Err ==> final(self).log@ == old(self).log@,
    {
        let attempt = self.attempts;
        if self.attempts < u64::MAX {
            self.attempts = self.attempts + 1;
        }
        let fail = match self.fail_at {
            Some(n) => attempt == n,
            None => false,
        };
        if fail {
            Err(SurfaceError)
        } else {
            self.log.push(FillOp { rect, color });
            Ok(())
        }
    }
}

} // verus!
