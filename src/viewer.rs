//! Key handling of the interactive fractal viewer.
//!
//! The viewer shows one fractal at a time and reacts to single key presses.
//! What a key does is decided here, from the viewer's state and the key; the
//! caller performs the action: it rebuilds the fractal, or moves its view by
//! a tenth of its extent and restarts progressive drawing.
use vstd::prelude::*;

verus! {

/// The fractal on show.
#[derive(PartialEq, Eq, Structural, Clone, Copy, Debug)]
pub enum FractalKind {
    /// Nothing on show yet.
    Empty,
    SierpinskiTriangle,
    Mandelbrot,
    Julia,
}

/// The keys the viewer reacts to; any other key is `Other`.
#[derive(PartialEq, Eq, Structural, Clone, Copy, Debug)]
pub enum ViewerKey {
    Space,
    R,
    C,
    Left,
    Right,
    Up,
    Down,
    Z,
    X,
    Other,
}

/// What the caller does after a key press.
#[derive(PartialEq, Eq, Structural, Clone, Copy, Debug)]
pub enum ViewerAction {
    Nothing,
    /// Build a new fractal of this kind, with the animation clock at zero.
    Rebuild(FractalKind),
    /// Move the view by these tenths of its extent along the real and the
    /// imaginary axis, and redraw it from the start.
    Pan(i8, i8),
    /// Widen the view by this many tenths of its extent on each side (a
    /// negative count narrows it), and redraw it from the start.
    Zoom(i8),
}

/// Whether the animation runs, how many steps it has made, and the fractal
/// on show.
pub struct ViewerState {
    pub run: bool,
    pub steps: usize,
    pub kind: FractalKind,
}

/// The fractal that follows `current` in the viewer's cycle: Mandelbrot,
/// Julia, Sierpinski triangle, and Mandelbrot again.
pub open spec fn next_kind(current: FractalKind) -> FractalKind {
    match current {
        FractalKind::Empty => FractalKind::Mandelbrot,
        FractalKind::Mandelbrot => FractalKind::Julia,
        FractalKind::Julia => FractalKind::SierpinskiTriangle,
        FractalKind::SierpinskiTriangle => FractalKind::Mandelbrot,
    }
}

/// Only the escape-time fractals have a view that moves.
pub open spec fn has_view(kind: FractalKind) -> bool {
    kind == FractalKind::Mandelbrot || kind == FractalKind::Julia
}

/// The state after key `key` and the action it asks for.
pub open spec fn on_key(run: bool, steps: usize, kind: FractalKind, key: ViewerKey) -> (
    bool,
    usize,
    FractalKind,
    ViewerAction,
) {
    match key {
        ViewerKey::Space => (!run, steps, kind, ViewerAction::Nothing),
        ViewerKey::R => (run, 0, kind, ViewerAction::Rebuild(kind)),
        ViewerKey::C => (run, 0, next_kind(kind), ViewerAction::Rebuild(next_kind(kind))),
        ViewerKey::Left => (run, steps, kind, if has_view(kind) {
            ViewerAction::Pan(1i8, 0i8)
        } else {
            ViewerAction::Nothing
        }),
        ViewerKey::Right => (run, steps, kind, if has_view(kind) {
            ViewerAction::Pan(-1i8, 0i8)
        } else {
            ViewerAction::Nothing
        }),
        ViewerKey::Up => (run, steps, kind, if has_view(kind) {
            ViewerAction::Pan(0i8, 1i8)
        } else {
            ViewerAction::Nothing
        }),
        ViewerKey::Down => (run, steps, kind, if has_view(kind) {
            ViewerAction::Pan(0i8, -1i8)
        } else {
            ViewerAction::Nothing
        }),
        ViewerKey::Z => (run, steps, kind, if has_view(kind) {
            ViewerAction::Zoom(1i8)
        } else {
            ViewerAction::Nothing
        }),
        ViewerKey::X => (run, steps, kind, if has_view(kind) {
            ViewerAction::Zoom(-1i8)
        } else {
            ViewerAction::Nothing
        }),
        ViewerKey::Other => (run, steps, kind, ViewerAction::Nothing),
    }
}

/// The fractal that follows `current` in the viewer's cycle.
pub fn change_fractal(current: FractalKind) -> (next: FractalKind)
    ensures
        next == next_kind(current),
{
    match current {
        FractalKind::Empty => FractalKind::Mandelbrot,
        FractalKind::Mandelbrot => FractalKind::Julia,
        FractalKind::Julia => FractalKind::SierpinskiTriangle,
        FractalKind::SierpinskiTriangle => FractalKind::Mandelbrot,
    }
}

impl ViewerState {
    /// The viewer at start: running, no steps made, and the first fractal of
    /// the cycle on show.
    pub fn new() -> (s: ViewerState)
        ensures
            s.run,
            s.steps == 0,
            s.kind == FractalKind::Mandelbrot,
    {
        ViewerState { run: true, steps: 0, kind: change_fractal(FractalKind::Empty) }
    }

    /// Handles one key press: `Space` starts or stops the animation, `R`
    /// rebuilds the fractal on show, `C` moves on to the next one, the arrows
    /// pan and `Z` and `X` zoom the view of an escape-time fractal.
    pub fn event(&mut self, key: ViewerKey) -> (action: ViewerAction)
        ensures
            (final(self).run, final(self).steps, final(self).kind, action) == on_key(
                old(self).run,
                old(self).steps,
                old(self).kind,
                key,
            ),
    {
        let movable = self.kind == FractalKind::Mandelbrot || self.kind == FractalKind::Julia;
        match key {
            ViewerKey::Space => {
                self.run = !self.run;
                ViewerAction::Nothing
            },
            ViewerKey::R => {
                self.steps = 0;
                ViewerAction::Rebuild(self.kind)
            },
            ViewerKey::C => {
                self.steps = 0;
                self.kind = change_fractal(self.kind);
                ViewerAction::Rebuild(self.kind)
            },
            ViewerKey::Other => ViewerAction::Nothing,
            _ => {
                if !movable {
                    ViewerAction::Nothing
                } else {
                    match key {
                        ViewerKey::Left => ViewerAction::Pan(1, 0),
                        ViewerKey::Right => ViewerAction::Pan(-1, 0),
                        ViewerKey::Up => ViewerAction::Pan(0, 1),
                        ViewerKey::Down => ViewerAction::Pan(0, -1),
                        ViewerKey::Z => ViewerAction::Zoom(1),
                        _ => ViewerAction::Zoom(-1),
                    }
                }
            },
        }
    }
}

} // verus!
