//! Verified building blocks of a small collection of renderers: the frame
//! buffer of a path tracer, a progressively drawn fractal canvas, a game of
//! life board, and the captions of an on-screen overlay.
pub mod canvas;
pub mod framebuffer;
pub mod life;
pub mod random;
pub mod text;
pub mod viewer;
