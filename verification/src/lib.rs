//! A character-grid display core.
//!
//! The crate keeps an in-memory grid of (glyph, colour-attribute) cells,
//! offers integer rasterization primitives over that grid (pixels, fills,
//! lines, triangles, circles, strings, sprite blits), tracks per-key
//! press/hold/release transitions across frames, and leaves everything that
//! touches a physical console (handles, fonts, flushing, timing) to a thin
//! backend layer outside this crate.

use vstd::prelude::*;

pub mod console;
pub mod raster;
pub mod sprite;

pub use console::Cell;
pub use console::ConsoleView;
pub use console::RustConsole;
pub use sprite::DecodeError;
pub use sprite::RustConsoleSprite;
pub use sprite::SpriteView;

verus! {

/// Edge-detected state of one key for the current frame.
///
/// `pressed` is true only on the frame the key goes from up to down,
/// `released` only on the frame it goes from down to up, and `held` is true
/// for every frame the key is physically down, including the transition
/// frame.
#[derive(Clone, Copy, PartialEq, Eq, Structural, Debug)]
pub struct KeyState {
    pub pressed: bool,
    pub released: bool,
    pub held: bool,
}

} // verus!
