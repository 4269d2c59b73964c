use vstd::prelude::*;

pub mod c8;
pub mod cycle;
pub mod font;
pub mod laws;
pub mod semantics;
pub mod state;

verus! {

/// Number of pixel rows on the display.
pub const SCREEN_LINES: usize = 32;

/// Number of pixel columns on the display.
pub const SCREEN_COLUMNS: usize = 64;

/// The colour pairs a renderer may use for lit and unlit pixels.  The
/// interpreter itself never reads this; it travels from the command line to
/// the renderer.
#[derive(Clone, Copy, Debug, PartialEq, Eq, Structural)]
pub enum ColorScheme {
    BlackWhite,
    OrangeYellow,
    BlackGreen,
}

} // verus!
