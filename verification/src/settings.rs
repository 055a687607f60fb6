use vstd::prelude::*;

verus! {

/// The size of the game window in pixels.
#[derive(Debug, Clone, Copy, PartialEq, Eq, Structural)]
pub struct Window {
    pub width: u32,
    pub height: u32,
}

} // verus!
