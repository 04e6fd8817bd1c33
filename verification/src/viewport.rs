//! Screen layout constants handed in by the presentation collaborator.

use vstd::prelude::*;

verus! {

/// Dimensions of the map pane and the log pane, in tiles.
#[derive(Clone, Copy, PartialEq, Eq, Structural, Debug)]
pub struct Viewport {
    pub map_width: i32,
    pub map_height: i32,
    pub log_height: i32,
}

} // verus!
