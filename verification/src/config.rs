//! Start-up configuration of the map client.

use vstd::prelude::*;

verus! {

/// Start-up configuration.
#[derive(Clone, Copy, Debug)]
pub struct Configuration {
    /// Tiles kept per zoom level in the tile cache; never zero.
    pub tiles: usize,
}

impl Default for Configuration {
    fn default() -> (r: Self)
        ensures
            r.tiles == 128,
    {
        Configuration { tiles: 128 }
    }
}

} // verus!
