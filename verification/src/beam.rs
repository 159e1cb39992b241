//! How each variant lights the water.

use vstd::prelude::*;
use crate::mode::Mode;

verus! {

#[derive(Clone, Copy, Debug, PartialEq, Eq, Structural)]
pub enum FootprintKind {
    /// Spotlight patch with independent bearing and range.
    Spot,
    /// World Weaver: one complete radial sector.
    Sector,
}

/// World Weaver lights whole sectors; every other variant uses the spotlight patch.
pub fn footprint_kind(mode: Mode) -> (r: FootprintKind)
    ensures
        r == (if mode == Mode::WorldWeaver {
            FootprintKind::Sector
        } else {
            FootprintKind::Spot
        }),
{
    match mode {
        Mode::WorldWeaver => FootprintKind::Sector,
        _ => FootprintKind::Spot,
    }
}

} // verus!
