//! What a session announces to the presentation: sounds to play and lines to show. Positions are
//! the presentation's business; an event carries what the words and sounds depend on.

use vstd::prelude::*;
use crate::entity::{Cause, EntityId, Form};

verus! {

#[derive(Clone, Copy, Debug, PartialEq, Eq, Structural)]
pub enum Event {
    Ignite,
    NightBegins,
    Dawn,
    ShipArrived { id: EntityId },
    /// The creature surfaced; `wind` is the eight-wind compass sector it surfaced in.
    CreatureAppears { id: EntityId, wind: usize },
    Rescued { id: EntityId },
    Sunk { id: EntityId, cause: Cause },
    /// Mutable Sea damage: the ship became a wreck.
    Wrecked { id: EntityId, cause: Cause },
    Transformed { id: EntityId, from: Form, to: Form },
    Bell,
    CreatureCall,
    /// The inspected world changed (World Weaver browsing).
    LayerChanged { layer: u8 },
    /// World Weaver: a sector's land was copied into World 1 from `layer`.
    Captured { sector: usize, layer: u8 },
    /// World Weaver: capture pressed while inspecting the assembled world itself.
    AssembledWorld,
    VoyageBegins,
    /// World Weaver: no passage exists from the lane to the harbor.
    NoPassage,
    VoyageArrived,
    /// Spiral Voyage: the ship crossed the seam into `world` (0-based).
    ShipCrossed { world: u8 },
    SessionEnded,
}

} // verus!
