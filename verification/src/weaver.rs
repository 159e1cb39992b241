//! Variant 3, World Weaver, as maze assembler. World 1 is the sea the ship will sail; Worlds 2 to
//! 4 hold stable alternative sectors. Capturing copies the previewed sector's pieces into World 1;
//! browsing never edits. At dawn the composition is frozen for the passage search, and an
//! expedition sails whatever passage was found.

use vstd::prelude::*;
use crate::entity::{keeps_moored, lemma_position_unique, Cause, EntityId, Form, Roster, Status};
use crate::event::Event;
use crate::outcome::{joined, texts, join, Outcome};
use crate::text::{compass_word, compass_words, decimal, decimal_string};

verus! {

/// Sectors around the lighthouse.
pub const SECTORS: usize = 12;

/// Worlds the beam winds through, cyclically.
pub const LAYERS: usize = 4;

/// One sector's land vocabulary: an outer reef band, an inner reef band, and an optional radial
/// wall between them. Gaps in the bands are the passages; walls block the ring channel.
#[derive(Clone, Copy, Debug, PartialEq, Eq, Structural)]
pub struct Piece {
    pub outer_gap: bool,
    pub inner_gap: bool,
    pub wall: bool,
}

impl Piece {
    pub fn new(outer_gap: bool, inner_gap: bool, wall: bool) -> (r: Piece)
        ensures
            r == (Piece { outer_gap, inner_gap, wall }),
    {
        Piece { outer_gap, inner_gap, wall }
    }
}

/// Layer inspected after `revolution` completed clockwise turns (negative when wound back).
pub open spec fn layer_of(revolution: int) -> int {
    revolution % (LAYERS as int)
}

/// Index of the world the beam inspects after `revolution` turns: cyclic over the four.
pub fn layer_for(revolution: i32) -> (r: u8)
    ensures
        r == layer_of(revolution as int),
        r < LAYERS,
{
    let rev = revolution as i64;
    let r: i64 = if rev >= 0 {
        rev % 4
    } else {
        3 - ((-rev - 1) % 4)
    };
    proof {
        let q = if rev >= 0 { rev / 4 } else { -((-rev - 1) / 4) - 1 };
        assert(rev == q * 4 + r) by {
            if rev < 0 {
                vstd::arithmetic::div_mod::lemma_fundamental_div_mod(-rev - 1, 4);
            } else {
                vstd::arithmetic::div_mod::lemma_fundamental_div_mod(rev as int, 4);
            }
        }
        vstd::arithmetic::div_mod::lemma_fundamental_div_mod_converse(rev as int, 4, q as int, r as int);
    }
    r as u8
}

/// Revisiting shows the same world: a full cycle of turns returns to the same layer, and the
/// unwound start inspects World 1.
pub proof fn lemma_layers_repeat(revolution: int)
    ensures
        layer_of(revolution + LAYERS as int) == layer_of(revolution),
        0 <= layer_of(revolution) < LAYERS,
        layer_of(0) == 0,
{
    vstd::arithmetic::div_mod::lemma_mod_add_multiples_vanish(revolution, 4);
    vstd::arithmetic::div_mod::lemma_mod_bound(revolution, 4);
}

/// A piece with the given features.
pub open spec fn piece_of(outer_gap: bool, inner_gap: bool, wall: bool) -> Piece {
    Piece { outer_gap, inner_gap, wall }
}

/// Reefs only: no gap, no wall.
pub open spec fn plain_piece() -> Piece {
    piece_of(false, false, false)
}

/// Textual record of one edited sector for the result screen: `sector N: ` and its features,
/// or `reefs` when it has none.
pub open spec fn feature_words(p: Piece) -> Seq<Seq<char>> {
    let a: Seq<Seq<char>> = if p.outer_gap { seq!["outer gap"@] } else { seq![] };
    let b: Seq<Seq<char>> = if p.inner_gap { a.push("inner gap"@) } else { a };
    let c: Seq<Seq<char>> = if p.wall { b.push("wall"@) } else { b };
    if c.len() == 0 { seq!["reefs"@] } else { c }
}

pub open spec fn sector_summary(sector: nat, p: Piece) -> Seq<char> {
    "sector "@ + decimal(sector + 1) + ": "@ + joined(feature_words(p), ", "@)
}

/// Summaries of the edited sectors among the first `k` of a frozen composition.
pub open spec fn edited_summaries(built: Seq<Piece>, edited: Seq<bool>, k: nat) -> Seq<Seq<char>>
    decreases k,
{
    if k == 0 {
        seq![]
    } else {
        let prev = edited_summaries(built, edited, (k - 1) as nat);
        if edited[k - 1] {
            prev.push(sector_summary((k - 1) as nat, built[k - 1]))
        } else {
            prev
        }
    }
}

/// Number of `true` entries among the first `k`.
pub open spec fn count_true(s: Seq<bool>, k: nat) -> nat
    decreases k,
{
    if k == 0 {
        0
    } else {
        count_true(s, (k - 1) as nat) + if s[k - 1] {
            1nat
        } else {
            0nat
        }
    }
}

#[derive(Clone, Debug)]
pub struct WorldWeaver {
    /// Sector vocabulary per world; index 0 is World 1's immutable baseline.
    pub worlds: Vec<Vec<Piece>>,
    /// World 1 as currently assembled (a restart rebuilds it from the baseline).
    pub assembled: Vec<Piece>,
    /// Which sectors have been edited (outer-edge markers).
    pub edited: Vec<bool>,
    pub last_layer: u8,
    /// Composition frozen at dawn.
    pub built: Option<Vec<Piece>>,
    /// The dawn voyage through the frozen composition.
    pub playback: Playback,
}

/// Why the dawn voyage failed.
#[derive(Clone, Copy, Debug, PartialEq, Eq, Structural)]
pub enum Failure {
    /// No passage joins the lane to the harbor.
    NoPassage,
    /// The ship struck rocks in the given eight-wind compass sector.
    Grounded(usize),
    /// The voyage ran past its time limit.
    Overdue,
}

/// World Weaver's dawn voyage: the expedition ship, whether a passage was found for it, and how
/// the voyage has gone so far.
#[derive(Clone, Copy, Debug)]
pub struct Playback {
    pub ship: Option<EntityId>,
    pub has_route: bool,
    pub arrived: bool,
    pub failure: Option<Failure>,
}

/// The headline a failure gives the result screen.
pub open spec fn failure_words(f: Failure) -> Seq<char> {
    match f {
        Failure::NoPassage => "No passage to harbor."@,
        Failure::Grounded(wind) => "The ship struck the "@ + compass_words(if wind > 7 { 7 } else { wind as int })
            + " rocks."@,
        Failure::Overdue => "The ship never reached harbor."@,
    }
}

pub fn failure_text(f: Failure) -> (r: String)
    ensures
        r@ == failure_words(f),
{
    match f {
        Failure::NoPassage => String::from_str("No passage to harbor."),
        Failure::Grounded(wind) => {
            let mut s = String::from_str("The ship struck the ");
            s.append(compass_word(wind));
            s.append(" rocks.");
            s
        },
        Failure::Overdue => String::from_str("The ship never reached harbor."),
    }
}

impl WorldWeaver {
    pub open spec fn wf(&self) -> bool {
        &&& self.worlds@.len() == LAYERS
        &&& forall|l: int| 0 <= l < LAYERS ==> #[trigger] self.worlds@[l]@.len() == SECTORS
        &&& self.assembled@.len() == SECTORS
        &&& self.edited@.len() == SECTORS
        &&& self.last_layer < LAYERS
    }

    /// The piece shown for a sector when inspecting `layer`: World 1 shows the assembled result.
    pub open spec fn piece_spec(&self, layer: int, sector: int) -> Piece {
        if layer == 0 {
            self.assembled@[sector]
        } else {
            self.worlds@[layer]@[sector]
        }
    }

    /// The World Weaver that every session starts from: the four authored worlds, World 1
    /// assembled as it is, nothing edited, built or launched.
    pub open spec fn is_scenario(&self) -> bool {
        &&& self.wf()
        &&& self.assembled@ == self.worlds@[0]@
        &&& self.last_layer == 0
        &&& self.built is None
        &&& self.playback == (Playback { ship: None, has_route: false, arrived: false, failure: None })
        &&& forall|s: int| 0 <= s < SECTORS ==> !#[trigger] self.edited@[s]
        &&& self.worlds@[0]@[7] == piece_of(true, false, false)
        &&& self.worlds@[0]@[3] == piece_of(false, false, true)
        &&& self.worlds@[0]@[10] == piece_of(false, false, true)
        &&& self.worlds@[0]@[11] == piece_of(false, true, false)
        &&& self.worlds@[0]@[0] == piece_of(false, true, false)
        &&& forall|s: int| 0 <= s < SECTORS && s != 0 && s != 3 && s != 7 && s != 10 && s != 11
            ==> #[trigger] self.worlds@[0]@[s] == plain_piece()
        &&& self.worlds@[1]@ == seq![
            piece_of(false, true, false), plain_piece(), plain_piece(), piece_of(false, true, false),
            piece_of(true, false, false), piece_of(false, false, true), plain_piece(), plain_piece(),
            piece_of(false, false, true), piece_of(true, false, false), plain_piece(),
            piece_of(true, false, false)]
        &&& self.worlds@[2]@ == seq![
            plain_piece(), piece_of(true, false, false), piece_of(false, false, true), plain_piece(),
            plain_piece(), plain_piece(), piece_of(false, false, true), piece_of(true, false, false),
            plain_piece(), piece_of(false, true, false), piece_of(true, false, false), plain_piece()]
        &&& self.worlds@[3]@ == seq![
            plain_piece(), plain_piece(), piece_of(false, true, false), piece_of(false, false, true),
            plain_piece(), piece_of(true, false, false), plain_piece(), plain_piece(),
            piece_of(false, true, false), plain_piece(), piece_of(false, false, true), plain_piece()]
    }

    /// The authored worlds. World 1's baseline lets the lane in through sector 7's outer gap,
    /// keeps the harbor's inner gaps at sectors 11 and 0, and seals both ways round the channel
    /// with radial walls at 3 and 10.
    pub fn scenario() -> (r: WorldWeaver)
        ensures
            r.is_scenario(),
    {
        let plain = Piece::new(false, false, false);
        let mut world1 = vec![plain; SECTORS];
        world1.set(7, Piece::new(true, false, false));
        world1.set(3, Piece::new(false, false, true));
        world1.set(10, Piece::new(false, false, true));
        world1.set(11, Piece::new(false, true, false));
        world1.set(0, Piece::new(false, true, false));
        // World 2: opens the east (sector 3) with an inner shortcut, but walls 5 and 8.
        let mut world2 = vec![plain; SECTORS];
        world2.set(0, Piece::new(false, true, false));
        world2.set(3, Piece::new(false, true, false));
        world2.set(4, Piece::new(true, false, false));
        world2.set(5, Piece::new(false, false, true));
        world2.set(8, Piece::new(false, false, true));
        world2.set(9, Piece::new(true, false, false));
        world2.set(11, Piece::new(true, false, false));
        // World 3: opens the west (sector 10), but walls 2 and 6 and closes the harbor gap there.
        let mut world3 = vec![plain; SECTORS];
        world3.set(2, Piece::new(false, false, true));
        world3.set(6, Piece::new(false, false, true));
        world3.set(7, Piece::new(true, false, false));
        world3.set(9, Piece::new(false, true, false));
        world3.set(10, Piece::new(true, false, false));
        world3.set(1, Piece::new(true, false, false));
        // World 4: walls at 3 and 10 again, inner gaps at 2 and 8 (lagoon shortcuts).
        let mut world4 = vec![plain; SECTORS];
        world4.set(2, Piece::new(false, true, false));
        world4.set(3, Piece::new(false, false, true));
        world4.set(8, Piece::new(false, true, false));
        world4.set(10, Piece::new(false, false, true));
        world4.set(7, Piece::new(false, false, false));  // copying this closes the entrance: a real mistake
        world4.set(5, Piece::new(true, false, false));
        let assembled = world1.clone();
        let mut worlds: Vec<Vec<Piece>> = Vec::new();
        worlds.push(world1);
        worlds.push(world2);
        worlds.push(world3);
        worlds.push(world4);
        let r = WorldWeaver {
            worlds,
            assembled,
            edited: vec![false; SECTORS],
            last_layer: 0,
            built: None,
            playback: Playback { ship: None, has_route: false, arrived: false, failure: None },
        };
        proof {
            assert(r.assembled@ =~= r.worlds@[0]@);
            assert(r.worlds@[1]@ =~= seq![
                piece_of(false, true, false), plain_piece(), plain_piece(), piece_of(false, true, false),
                piece_of(true, false, false), piece_of(false, false, true), plain_piece(), plain_piece(),
                piece_of(false, false, true), piece_of(true, false, false), plain_piece(),
                piece_of(true, false, false)]);
            assert(r.worlds@[2]@ =~= seq![
                plain_piece(), piece_of(true, false, false), piece_of(false, false, true), plain_piece(),
                plain_piece(), plain_piece(), piece_of(false, false, true), piece_of(true, false, false),
                plain_piece(), piece_of(false, true, false), piece_of(true, false, false), plain_piece()]);
            assert(r.worlds@[3]@ =~= seq![
                plain_piece(), plain_piece(), piece_of(false, true, false), piece_of(false, false, true),
                plain_piece(), piece_of(true, false, false), plain_piece(), plain_piece(),
                piece_of(false, true, false), plain_piece(), piece_of(false, false, true), plain_piece()]);
        }
        r
    }
}

impl WorldWeaver {
    /// Piece shown for a sector when inspecting `layer`: World 1 shows the assembled result.
    pub fn piece(&self, layer: u8, sector: usize) -> (r: Piece)
        requires
            self.wf(),
            layer < LAYERS,
            sector < SECTORS,
        ensures
            r == self.piece_spec(layer as int, sector as int),
    {
        if layer == 0 {
            self.assembled[sector]
        } else {
            self.worlds[layer as usize][sector]
        }
    }

    /// One night step of the assembler, given the inspected layer, the lit sector and whether
    /// capture was pressed. A layer change is announced; capturing in World 1 only reports it;
    /// capturing elsewhere copies that world's piece into World 1 (the source is untouched) and
    /// marks the sector edited.
    pub fn step_night(&mut self, layer: u8, sector: usize, capture: bool) -> (events: Vec<Event>)
        requires
            old(self).wf(),
            layer < LAYERS,
            sector < SECTORS,
        ensures
            final(self).wf(),
            final(self).worlds@ == old(self).worlds@,
            final(self).built == old(self).built,
            final(self).last_layer == layer,
            final(self).assembled@ == if capture && layer != 0 {
                old(self).assembled@.update(sector as int, old(self).worlds@[layer as int]@[sector as int])
            } else {
                old(self).assembled@
            },
            final(self).edited@ == if capture && layer != 0 {
                old(self).edited@.update(sector as int, true)
            } else {
                old(self).edited@
            },
            events@ == (if layer != old(self).last_layer {
                seq![Event::LayerChanged { layer }]
            } else {
                seq![]
            }) + (if !capture {
                seq![]
            } else if layer == 0 {
                seq![Event::AssembledWorld]
            } else {
                seq![Event::Captured { sector, layer }]
            }),
    {
        let mut events: Vec<Event> = Vec::new();
        if layer != self.last_layer {
            self.last_layer = layer;
            events.push(Event::LayerChanged { layer });
        }
        if capture {
            if layer == 0 {
                events.push(Event::AssembledWorld);
            } else {
                // Copy, not swap: the source world is untouched.
                let p = self.worlds[layer as usize][sector];
                self.assembled.set(sector, p);
                self.edited.set(sector, true);
                events.push(Event::Captured { sector, layer });
            }
        }
        proof {
            assert(events@ =~= (if layer != old(self).last_layer {
                seq![Event::LayerChanged { layer }]
            } else {
                seq![]
            }) + (if !capture {
                seq![]
            } else if layer == 0 {
                seq![Event::AssembledWorld]
            } else {
                seq![Event::Captured { sector, layer }]
            }));
        }
        events
    }

    /// Dawn: freeze exactly the current World 1 and return it for building.
    pub fn freeze(&mut self) -> (built: Vec<Piece>)
        requires
            old(self).wf(),
        ensures
            final(self).wf(),
            built@ == old(self).assembled@,
            final(self).built matches Some(b) && b@ == built@,
            final(self).assembled@ == old(self).assembled@,
            final(self).edited@ == old(self).edited@,
            final(self).worlds@ == old(self).worlds@,
    {
        let built = self.assembled.clone();
        proof {
            assert(built@ =~= old(self).assembled@);
        }
        let copy = built.clone();
        proof {
            assert(copy@ =~= built@);
        }
        self.built = Some(copy);
        built
    }
}

impl WorldWeaver {
    /// Number of sectors copied into World 1.
    pub fn edited_count(&self) -> (r: usize)
        ensures
            r == count_true(self.edited@, self.edited@.len()),
    {
        let mut count: usize = 0;
        let mut k: usize = 0;
        while k < self.edited.len()
            invariant
                k <= self.edited@.len(),
                count == count_true(self.edited@, k as nat),
                count <= k,
            decreases self.edited@.len() - k,
        {
            if self.edited[k] {
                count += 1;
            }
            k += 1;
        }
        count
    }
}

impl WorldWeaver {
    /// Dawn, once the composition is frozen: the expedition ship enters at the lane, and the
    /// voyage starts with or without a passage (`has_route`) found through the frozen sea.
    pub fn launch(&mut self, roster: &mut Roster, has_route: bool) -> (id: EntityId)
        requires
            old(roster).wf(),
            old(roster).next_id < u32::MAX,
        ensures
            final(roster).wf(),
            keeps_moored(old(roster).entities@, final(roster).entities@),
            id == old(roster).next_id,
            final(roster).next_id == id + 1,
            final(roster).entities@.len() == old(roster).entities@.len() + 1,
            final(roster).entities@.drop_last() == old(roster).entities@,
            final(roster).entities@.last().id == id,
            final(roster).entities@.last().name@ == "Expedition"@,
            final(roster).entities@.last().form == Form::Ship,
            final(roster).entities@.last().status == Status::Active,
            final(self).playback == (Playback { ship: Some(id), has_route, arrived: false, failure: None }),
            final(self).worlds == old(self).worlds,
            final(self).assembled == old(self).assembled,
            final(self).edited == old(self).edited,
            final(self).built == old(self).built,
            final(self).last_layer == old(self).last_layer,
    {
        let id = roster.spawn("Expedition", Form::Ship);
        self.playback = Playback { ship: Some(id), has_route, arrived: false, failure: None };
        id
    }

    /// What the start of the voyage announces: the ship entering, and no passage when none
    /// was found.
    pub fn begin_voyage(&self) -> (events: Vec<Event>)
        ensures
            events@ == (if self.playback.has_route {
                seq![Event::VoyageBegins]
            } else {
                seq![Event::VoyageBegins, Event::NoPassage]
            }),
    {
        let mut events = vec![Event::VoyageBegins];
        if !self.playback.has_route {
            events.push(Event::NoPassage);
        }
        proof {
            if self.playback.has_route {
                assert(events@ =~= seq![Event::VoyageBegins]);
            } else {
                assert(events@ =~= seq![Event::VoyageBegins, Event::NoPassage]);
            }
        }
        events
    }

    /// One step of the dawn voyage; true once it has resolved. What the presentation measured
    /// this step: `arrived`, the ship reached the harbor; `grounded`, the compass sector of rocks
    /// it struck; `overdue`, the voyage ran past its limit; `beat_done`, a failure's closing beat
    /// has played out. Arrival wins over a grounding, which wins over running late.
    pub fn step_playback(
        &mut self,
        roster: &mut Roster,
        beat_done: bool,
        arrived: bool,
        grounded: Option<usize>,
        overdue: bool,
    ) -> (r: (bool, Vec<Event>))
        requires
            old(roster).wf(),
        ensures
            final(roster).wf(),
            keeps_moored(old(roster).entities@, final(roster).entities@),
            final(self).worlds == old(self).worlds,
            final(self).assembled == old(self).assembled,
            final(self).edited == old(self).edited,
            final(self).built == old(self).built,
            final(self).playback.ship == old(self).playback.ship,
            final(self).playback.has_route == old(self).playback.has_route,
            ({
                let pb = old(self).playback;
                let present = pb.ship matches Some(id) && old(roster).position(id) is Some;
                if !present {
                    r.0 && r.1@ == Seq::<Event>::empty() && final(self).playback == pb
                        && *final(roster) == *old(roster)
                } else if pb.failure is Some {
                    r.0 == beat_done && r.1@ == Seq::<Event>::empty() && final(self).playback == pb
                        && *final(roster) == *old(roster)
                } else if !pb.has_route {
                    !r.0 && r.1@ == Seq::<Event>::empty() && final(self).playback == (Playback {
                        failure: Some(Failure::NoPassage),
                        ..pb
                    }) && *final(roster) == *old(roster)
                } else {
                    let id = pb.ship->0;
                    let k = old(roster).position(id)->0;
                    let e = old(roster).entities@[k];
                    if arrived {
                        &&& r.0
                        &&& r.1@ == seq![Event::VoyageArrived]
                        &&& final(self).playback == (Playback { arrived: true, ..pb })
                        &&& final(roster).entities@ == old(roster).entities@.update(
                            k,
                            crate::entity::Entity { status: Status::Secured, ..e },
                        )
                    } else if grounded is Some {
                        &&& !r.0
                        &&& r.1@ == seq![Event::Sunk { id, cause: Cause::Rock }]
                        &&& final(self).playback == (Playback {
                            failure: Some(Failure::Grounded(grounded->0)),
                            ..pb
                        })
                        &&& final(roster).entities@ == old(roster).entities@.update(
                            k,
                            crate::entity::Entity {
                                status: if e.status == Status::Active { Status::Sunk } else { e.status },
                                ..e
                            },
                        )
                    } else {
                        &&& !r.0
                        &&& r.1@ == Seq::<Event>::empty()
                        &&& final(self).playback == (if overdue {
                            Playback { failure: Some(Failure::Overdue), ..pb }
                        } else {
                            pb
                        })
                        &&& *final(roster) == *old(roster)
                    }
                }
            }),
    {
        let no_events: Vec<Event> = Vec::new();
        let id = match self.playback.ship {
            Some(id) => id,
            None => {
                return (true, no_events);
            },
        };
        let k = match roster.index_of(id) {
            Some(k) => k,
            None => {
                return (true, no_events);
            },
        };
        proof {
            lemma_position_unique(*roster, id, k as int);
        }
        if self.playback.failure.is_some() {
            return (beat_done, no_events);
        }
        if !self.playback.has_route {
            self.playback.failure = Some(Failure::NoPassage);
            return (false, no_events);
        }
        if arrived {
            self.playback.arrived = true;
            roster.secure(id);
            return (true, vec![Event::VoyageArrived]);
        }
        match grounded {
            Some(wind) => {
                roster.sink(k);
                self.playback.failure = Some(Failure::Grounded(wind));
                (false, vec![Event::Sunk { id, cause: Cause::Rock }])
            },
            None => {
                if overdue {
                    self.playback.failure = Some(Failure::Overdue);
                }
                (false, no_events)
            },
        }
    }
}

fn feature_list(p: Piece) -> (r: Vec<String>)
    ensures
        texts(r@) == feature_words(p),
{
    let mut parts: Vec<String> = Vec::new();
    if p.outer_gap {
        parts.push(String::from_str("outer gap"));
    }
    if p.inner_gap {
        parts.push(String::from_str("inner gap"));
    }
    if p.wall {
        parts.push(String::from_str("wall"));
    }
    if parts.len() == 0 {
        parts.push(String::from_str("reefs"));
    }
    proof {
        assert(texts(parts@) =~= feature_words(p));
    }
    parts
}

fn summarize_sector(sector: usize, p: Piece) -> (r: String)
    requires
        sector < SECTORS,
    ensures
        r@ == sector_summary(sector as nat, p),
{
    let mut s = String::from_str("sector ");
    let num = decimal_string(sector as u64 + 1);
    s.append(num.as_str());
    s.append(": ");
    let words = join(&feature_list(p), ", ");
    s.append(words.as_str());
    s
}

/// The lines and headline the result screen shows after the voyage.
pub open spec fn weaver_details(
    edited: Seq<bool>,
    built: Option<Seq<Piece>>,
    passage_units: Option<u64>,
) -> Seq<Seq<char>> {
    let first = seq![decimal(count_true(edited, edited.len())) + " of "@ + decimal(edited.len())
        + " sectors copied into World 1."@];
    let with_summary = match built {
        Some(b) => {
            let summaries = edited_summaries(b, edited, edited.len());
            if summaries.len() == 0 {
                first
            } else {
                first.push(joined(summaries, "; "@))
            }
        },
        None => first,
    };
    match passage_units {
        Some(u) => with_summary.push(
            "Passage found: "@ + decimal(u as nat) + " units through the assembled sea."@,
        ),
        None => with_summary,
    }
}

pub open spec fn weaver_headline(failure: Option<Failure>, arrived: bool) -> Seq<char> {
    match failure {
        Some(f) => failure_words(f),
        None => if arrived {
            "The ship found its way through your sea to the harbor."@
        } else {
            "The voyage did not resolve."@
        },
    }
}

impl WorldWeaver {
    /// The session result, from the dawn voyage. `passage_units` is the length of the passage
    /// found, rounded to whole units, when one was found.
    pub fn outcome(&self, passage_units: Option<u64>) -> (o: Outcome)
        requires
            self.wf(),
            forall|b: Vec<Piece>| self.built == Some(b) ==> b@.len() == SECTORS,
        ensures
            o.success == self.playback.arrived,
            o.headline@ == weaver_headline(self.playback.failure, self.playback.arrived),
            texts(o.details@) == weaver_details(
                self.edited@,
                match self.built {
                    Some(b) => Some(b@),
                    None => None,
                },
                passage_units,
            ),
            o.rescued == (if self.playback.arrived { 1usize } else { 0usize }),
            o.total == 1,
    {
        let arrived = self.playback.arrived;
        let count = self.edited_count();
        let mut first = decimal_string(count as u64);
        first.append(" of ");
        let total = decimal_string(self.edited.len() as u64);
        first.append(total.as_str());
        first.append(" sectors copied into World 1.");
        let mut details: Vec<String> = Vec::new();
        details.push(first);
        let ghost first_seq = texts(details@);
        match &self.built {
            Some(built) => {
                let mut summary: Vec<String> = Vec::new();
                let mut s: usize = 0;
                while s < built.len()
                    invariant
                        s <= built@.len(),
                        built@.len() == SECTORS,
                        self.edited@.len() == SECTORS,
                        texts(summary@) == edited_summaries(built@, self.edited@, s as nat),
                    decreases built@.len() - s,
                {
                    if self.edited[s] {
                        let line = summarize_sector(s, built[s]);
                        let ghost before = summary@;
                        summary.push(line);
                        proof {
                            assert(texts(summary@) =~= texts(before).push(line@));
                        }
                    }
                    s += 1;
                }
                if summary.len() > 0 {
                    let joined_line = join(&summary, "; ");
                    details.push(joined_line);
                }
            },
            None => {},
        }
        match passage_units {
            Some(u) => {
                let mut line = String::from_str("Passage found: ");
                let num = decimal_string(u);
                line.append(num.as_str());
                line.append(" units through the assembled sea.");
                details.push(line);
            },
            None => {},
        }
        proof {
            assert(texts(details@) =~= weaver_details(
                self.edited@,
                match self.built {
                    Some(b) => Some(b@),
                    None => None,
                },
                passage_units,
            ));
        }
        let headline = match self.playback.failure {
            Some(f) => failure_text(f),
            None => if arrived {
                String::from_str("The ship found its way through your sea to the harbor.")
            } else {
                String::from_str("The voyage did not resolve.")
            },
        };
        Outcome {
            success: arrived,
            headline,
            details,
            rescued: if arrived { 1 } else { 0 },
            total: 1,
        }
    }
}

/// One validated World Weaver assembly: open the east with sector 3 from World 2.
pub fn world_weaver_solution() -> (r: Vec<(usize, u8)>)
    ensures
        r@ == seq![(3usize, 1u8)],
{
    let r = vec![(3, 1)];
    assert(r@ =~= seq![(3usize, 1u8)]);
    r
}

/// A second validated assembly: open the west with sector 10 from World 3.
pub fn world_weaver_alternative() -> (r: Vec<(usize, u8)>)
    ensures
        r@ == seq![(10usize, 2u8)],
{
    let r = vec![(10, 2)];
    assert(r@ =~= seq![(10usize, 2u8)]);
    r
}

} // verus!
