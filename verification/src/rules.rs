//! The rules of each variant that need no geometry: Night Watch's arrivals, predator and result,
//! Mutable Sea's identities and result, Spiral Voyage's seam crossings, ending and result, and the
//! dispatch over all four.

use vstd::prelude::*;
use crate::entity::{keeps_moored, lemma_position_unique, Cause, Entity, EntityId, Form, Roster, Status, form_name};
use crate::event::Event;
use crate::outcome::{texts, Outcome};
use crate::text::{decimal, decimal_string, article, article_of, compass_word, compass_words};
use crate::weaver::WorldWeaver;
use crate::mode::Mode;

verus! {

/// Number of ships among `s` that are active.
pub open spec fn active_ships(s: Seq<Entity>) -> nat
    decreases s.len(),
{
    if s.len() == 0 {
        0
    } else {
        active_ships(s.drop_last()) + if s.last().status == Status::Active && s.last().form
            == Form::Ship {
            1nat
        } else {
            0nat
        }
    }
}

/// Number of entities among `s` with status `st`.
pub open spec fn with_status(s: Seq<Entity>, st: Status) -> nat {
    Roster::count_status(s, st)
}

fn count_active_ships(roster: &Roster) -> (r: usize)
    ensures
        r == active_ships(roster.entities@),
{
    let mut k: usize = 0;
    let mut c: usize = 0;
    while k < roster.entities.len()
        invariant
            k <= roster.entities@.len(),
            c == active_ships(roster.entities@.subrange(0, k as int)),
            c <= k,
        decreases roster.entities@.len() - k,
    {
        proof {
            assert(roster.entities@.subrange(0, k + 1).drop_last() =~= roster.entities@.subrange(
                0,
                k as int,
            ));
        }
        if roster.entities[k].is_active_ship() {
            c += 1;
        }
        k += 1;
    }
    proof {
        assert(roster.entities@.subrange(0, k as int) =~= roster.entities@);
    }
    c
}

proof fn lemma_active_ships_push(s: Seq<Entity>, e: Entity)
    ensures
        active_ships(s.push(e)) == active_ships(s) + if e.status == Status::Active && e.form
            == Form::Ship {
            1nat
        } else {
            0nat
        },
{
    assert(s.push(e).drop_last() =~= s);
}

// ---------------------------------------------------------------------------------------------
// Night Watch
// ---------------------------------------------------------------------------------------------

/// Variant 1: guide five ships home past small islands; one ship-sized predator eats the glow.
#[derive(Clone, Debug)]
pub struct NightWatch {
    /// Vessel names in arrival order (the arrival times and approaches belong to the geometry).
    pub schedule: Vec<&'static str>,
    pub next_arrival: usize,
    pub creature_id: Option<EntityId>,
    pub target_rescues: usize,
}

/// How many scheduled vessels a step releases: those already due, in schedule order, while fewer
/// than `max_active` ships are active.
pub open spec fn released(next: int, due: int, len: int, active: int, max_active: int) -> int {
    let waiting = (if due < len { due } else { len }) - next;
    let room = max_active - active;
    if waiting <= 0 || room <= 0 {
        0
    } else if waiting < room {
        waiting
    } else {
        room
    }
}

/// Slot `k` of `spawned` names the vessel released `k`-th: schedule entry `next0 + k`, which
/// joined the roster right after its first `n0` entities as an active ship.
pub open spec fn releases_recorded(
    spawned: Seq<(EntityId, usize)>,
    after: Seq<Entity>,
    n0: int,
    schedule: Seq<&'static str>,
    next0: int,
) -> bool {
    forall|k: int|
        0 <= k < spawned.len() ==> {
            &&& #[trigger] spawned[k].1 == next0 + k
            &&& after[n0 + k].id == spawned[k].0
            &&& after[n0 + k].name@ == schedule[next0 + k]@
            &&& after[n0 + k].form == Form::Ship
            &&& after[n0 + k].status == Status::Active
        }
}

impl NightWatch {
    /// The Night Watch that every session starts from.
    pub open spec fn is_scenario(&self) -> bool {
        &&& self.schedule@.len() == 5
        &&& self.schedule@[0]@ == "Alder"@
        &&& self.schedule@[1]@ == "Brant"@
        &&& self.schedule@[2]@ == "Cormorant"@
        &&& self.schedule@[3]@ == "Dunlin"@
        &&& self.schedule@[4]@ == "Eider"@
        &&& self.next_arrival == 0
        &&& self.creature_id is None
        &&& self.target_rescues == 3
    }

    /// Fixed scenario: five vessels whose arrivals overlap; three rescues make a good night.
    pub fn scenario() -> (r: NightWatch)
        ensures
            r.is_scenario(),
    {
        let schedule = vec!["Alder", "Brant", "Cormorant", "Dunlin", "Eider"];
        NightWatch { schedule, next_arrival: 0, creature_id: None, target_rescues: 3 }
    }

    /// Release the vessels that are due: `due` is how many leading schedule entries have
    /// reached their arrival time. Arrivals join in schedule order while fewer than
    /// `max_active` ships are active. Returns each new ship's identity and schedule slot.
    #[verifier::spinoff_prover]
    pub fn spawn_due(&mut self, roster: &mut Roster, due: usize, max_active: usize) -> (spawned: Vec<(EntityId, usize)>)
        requires
            old(roster).wf(),
            old(self).next_arrival <= old(self).schedule@.len(),
            old(roster).next_id as int + old(self).schedule@.len() < u32::MAX,
        ensures
            final(roster).wf(),
            keeps_moored(old(roster).entities@, final(roster).entities@),
            final(self).schedule@ == old(self).schedule@,
            final(self).creature_id == old(self).creature_id,
            final(self).target_rescues == old(self).target_rescues,
            spawned@.len() == released(
                old(self).next_arrival as int,
                due as int,
                old(self).schedule@.len() as int,
                active_ships(old(roster).entities@) as int,
                max_active as int,
            ),
            final(self).next_arrival == old(self).next_arrival + spawned@.len(),
            final(self).next_arrival <= final(self).schedule@.len(),
            final(roster).entities@.subrange(0, old(roster).entities@.len() as int)
                == old(roster).entities@,
            final(roster).entities@.len() == old(roster).entities@.len() + spawned@.len(),
            releases_recorded(
                spawned@,
                final(roster).entities@,
                old(roster).entities@.len() as int,
                old(self).schedule@,
                old(self).next_arrival as int,
            ),
            active_ships(final(roster).entities@) == active_ships(old(roster).entities@)
                + spawned@.len(),
    {
        let mut spawned: Vec<(EntityId, usize)> = Vec::new();
        let mut active = count_active_ships(roster);
        let ghost n0 = old(roster).entities@.len();
        let ghost a0 = active_ships(old(roster).entities@);
        while self.next_arrival < self.schedule.len() && self.next_arrival < due && active < max_active
            invariant
                roster.wf(),
                self.schedule@ == old(self).schedule@,
                self.creature_id == old(self).creature_id,
                self.target_rescues == old(self).target_rescues,
                old(self).next_arrival <= self.next_arrival <= self.schedule@.len(),
                self.next_arrival == old(self).next_arrival + spawned@.len(),
                roster.next_id as int + self.schedule@.len() - self.next_arrival
                    == old(roster).next_id as int + old(self).schedule@.len() - old(self).next_arrival,
                old(roster).next_id as int + old(self).schedule@.len() < u32::MAX,
                roster.entities@.len() == n0 + spawned@.len(),
                roster.entities@.subrange(0, n0 as int) == old(roster).entities@,
                active == active_ships(roster.entities@),
                active == a0 + spawned@.len(),
                a0 == active_ships(old(roster).entities@),
                n0 == old(roster).entities@.len(),
                spawned@.len() == 0 || (self.next_arrival <= due && active <= max_active),
                releases_recorded(
                    spawned@,
                    roster.entities@,
                    n0 as int,
                    old(self).schedule@,
                    old(self).next_arrival as int,
                ),
            decreases self.schedule@.len() - self.next_arrival,
        {
            let name = self.schedule[self.next_arrival];
            let ghost before = roster.entities@;
            let id = roster.spawn(name, Form::Ship);
            proof {
                lemma_active_ships_push(before, roster.entities@.last());
                assert(roster.entities@ =~= before.push(roster.entities@.last()));
                assert(roster.entities@.subrange(0, n0 as int) =~= before.subrange(0, n0 as int));
                assert forall|k: int| 0 <= k < spawned@.len() implies roster.entities@[n0 + k] == #[trigger] before[n0 + k] by {
                    assert(n0 + k < before.len());
                }
            }
            let ghost prev = spawned@;
            spawned.push((id, self.next_arrival));
            proof {
                assert forall|k: int| 0 <= k < spawned@.len() implies {
                    &&& #[trigger] spawned@[k].1 == old(self).next_arrival + k
                    &&& roster.entities@[n0 + k].id == spawned@[k].0
                    &&& roster.entities@[n0 + k].name@ == old(self).schedule@[old(self).next_arrival + k]@
                    &&& roster.entities@[n0 + k].form == Form::Ship
                    &&& roster.entities@[n0 + k].status == Status::Active
                } by {
                    if k < prev.len() {
                        assert(prev[k].1 == old(self).next_arrival + k);
                        assert(spawned@[k] == prev[k]);
                        assert(roster.entities@[n0 + k] == before[n0 + k]);
                    } else {
                        assert(k == prev.len());
                        assert(n0 + k == before.len());
                        assert(roster.entities@[n0 + k] == roster.entities@.last());
                        assert(spawned@[k] == (id, self.next_arrival));
                        assert(self.next_arrival == old(self).next_arrival + k);
                        assert(name == self.schedule@[self.next_arrival as int]);
                    }
                }
            }
            self.next_arrival = self.next_arrival + 1;
            active = active + 1;
        }
        spawned
    }
}

/// Night Watch counts ships, and anything no longer active (a wreck cannot occur here).
pub open spec fn nw_counted(e: Entity) -> bool {
    e.form == Form::Ship || e.status != Status::Active
}

/// The vessels Night Watch reports on, in spawn order.
pub open spec fn nw_ships(s: Seq<Entity>) -> Seq<Entity>
    decreases s.len(),
{
    if s.len() == 0 {
        seq![]
    } else if nw_counted(s.last()) {
        nw_ships(s.drop_last()).push(s.last())
    } else {
        nw_ships(s.drop_last())
    }
}

pub open spec fn nw_state_word(st: Status) -> Seq<char> {
    match st {
        Status::Secured => "moored in harbor"@,
        Status::Sunk => "lost"@,
        Status::Active => "still at sea"@,
    }
}

pub open spec fn nw_ship_line(e: Entity) -> Seq<char> {
    e.name@ + ": "@ + nw_state_word(e.status)
}

/// The result lines of a Night Watch session.
pub open spec fn nw_details(ships: Seq<Entity>, total: nat, never_arrived: nat) -> Seq<Seq<char>> {
    let rescued = with_status(ships, Status::Secured);
    let sunk = with_status(ships, Status::Sunk);
    let offshore = active_ships(ships);
    let first = seq![decimal(rescued) + " of "@ + decimal(total) + " vessels rescued."@];
    let with_lost = if sunk > 0 {
        first.push(decimal(sunk) + " lost to rocks or the predator."@)
    } else {
        first
    };
    let with_offshore = if offshore + never_arrived > 0 {
        with_lost.push(decimal(offshore + never_arrived) + " still offshore at first light."@)
    } else {
        with_lost
    };
    with_offshore + ships.map_values(|e: Entity| nw_ship_line(e))
}

proof fn lemma_nw_ships_len(s: Seq<Entity>)
    ensures
        nw_ships(s).len() <= s.len(),
    decreases s.len(),
{
    if s.len() > 0 {
        lemma_nw_ships_len(s.drop_last());
    }
}

fn status_word(st: Status) -> (r: &'static str)
    ensures
        r@ == nw_state_word(st),
{
    match st {
        Status::Secured => "moored in harbor",
        Status::Sunk => "lost",
        Status::Active => "still at sea",
    }
}

fn count_in(v: &Vec<Entity>, st: Status) -> (r: usize)
    ensures
        r == with_status(v@, st),
        r <= v@.len(),
{
    let mut k: usize = 0;
    let mut c: usize = 0;
    while k < v.len()
        invariant
            k <= v@.len(),
            c == with_status(v@.subrange(0, k as int), st),
            c <= k,
        decreases v@.len() - k,
    {
        proof {
            assert(v@.subrange(0, k + 1).drop_last() =~= v@.subrange(0, k as int));
        }
        if v[k].status == st {
            c += 1;
        }
        k += 1;
    }
    proof {
        assert(v@.subrange(0, k as int) =~= v@);
    }
    c
}

fn count_active_in(v: &Vec<Entity>) -> (r: usize)
    ensures
        r == active_ships(v@),
        r <= v@.len(),
{
    let mut k: usize = 0;
    let mut c: usize = 0;
    while k < v.len()
        invariant
            k <= v@.len(),
            c == active_ships(v@.subrange(0, k as int)),
            c <= k,
        decreases v@.len() - k,
    {
        proof {
            assert(v@.subrange(0, k + 1).drop_last() =~= v@.subrange(0, k as int));
        }
        if v[k].is_active_ship() {
            c += 1;
        }
        k += 1;
    }
    proof {
        assert(v@.subrange(0, k as int) =~= v@);
    }
    c
}

/// `count` as a numeral followed by `tail`.
fn counted_line(count: usize, tail: &str) -> (r: String)
    ensures
        r@ == decimal(count as nat) + tail@,
{
    let mut s = decimal_string(count as u64);
    s.append(tail);
    s
}

impl NightWatch {
    /// The predator surfaces once, when it is `due`: it joins the roster as the Leviathan and is
    /// announced in the compass sector `wind` where its eyes show.
    pub fn wake_creature(&mut self, roster: &mut Roster, due: bool, wind: usize) -> (r: Option<Event>)
        requires
            old(roster).wf(),
            old(roster).next_id < u32::MAX,
        ensures
            final(roster).wf(),
            keeps_moored(old(roster).entities@, final(roster).entities@),
            final(self).schedule == old(self).schedule,
            final(self).next_arrival == old(self).next_arrival,
            final(self).target_rescues == old(self).target_rescues,
            (due && old(self).creature_id is None) ==> {
                let id = old(roster).next_id;
                &&& r == Some(Event::CreatureAppears { id, wind })
                &&& final(self).creature_id == Some(id)
                &&& final(roster).next_id == id + 1
                &&& final(roster).entities@.len() == old(roster).entities@.len() + 1
                &&& final(roster).entities@.drop_last() == old(roster).entities@
                &&& final(roster).entities@.last().id == id
                &&& final(roster).entities@.last().name@ == "Leviathan"@
                &&& final(roster).entities@.last().form == Form::Creature
                &&& final(roster).entities@.last().status == Status::Active
            },
            !(due && old(self).creature_id is None) ==> r is None && final(self).creature_id
                == old(self).creature_id && *final(roster) == *old(roster),
    {
        if !due || self.creature_id.is_some() {
            return None;
        }
        let id = roster.spawn("Leviathan", Form::Creature);
        self.creature_id = Some(id);
        Some(Event::CreatureAppears { id, wind })
    }
}

impl NightWatch {
    /// The session result: rescues against the target, losses, vessels still offshore (including
    /// those that never arrived), and one line per vessel.
    pub fn outcome(&self, roster: &Roster) -> (o: Outcome)
        requires
            roster.entities@.len() + self.schedule@.len() <= usize::MAX,
        ensures
            o.success == (with_status(nw_ships(roster.entities@), Status::Secured)
                >= self.target_rescues),
            o.rescued == with_status(nw_ships(roster.entities@), Status::Secured),
            o.total == self.schedule@.len(),
            o.headline@ == if o.success {
                "The night ends. The harbor is fuller than it was."@
            } else {
                "The night ends. Too few made it home."@
            },
            texts(o.details@) == nw_details(
                nw_ships(roster.entities@),
                self.schedule@.len(),
                if self.next_arrival < self.schedule@.len() {
                    (self.schedule@.len() - self.next_arrival) as nat
                } else {
                    0
                },
            ),
    {
        let mut ships: Vec<Entity> = Vec::new();
        let mut k: usize = 0;
        while k < roster.entities.len()
            invariant
                k <= roster.entities@.len(),
                ships@ == nw_ships(roster.entities@.subrange(0, k as int)),
            decreases roster.entities@.len() - k,
        {
            proof {
                assert(roster.entities@.subrange(0, k + 1).drop_last() =~= roster.entities@.subrange(
                    0,
                    k as int,
                ));
            }
            let e = roster.entities[k];
            if e.form == Form::Ship || e.status != Status::Active {
                ships.push(e);
            }
            k += 1;
        }
        proof {
            assert(roster.entities@.subrange(0, k as int) =~= roster.entities@);
        }
        let rescued = count_in(&ships, Status::Secured);
        let sunk = count_in(&ships, Status::Sunk);
        let offshore = count_active_in(&ships);
        let never_arrived = self.schedule.len().saturating_sub(self.next_arrival);
        let total = self.schedule.len();
        let mut details: Vec<String> = Vec::new();
        let mut first = counted_line(rescued, " of ");
        let t = decimal_string(total as u64);
        first.append(t.as_str());
        first.append(" vessels rescued.");
        details.push(first);
        if sunk > 0 {
            details.push(counted_line(sunk, " lost to rocks or the predator."));
        }
        proof {
            assert(ships@.len() <= roster.entities@.len()) by {
                lemma_nw_ships_len(roster.entities@);
            }
        }
        if offshore + never_arrived > 0 {
            details.push(counted_line(offshore + never_arrived, " still offshore at first light."));
        }
        let ghost head = texts(details@);
        let mut m: usize = 0;
        while m < ships.len()
            invariant
                m <= ships@.len(),
                texts(details@) == head + ships@.subrange(0, m as int).map_values(
                    |e: Entity| nw_ship_line(e),
                ),
            decreases ships@.len() - m,
        {
            let e = ships[m];
            let mut line = String::from_str(e.name);
            line.append(": ");
            line.append(status_word(e.status));
            let ghost before = details@;
            details.push(line);
            proof {
                assert(ships@.subrange(0, m + 1).map_values(|e: Entity| nw_ship_line(e))
                    =~= ships@.subrange(0, m as int).map_values(|e: Entity| nw_ship_line(e)).push(
                    nw_ship_line(e),
                ));
                assert(texts(details@) =~= texts(before).push(line@));
            }
            m += 1;
        }
        proof {
            assert(ships@.subrange(0, m as int) =~= ships@);
            assert(texts(details@) =~= nw_details(
                nw_ships(roster.entities@),
                self.schedule@.len(),
                never_arrived as nat,
            ));
        }
        let success = rescued >= self.target_rescues;
        let headline = if success {
            String::from_str("The night ends. The harbor is fuller than it was.")
        } else {
            String::from_str("The night ends. Too few made it home.")
        };
        Outcome { success, headline, details, rescued, total }
    }
}

// ---------------------------------------------------------------------------------------------
// Mutable Sea
// ---------------------------------------------------------------------------------------------

/// One persistent identity of Mutable Sea and the form it starts in.
#[derive(Clone, Copy, Debug)]
pub struct Identity {
    pub name: &'static str,
    pub form: Form,
}

/// Variant 2: three persistent identities cycle ship, wreck, creature, island in darkness.
#[derive(Clone, Debug)]
pub struct MutableSea {
    pub identities: Vec<Identity>,
    pub target_rescues: usize,
}

/// The first `k` identities joined the roster after its first `n0` entities, in order, under the
/// identities listed in `ids`.
pub open spec fn identities_spawned(
    ids: Seq<EntityId>,
    after: Seq<Entity>,
    n0: int,
    identities: Seq<Identity>,
    k: int,
) -> bool {
    forall|m: int|
        0 <= m < k ==> {
            &&& after[n0 + m].id == #[trigger] ids[m]
            &&& after[n0 + m].name@ == identities[m].name@
            &&& after[n0 + m].form == identities[m].form
            &&& after[n0 + m].status == Status::Active
        }
}

impl MutableSea {
    /// The Mutable Sea that every session starts from.
    pub open spec fn is_scenario(&self) -> bool {
        &&& self.identities@.len() == 3
        &&& self.identities@[0].name@ == "Kestrel"@ && self.identities@[0].form == Form::Ship
        &&& self.identities@[1].name@ == "Merlin"@ && self.identities@[1].form == Form::Ship
        &&& self.identities@[2].name@ == "Osprey"@ && self.identities@[2].form == Form::Creature
        &&& self.target_rescues == 2
    }

    /// Kestrel and Merlin start as ships, Osprey as a creature; two must come home as ships.
    pub fn scenario() -> (r: MutableSea)
        ensures
            r.is_scenario(),
    {
        let identities = vec![
            Identity { name: "Kestrel", form: Form::Ship },
            Identity { name: "Merlin", form: Form::Ship },
            Identity { name: "Osprey", form: Form::Creature },
        ];
        MutableSea { identities, target_rescues: 2 }
    }

    /// Spawn every identity in order, in its starting form; returns the identities given out.
    pub fn populate(&self, roster: &mut Roster) -> (ids: Vec<EntityId>)
        requires
            old(roster).wf(),
            old(roster).next_id as int + self.identities@.len() < u32::MAX,
        ensures
            final(roster).wf(),
            keeps_moored(old(roster).entities@, final(roster).entities@),
            ids@.len() == self.identities@.len(),
            final(roster).entities@.len() == old(roster).entities@.len() + self.identities@.len(),
            final(roster).entities@.subrange(0, old(roster).entities@.len() as int)
                == old(roster).entities@,
            identities_spawned(
                ids@,
                final(roster).entities@,
                old(roster).entities@.len() as int,
                self.identities@,
                self.identities@.len() as int,
            ),
    {
        let mut ids: Vec<EntityId> = Vec::new();
        let ghost n0 = old(roster).entities@.len();
        let mut k: usize = 0;
        while k < self.identities.len()
            invariant
                roster.wf(),
                k <= self.identities@.len(),
                ids@.len() == k,
                n0 == old(roster).entities@.len(),
                roster.next_id == old(roster).next_id + k,
                old(roster).next_id as int + self.identities@.len() < u32::MAX,
                roster.entities@.len() == n0 + k,
                roster.entities@.subrange(0, n0 as int) == old(roster).entities@,
                identities_spawned(ids@, roster.entities@, n0 as int, self.identities@, k as int),
            decreases self.identities@.len() - k,
        {
            let ident = self.identities[k];
            let ghost before = roster.entities@;
            let ghost prev = ids@;
            let id = roster.spawn(ident.name, ident.form);
            ids.push(id);
            proof {
                assert(roster.entities@.subrange(0, n0 as int) =~= before.subrange(0, n0 as int));
                assert forall|m: int| 0 <= m < k + 1 implies {
                    &&& roster.entities@[n0 + m].id == #[trigger] ids@[m]
                    &&& roster.entities@[n0 + m].name@ == self.identities@[m].name@
                    &&& roster.entities@[n0 + m].form == self.identities@[m].form
                    &&& roster.entities@[n0 + m].status == Status::Active
                } by {
                    if m < k {
                        assert(ids@[m] == prev[m]);
                        assert(roster.entities@[n0 + m] == before[n0 + m]);
                    } else {
                        assert(m == k);
                        assert(roster.entities@[n0 + m] == roster.entities@.last());
                        assert(ids@[m] == id);
                        assert(ident == self.identities@[m]);
                    }
                }
            }
            k += 1;
        }
        ids
    }
}

pub open spec fn ms_entity_line(e: Entity) -> Seq<char> {
    if e.status == Status::Secured {
        e.name@ + ": moored in harbor"@
    } else {
        e.name@ + ": fixed at dawn as "@ + article_of(e.form) + " "@ + form_name(e.form)
    }
}

pub open spec fn ms_details(entities: Seq<Entity>, total: nat) -> Seq<Seq<char>> {
    seq![decimal(with_status(entities, Status::Secured)) + " of "@ + decimal(total)
        + " identities secured as ships."@] + entities.map_values(|e: Entity| ms_entity_line(e))
}

impl MutableSea {
    /// The session result: dawn fixes every form; identities moored as ships count.
    pub fn outcome(&self, roster: &Roster) -> (o: Outcome)
        ensures
            o.rescued == with_status(roster.entities@, Status::Secured),
            o.total == self.identities@.len(),
            o.success == (o.rescued >= self.target_rescues),
            o.headline@ == if o.success {
                "First light fixes the sea. Enough came home as themselves."@
            } else {
                "First light fixes the sea. What remained offshore stays as it is."@
            },
            texts(o.details@) == ms_details(roster.entities@, self.identities@.len()),
    {
        let secured = count_in(&roster.entities, Status::Secured);
        let total = self.identities.len();
        let mut first = counted_line(secured, " of ");
        let t = decimal_string(total as u64);
        first.append(t.as_str());
        first.append(" identities secured as ships.");
        let mut details: Vec<String> = Vec::new();
        details.push(first);
        let ghost head = texts(details@);
        let mut m: usize = 0;
        while m < roster.entities.len()
            invariant
                m <= roster.entities@.len(),
                texts(details@) == head + roster.entities@.subrange(0, m as int).map_values(
                    |e: Entity| ms_entity_line(e),
                ),
            decreases roster.entities@.len() - m,
        {
            let e = roster.entities[m];
            let line = if e.status == Status::Secured {
                let mut l = String::from_str(e.name);
                l.append(": moored in harbor");
                l
            } else {
                let mut l = String::from_str(e.name);
                l.append(": fixed at dawn as ");
                l.append(article(e.form));
                l.append(" ");
                l.append(e.form.name());
                l
            };
            let ghost before = details@;
            details.push(line);
            proof {
                assert(roster.entities@.subrange(0, m + 1).map_values(|e: Entity| ms_entity_line(e))
                    =~= roster.entities@.subrange(0, m as int).map_values(
                    |e: Entity| ms_entity_line(e),
                ).push(ms_entity_line(e)));
                assert(texts(details@) =~= texts(before).push(line@));
            }
            m += 1;
        }
        proof {
            assert(roster.entities@.subrange(0, m as int) =~= roster.entities@);
            assert(texts(details@) =~= ms_details(roster.entities@, self.identities@.len()));
        }
        let success = secured >= self.target_rescues;
        let headline = if success {
            String::from_str("First light fixes the sea. Enough came home as themselves.")
        } else {
            String::from_str("First light fixes the sea. What remained offshore stays as it is.")
        };
        Outcome { success, headline, details, rescued: secured, total }
    }
}

// ---------------------------------------------------------------------------------------------
// Spiral Voyage
// ---------------------------------------------------------------------------------------------

/// How the voyage ended: in harbor, or on the rocks of a compass sector (eighths of a turn
/// clockwise from north).
#[derive(Clone, Copy, Debug, PartialEq, Eq, Structural)]
pub enum VoyageEnd {
    Arrived,
    Grounded(usize),
}

/// Variant 4: one ship, four worlds along a spiral through the south seam.
#[derive(Clone, Debug)]
pub struct SpiralVoyage {
    pub worlds: usize,
    pub ship: Option<EntityId>,
    /// The world the ship is announced to be in (0-based).
    pub ship_world: usize,
    pub end: Option<VoyageEnd>,
}

impl SpiralVoyage {
    /// A Spiral Voyage through `worlds` worlds before the ship has set out.
    pub open spec fn is_scenario(&self, worlds: usize) -> bool {
        &&& self.worlds == worlds
        &&& self.ship is None
        &&& self.ship_world == 0
        &&& self.end is None
    }

    pub fn scenario(worlds: usize) -> (r: SpiralVoyage)
        ensures
            r.is_scenario(worlds),
    {
        SpiralVoyage { worlds, ship: None, ship_world: 0, end: None }
    }

    /// The ship's world, while the ship is on the roster.
    pub fn ship_world(&self, roster: &Roster) -> (r: Option<usize>)
        requires
            roster.wf(),
        ensures
            r == match self.ship {
                Some(id) => if exists|k: int|
                    0 <= k < roster.entities@.len() && #[trigger] roster.entities@[k].id == id {
                    Some(self.ship_world)
                } else {
                    None
                },
                None => None,
            },
    {
        match self.ship {
            Some(id) => match roster.index_of(id) {
                Some(_) => Some(self.ship_world),
                None => None,
            },
            None => None,
        }
    }
}

/// Which way the ship's hull has clearly passed the south seam this step, if at all.
#[derive(Clone, Copy, Debug, PartialEq, Eq, Structural)]
pub enum Seam {
    Held,
    Onward,
    Back,
}

/// Index of the first ship among `s`.
pub open spec fn first_ship(s: Seq<Entity>, k: int) -> bool {
    &&& 0 <= k < s.len()
    &&& s[k].form == Form::Ship
    &&& forall|m: int| 0 <= m < k ==> #[trigger] s[m].form != Form::Ship
}

impl SpiralVoyage {
    /// The Wayfarer sets out from World 1.
    pub fn populate(&mut self, roster: &mut Roster) -> (id: EntityId)
        requires
            old(roster).wf(),
            old(roster).next_id < u32::MAX,
        ensures
            final(roster).wf(),
            keeps_moored(old(roster).entities@, final(roster).entities@),
            id == old(roster).next_id,
            final(roster).next_id == id + 1,
            final(roster).entities@.len() == old(roster).entities@.len() + 1,
            final(roster).entities@.drop_last() == old(roster).entities@,
            final(roster).entities@.last().id == id,
            final(roster).entities@.last().name@ == "Wayfarer"@,
            final(roster).entities@.last().form == Form::Ship,
            final(roster).entities@.last().status == Status::Active,
            final(self).ship == Some(id),
            final(self).ship_world == 0,
            final(self).worlds == old(self).worlds,
            final(self).end == old(self).end,
    {
        let id = roster.spawn("Wayfarer", Form::Ship);
        self.ship = Some(id);
        self.ship_world = 0;
        id
    }

    /// The ship the voyage follows (the one it already follows, or else the first ship on the
    /// roster) and its place on the roster, while it is still sailing. `None` ends the voyage:
    /// there is no ship, it has left the roster, or it is no longer active.
    pub fn follow(&mut self, roster: &Roster) -> (r: Option<usize>)
        requires
            roster.wf(),
        ensures
            final(self).worlds == old(self).worlds,
            final(self).ship_world == old(self).ship_world,
            final(self).end == old(self).end,
            old(self).ship is Some ==> final(self).ship == old(self).ship,
            old(self).ship is None ==> match final(self).ship {
                Some(id) => exists|k: int| first_ship(roster.entities@, k) && #[trigger] roster.entities@[k].id == id,
                None => forall|k: int| 0 <= k < roster.entities@.len() ==> #[trigger] roster.entities@[k].form != Form::Ship,
            },
            match r {
                Some(k) => final(self).ship == Some(roster.entities@[k as int].id) && k < roster.entities@.len()
                    && roster.entities@[k as int].status == Status::Active,
                None => match final(self).ship {
                    Some(id) => match roster.position(id) {
                        Some(k) => roster.entities@[k].status != Status::Active,
                        None => true,
                    },
                    None => true,
                },
            },
    {
        if self.ship.is_none() {
            let mut k: usize = 0;
            while k < roster.entities.len()
                invariant
                    k <= roster.entities@.len(),
                    forall|m: int| 0 <= m < k ==> #[trigger] roster.entities@[m].form != Form::Ship,
                ensures
                    k <= roster.entities@.len(),
                    forall|m: int| 0 <= m < k ==> #[trigger] roster.entities@[m].form != Form::Ship,
                    k < roster.entities@.len() ==> roster.entities@[k as int].form == Form::Ship,
                decreases roster.entities@.len() - k,
            {
                if roster.entities[k].form == Form::Ship {
                    break;
                }
                k += 1;
            }
            if k < roster.entities.len() {
                self.ship = Some(roster.entities[k].id);
                proof {
                    assert(first_ship(roster.entities@, k as int));
                }
            }
        }
        let id = match self.ship {
            Some(id) => id,
            None => {
                return None;
            },
        };
        match roster.index_of(id) {
            Some(k) => {
                proof {
                    lemma_position_unique(*roster, id, k as int);
                }
                if roster.entities[k].is_active() {
                    Some(k)
                } else {
                    None
                }
            },
            None => None,
        }
    }

    /// After the ship at roster index `k` has sailed this step: announce a seam crossing (one
    /// world at a time, never before World 1 or past the last world), then arrival, which counts
    /// only in the harbor of the last world, or a grounding on the rocks of compass sector
    /// `grounded`. True once the voyage has ended; a voyage that has ended sails no more.
    pub fn settle(&mut self, roster: &mut Roster, k: usize, seam: Seam, in_harbor: bool, grounded: Option<usize>) -> (r: (bool, Vec<Event>))
        requires
            old(roster).wf(),
            k < old(roster).entities@.len(),
            old(self).end is None,
            old(self).ship_world < old(self).worlds,
        ensures
            final(roster).wf(),
            keeps_moored(old(roster).entities@, final(roster).entities@),
            final(self).worlds == old(self).worlds,
            final(self).ship == old(self).ship,
            final(self).ship_world < final(self).worlds,
            ({
                let w = old(self).ship_world as int;
                let n = old(self).worlds as int;
                let e = old(roster).entities@[k as int];
                let nw = if seam == Seam::Onward && w + 1 < n {
                    w + 1
                } else if seam == Seam::Back && w > 0 {
                    w - 1
                } else {
                    w
                };
                let crossed: Seq<Event> = if nw != w {
                    seq![Event::ShipCrossed { world: nw as u8 }]
                } else {
                    seq![]
                };
                &&& final(self).ship_world == nw
                &&& if nw == n - 1 && in_harbor {
                    &&& r.0
                    &&& r.1@ == crossed.push(Event::VoyageArrived)
                    &&& final(self).end == Some(VoyageEnd::Arrived)
                    &&& final(roster).entities@ == old(roster).entities@.update(
                        k as int,
                        Entity { status: Status::Secured, ..e },
                    )
                } else if grounded is Some {
                    &&& r.0
                    &&& r.1@ == crossed.push(Event::Sunk { id: e.id, cause: Cause::Rock })
                    &&& final(self).end == Some(VoyageEnd::Grounded(grounded->0))
                    &&& final(roster).entities@ == old(roster).entities@.update(
                        k as int,
                        Entity {
                            status: if e.status == Status::Active { Status::Sunk } else { e.status },
                            ..e
                        },
                    )
                } else {
                    &&& !r.0
                    &&& r.1@ == crossed
                    &&& final(self).end == old(self).end
                    &&& *final(roster) == *old(roster)
                }
            }),
            final(self).end == Some(VoyageEnd::Arrived) && old(self).end != Some(VoyageEnd::Arrived)
                ==> final(self).ship_world == final(self).worlds - 1,
    {
        let mut events: Vec<Event> = Vec::new();
        let n = self.worlds;
        if seam == Seam::Onward && self.ship_world + 1 < n {
            self.ship_world = self.ship_world + 1;
            events.push(Event::ShipCrossed { world: self.ship_world as u8 });
        } else if seam == Seam::Back && self.ship_world > 0 {
            self.ship_world = self.ship_world - 1;
            events.push(Event::ShipCrossed { world: self.ship_world as u8 });
        }
        let id = roster.entities[k].id;
        proof {
            lemma_position_unique(*roster, id, k as int);
        }
        if self.ship_world == n - 1 && in_harbor {
            self.end = Some(VoyageEnd::Arrived);
            roster.secure(id);
            events.push(Event::VoyageArrived);
            return (true, events);
        }
        match grounded {
            Some(wind) => {
                roster.sink(k);
                self.end = Some(VoyageEnd::Grounded(wind));
                events.push(Event::Sunk { id, cause: Cause::Rock });
                (true, events)
            },
            None => (false, events),
        }
    }
}

pub open spec fn sv_reached(sv: SpiralVoyage, roster: Roster) -> nat {
    match sv.ship {
        Some(id) => if exists|k: int|
            0 <= k < roster.entities@.len() && #[trigger] roster.entities@[k].id == id {
            (sv.ship_world + 1) as nat
        } else {
            1
        },
        None => 1,
    }
}

pub open spec fn sv_headline(end: Option<VoyageEnd>, reached: nat) -> Seq<char> {
    match end {
        Some(VoyageEnd::Arrived) => "The Wayfarer came through all four worlds to harbor."@,
        Some(VoyageEnd::Grounded(k)) => "The Wayfarer struck the "@ + compass_words(
            if k > 7 { 7 } else { k as int },
        ) + " rocks in World "@ + decimal(reached) + "."@,
        None => "The voyage did not resolve."@,
    }
}

impl SpiralVoyage {
    /// The session result: arrival in World 4's harbor succeeds; anything else reports where
    /// the voyage stopped.
    pub fn outcome(&self, roster: &Roster) -> (o: Outcome)
        requires
            roster.wf(),
            self.ship_world < usize::MAX,
        ensures
            o.success == (self.end == Some(VoyageEnd::Arrived)),
            o.headline@ == sv_headline(self.end, sv_reached(*self, *roster)),
            texts(o.details@) == seq!["Reached World "@ + decimal(sv_reached(*self, *roster))
                + " of "@ + decimal(self.worlds as nat) + "."@],
            o.rescued == (if o.success { 1usize } else { 0usize }),
            o.total == 1,
    {
        let reached = match self.ship_world(roster) {
            Some(w) => w + 1,
            None => 1,
        };
        let (success, headline) = match self.end {
            Some(VoyageEnd::Arrived) => (
                true,
                String::from_str("The Wayfarer came through all four worlds to harbor."),
            ),
            Some(VoyageEnd::Grounded(k)) => {
                let mut h = String::from_str("The Wayfarer struck the ");
                h.append(compass_word(k));
                h.append(" rocks in World ");
                let num = decimal_string(reached as u64);
                h.append(num.as_str());
                h.append(".");
                (false, h)
            },
            None => (false, String::from_str("The voyage did not resolve.")),
        };
        let mut line = String::from_str("Reached World ");
        let num = decimal_string(reached as u64);
        line.append(num.as_str());
        line.append(" of ");
        let n = decimal_string(self.worlds as u64);
        line.append(n.as_str());
        line.append(".");
        let mut details: Vec<String> = Vec::new();
        details.push(line);
        proof {
            assert(texts(details@) =~= seq!["Reached World "@ + decimal(sv_reached(*self, *roster))
                + " of "@ + decimal(self.worlds as nat) + "."@]);
        }
        Outcome { success, headline, details, rescued: if success { 1 } else { 0 }, total: 1 }
    }
}

// ---------------------------------------------------------------------------------------------
// Dispatch
// ---------------------------------------------------------------------------------------------

/// One variant's rules.
#[derive(Clone, Debug)]
pub enum Rules {
    NightWatch(NightWatch),
    MutableSea(MutableSea),
    WorldWeaver(WorldWeaver),
    SpiralVoyage(SpiralVoyage),
}

/// What World Weaver's dawn playback reports for the result screen.
#[derive(Clone, Debug)]
pub struct PlaybackReport {
    pub arrived: bool,
    pub failure: Option<String>,
    /// Length of the passage found, rounded to whole units.
    pub passage_units: Option<u64>,
}

impl Rules {
    /// Index of the world in focus: World Weaver's inspected layer, the Spiral Voyage ship's
    /// world, 0 elsewhere. `layer` is World Weaver's current layer.
    pub fn inspected_world(&self, layer: u8) -> (r: usize)
        ensures
            r == match self {
                Rules::WorldWeaver(_) => layer as usize,
                Rules::SpiralVoyage(sv) => sv.ship_world,
                _ => 0,
            },
    {
        match self {
            Rules::WorldWeaver(_) => layer as usize,
            Rules::SpiralVoyage(sv) => sv.ship_world,
            _ => 0,
        }
    }
}

impl Rules {
    /// Fresh rules for a variant; Spiral Voyage sails through `spiral_worlds` worlds.
    pub fn for_mode(mode: Mode, spiral_worlds: usize) -> (r: Rules)
        ensures
            match mode {
                Mode::NightWatch => r matches Rules::NightWatch(nw) && nw.is_scenario(),
                Mode::MutableSea => r matches Rules::MutableSea(ms) && ms.is_scenario(),
                Mode::WorldWeaver => r matches Rules::WorldWeaver(ww) && ww.is_scenario(),
                Mode::SpiralVoyage => r matches Rules::SpiralVoyage(sv) && sv.is_scenario(spiral_worlds),
            },
    {
        match mode {
            Mode::NightWatch => Rules::NightWatch(NightWatch::scenario()),
            Mode::MutableSea => Rules::MutableSea(MutableSea::scenario()),
            Mode::WorldWeaver => Rules::WorldWeaver(WorldWeaver::scenario()),
            Mode::SpiralVoyage => Rules::SpiralVoyage(SpiralVoyage::scenario(spiral_worlds)),
        }
    }
}

/// The arrival cap holds: a step that releases vessels never lifts the number of active ships
/// above the cap (nor above where it already stood), and never releases one before it is due.
pub proof fn lemma_release_respects_cap(next: int, due: int, len: int, active: int, max_active: int)
    ensures
        released(next, due, len, active, max_active) >= 0,
        active + released(next, due, len, active, max_active) <= if active > max_active {
            active
        } else {
            max_active
        },
        next + released(next, due, len, active, max_active) <= if next > due || next > len {
            next
        } else if due < len {
            due
        } else {
            len
        },
{
}

} // verus!
