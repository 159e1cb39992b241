//! Persistent entity model shared by every variant: identity, form cycle and rescue status, and
//! the roster that hands out identities.

use vstd::prelude::*;
use crate::event::Event;

verus! {

/// Identity of a persistent entity.
pub type EntityId = u32;

/// The four forms an identity can take; in darkness they cycle in this order.
#[derive(Clone, Copy, Debug, PartialEq, Eq, Hash, Structural)]
pub enum Form {
    Ship,
    Wreck,
    Creature,
    Island,
}

/// Rescue status of an entity.
#[derive(Clone, Copy, Debug, PartialEq, Eq, Structural)]
pub enum Status {
    Active,
    /// Rescued and moored; can never be lost or counted twice.
    Secured,
    /// Night Watch: lost. Never used in Mutable Sea, where damage produces a wreck.
    Sunk,
}

/// What sank or wrecked a ship.
#[derive(Clone, Copy, Debug, PartialEq, Eq, Structural)]
pub enum Cause {
    Rock,
    Creature,
}

/// Position of a form in the cycle Ship, Wreck, Creature, Island.
pub open spec fn form_index(f: Form) -> int {
    match f {
        Form::Ship => 0,
        Form::Wreck => 1,
        Form::Creature => 2,
        Form::Island => 3,
    }
}

/// The form at a position of the cycle, taken modulo four.
pub open spec fn form_at(i: int) -> Form {
    let k = i % 4;
    if k == 0 {
        Form::Ship
    } else if k == 1 {
        Form::Wreck
    } else if k == 2 {
        Form::Creature
    } else {
        Form::Island
    }
}

/// The form darkness turns `f` into.
pub open spec fn next_form(f: Form) -> Form {
    form_at(form_index(f) + 1)
}

/// `f` after `k` changes in darkness.
pub open spec fn form_after(f: Form, k: nat) -> Form
    decreases k,
{
    if k == 0 {
        f
    } else {
        next_form(form_after(f, (k - 1) as nat))
    }
}

/// Lower-case name of a form.
pub open spec fn form_name(f: Form) -> Seq<char> {
    match f {
        Form::Ship => "ship"@,
        Form::Wreck => "wreck"@,
        Form::Creature => "creature"@,
        Form::Island => "island"@,
    }
}

/// Wrecks and islands block movement; ships and creatures do not.
pub open spec fn form_is_solid(f: Form) -> bool {
    f == Form::Wreck || f == Form::Island
}

impl Form {
    /// Position in the cycle Ship, Wreck, Creature, Island.
    pub fn index(self) -> (r: usize)
        ensures
            r == form_index(self),
            r < 4,
    {
        match self {
            Form::Ship => 0,
            Form::Wreck => 1,
            Form::Creature => 2,
            Form::Island => 3,
        }
    }

    /// The cycle in order.
    pub fn cycle() -> (r: [Form; 4])
        ensures
            forall|k: int| 0 <= k < 4 ==> #[trigger] r@[k] == form_at(k),
    {
        [Form::Ship, Form::Wreck, Form::Creature, Form::Island]
    }

    /// The next form of the cycle: Ship, Wreck, Creature, Island, Ship again.
    pub fn next(self) -> (r: Form)
        ensures
            r == next_form(self),
    {
        let cycle = Form::cycle();
        cycle[(self.index() + 1) % 4]
    }

    pub fn name(self) -> (r: &'static str)
        ensures
            r@ == form_name(self),
    {
        match self {
            Form::Ship => "ship",
            Form::Wreck => "wreck",
            Form::Creature => "creature",
            Form::Island => "island",
        }
    }

    pub fn is_solid(self) -> (r: bool)
        ensures
            r == form_is_solid(self),
    {
        match self {
            Form::Wreck | Form::Island => true,
            _ => false,
        }
    }
}

/// The form cycle has period four: four changes in darkness bring every form back to itself,
/// and fewer never do.
pub proof fn lemma_form_cycle(f: Form)
    ensures
        form_after(f, 4) == f,
        form_after(f, 1) != f,
        form_after(f, 2) != f,
        form_after(f, 3) != f,
        form_index(next_form(f)) == (form_index(f) + 1) % 4,
{
    reveal_with_fuel(form_after, 5);
}

/// Plain record of an entity: the parts of its state that the rules read and change.
#[derive(Clone, Copy, Debug)]
pub struct Entity {
    pub id: EntityId,
    pub name: &'static str,
    pub form: Form,
    pub status: Status,
    /// Ships carry a small light that attracts creatures but preserves nothing.
    pub lantern: bool,
}

impl Entity {
    pub fn new(id: EntityId, name: &'static str, form: Form) -> (r: Entity)
        ensures
            r.id == id,
            r.name == name,
            r.form == form,
            r.status == Status::Active,
            r.lantern == (form == Form::Ship),
    {
        Entity { id, name, form, status: Status::Active, lantern: form == Form::Ship }
    }

    pub fn is_active(&self) -> (r: bool)
        ensures
            r == (self.status == Status::Active),
    {
        self.status == Status::Active
    }

    pub fn is_active_ship(&self) -> (r: bool)
        ensures
            r == (self.status == Status::Active && self.form == Form::Ship),
    {
        self.is_active() && self.form == Form::Ship
    }

    /// Change form; only ships carry a lantern.
    pub fn set_form(&mut self, form: Form)
        ensures
            final(self).form == form,
            final(self).lantern == (form == Form::Ship),
            final(self).id == old(self).id,
            final(self).name == old(self).name,
            final(self).status == old(self).status,
    {
        self.form = form;
        self.lantern = form == Form::Ship;
    }
}

/// The entities of a session, in spawn order, and the next identity to hand out.
pub struct Roster {
    pub entities: Vec<Entity>,
    pub next_id: EntityId,
}

impl Roster {
    /// Identities are handed out in increasing order, so every entity has its own.
    pub open spec fn wf(&self) -> bool {
        &&& self.next_id >= 1
        &&& forall|k: int| 0 <= k < self.entities@.len() ==> #[trigger] self.entities@[k].id < self.next_id
        &&& forall|a: int, b: int|
            0 <= a < b < self.entities@.len() ==> #[trigger] self.entities@[a].id
                < #[trigger] self.entities@[b].id
    }

    /// Index of the entity with identity `id`, if any.
    pub open spec fn position(&self, id: EntityId) -> Option<int> {
        if exists|k: int| 0 <= k < self.entities@.len() && #[trigger] self.entities@[k].id == id {
            Some(choose|k: int| 0 <= k < self.entities@.len() && #[trigger] self.entities@[k].id == id)
        } else {
            None
        }
    }

    pub open spec fn count_status(s: Seq<Entity>, st: Status) -> nat
        decreases s.len(),
    {
        if s.len() == 0 {
            0
        } else {
            Self::count_status(s.drop_last(), st) + if s.last().status == st {
                1nat
            } else {
                0nat
            }
        }
    }

    pub fn new() -> (r: Roster)
        ensures
            r.wf(),
            r.entities@.len() == 0,
            r.next_id == 1,
    {
        Roster { entities: Vec::new(), next_id: 1 }
    }

    /// Add an active entity under a fresh identity and return it.
    pub fn spawn(&mut self, name: &'static str, form: Form) -> (id: EntityId)
        requires
            old(self).wf(),
            old(self).next_id < u32::MAX,
        ensures
            final(self).wf(),
            keeps_moored(old(self).entities@, final(self).entities@),
            id == old(self).next_id,
            final(self).next_id == id + 1,
            final(self).entities@.len() == old(self).entities@.len() + 1,
            final(self).entities@.drop_last() == old(self).entities@,
            final(self).entities@.last().id == id,
            final(self).entities@.last().name == name,
            final(self).entities@.last().form == form,
            final(self).entities@.last().status == Status::Active,
            final(self).entities@.last().lantern == (form == Form::Ship),
            forall|k: int| 0 <= k < old(self).entities@.len() ==> #[trigger] old(self).entities@[k].id != id,
    {
        let id = self.next_id;
        self.next_id = self.next_id + 1;
        self.entities.push(Entity::new(id, name, form));
        proof {
            assert(self.entities@.drop_last() =~= old(self).entities@);
        }
        id
    }

    /// Index of the entity with identity `id`.
    pub fn index_of(&self, id: EntityId) -> (r: Option<usize>)
        requires
            self.wf(),
        ensures
            match r {
                Some(k) => k < self.entities@.len() && self.entities@[k as int].id == id,
                None => forall|k: int| 0 <= k < self.entities@.len() ==> #[trigger] self.entities@[k].id != id,
            },
    {
        let mut k: usize = 0;
        while k < self.entities.len()
            invariant
                k <= self.entities@.len(),
                forall|m: int| 0 <= m < k ==> #[trigger] self.entities@[m].id != id,
            decreases self.entities@.len() - k,
        {
            if self.entities[k].id == id {
                return Some(k);
            }
            k += 1;
        }
        None
    }

    /// The name the player reads for identity `id`: the entity's own name, or "A vessel" for an
    /// identity no longer (or not yet) on the roster.
    pub open spec fn name_for(&self, id: EntityId) -> Seq<char> {
        match self.position(id) {
            Some(k) => self.entities@[k].name@,
            None => "A vessel"@,
        }
    }

    pub fn name_of(&self, id: EntityId) -> (r: &'static str)
        requires
            self.wf(),
        ensures
            r@ == self.name_for(id),
    {
        match self.index_of(id) {
            Some(k) => {
                proof {
                    lemma_position_unique(*self, id, k as int);
                }
                self.entities[k].name
            },
            None => "A vessel",
        }
    }

    /// Number of entities with status `st`.
    pub fn count(&self, st: Status) -> (r: usize)
        ensures
            r == Self::count_status(self.entities@, st),
    {
        let mut k: usize = 0;
        let mut c: usize = 0;
        while k < self.entities.len()
            invariant
                k <= self.entities@.len(),
                c == Self::count_status(self.entities@.subrange(0, k as int), st),
                c <= k,
            decreases self.entities@.len() - k,
        {
            proof {
                assert(self.entities@.subrange(0, k + 1).drop_last() =~= self.entities@.subrange(0, k as int));
            }
            if self.entities[k].status == st {
                c += 1;
            }
            k += 1;
        }
        proof {
            assert(self.entities@.subrange(0, k as int) =~= self.entities@);
        }
        c
    }

    /// Moor entity `id` in the harbor. Returns its mooring slot: the number of entities secured
    /// before it. `None` when no entity has that identity.
    pub fn secure(&mut self, id: EntityId) -> (r: Option<usize>)
        requires
            old(self).wf(),
        ensures
            final(self).wf(),
            keeps_moored(old(self).entities@, final(self).entities@),
            final(self).next_id == old(self).next_id,
            final(self).entities@.len() == old(self).entities@.len(),
            match r {
                Some(slot) => exists|k: int|
                    0 <= k < old(self).entities@.len() && #[trigger] old(self).entities@[k].id == id
                        && slot == Self::count_status(old(self).entities@, Status::Secured)
                        && final(self).entities@ == old(self).entities@.update(
                        k,
                        Entity { status: Status::Secured, ..old(self).entities@[k] },
                    ),
                None => final(self).entities@ == old(self).entities@ && forall|k: int|
                    0 <= k < old(self).entities@.len() ==> #[trigger] old(self).entities@[k].id != id,
            },
    {
        let slot = self.count(Status::Secured);
        match self.index_of(id) {
            Some(k) => {
                let mut e = self.entities[k];
                e.status = Status::Secured;
                self.entities.set(k, e);
                Some(slot)
            },
            None => None,
        }
    }

    /// An active entity is lost; any other is left as it is.
    pub fn sink(&mut self, k: usize)
        requires
            old(self).wf(),
            k < old(self).entities@.len(),
        ensures
            final(self).wf(),
            keeps_moored(old(self).entities@, final(self).entities@),
            final(self).next_id == old(self).next_id,
            final(self).entities@ == old(self).entities@.update(
                k as int,
                Entity {
                    status: if old(self).entities@[k as int].status == Status::Active {
                        Status::Sunk
                    } else {
                        old(self).entities@[k as int].status
                    },
                    ..old(self).entities@[k as int]
                },
            ),
    {
        if self.entities[k].status == Status::Active {
            let mut e = self.entities[k];
            e.status = Status::Sunk;
            self.entities.set(k, e);
        }
        proof {
            assert(self.entities@ =~= old(self).entities@.update(
                k as int,
                Entity {
                    status: if old(self).entities@[k as int].status == Status::Active {
                        Status::Sunk
                    } else {
                        old(self).entities@[k as int].status
                    },
                    ..old(self).entities@[k as int]
                },
            ));
        }
    }
}

impl Roster {
    /// Darkness has run out for entity `k`: an active entity takes the next form of the cycle,
    /// keeping its identity, name and status, and the change is announced. Anything no longer
    /// active (moored or lost) never changes again.
    pub fn transform(&mut self, k: usize) -> (r: Option<Event>)
        requires
            old(self).wf(),
            k < old(self).entities@.len(),
        ensures
            final(self).wf(),
            keeps_moored(old(self).entities@, final(self).entities@),
            final(self).next_id == old(self).next_id,
            old(self).entities@[k as int].status == Status::Active ==> {
                let e = old(self).entities@[k as int];
                &&& final(self).entities@ == old(self).entities@.update(
                    k as int,
                    Entity { form: next_form(e.form), lantern: next_form(e.form) == Form::Ship, ..e },
                )
                &&& r == Some(Event::Transformed { id: e.id, from: e.form, to: next_form(e.form) })
            },
            old(self).entities@[k as int].status != Status::Active ==> final(self).entities@
                == old(self).entities@ && r is None,
    {
        let mut e = self.entities[k];
        if !e.is_active() {
            return None;
        }
        let from = e.form;
        let to = from.next();
        e.set_form(to);
        self.entities.set(k, e);
        Some(Event::Transformed { id: e.id, from, to })
    }

    /// Entity `k` is lost: an active entity sinks and the loss is announced with its cause;
    /// anything already moored or lost stays as it is.
    pub fn lose(&mut self, k: usize, cause: Cause) -> (r: Option<Event>)
        requires
            old(self).wf(),
            k < old(self).entities@.len(),
        ensures
            final(self).wf(),
            keeps_moored(old(self).entities@, final(self).entities@),
            final(self).next_id == old(self).next_id,
            old(self).entities@[k as int].status == Status::Active ==> final(self).entities@
                == old(self).entities@.update(
                k as int,
                Entity { status: Status::Sunk, ..old(self).entities@[k as int] },
            ) && r == Some(Event::Sunk { id: old(self).entities@[k as int].id, cause }),
            old(self).entities@[k as int].status != Status::Active ==> final(self).entities@
                == old(self).entities@ && r is None,
    {
        if !self.entities[k].is_active() {
            return None;
        }
        let id = self.entities[k].id;
        self.sink(k);
        Some(Event::Sunk { id, cause })
    }

    /// Damage turns active entity `k` into a wreck where it is, and the wreck is announced with
    /// its cause; anything already moored or lost stays as it is.
    pub fn wreck(&mut self, k: usize, cause: Cause) -> (r: Option<Event>)
        requires
            old(self).wf(),
            k < old(self).entities@.len(),
        ensures
            final(self).wf(),
            final(self).next_id == old(self).next_id,
            keeps_moored(old(self).entities@, final(self).entities@),
            old(self).entities@[k as int].status == Status::Active ==> final(self).entities@
                == old(self).entities@.update(
                k as int,
                Entity { form: Form::Wreck, lantern: false, ..old(self).entities@[k as int] },
            ) && r == Some(Event::Wrecked { id: old(self).entities@[k as int].id, cause }),
            old(self).entities@[k as int].status != Status::Active ==> final(self).entities@
                == old(self).entities@ && r is None,
    {
        let mut e = self.entities[k];
        if !e.is_active() {
            return None;
        }
        e.set_form(Form::Wreck);
        self.entities.set(k, e);
        Some(Event::Wrecked { id: e.id, cause })
    }
}

/// Every entity moored in `before` is still in `after`, at the same place, with the same record:
/// its identity, name, form and status. What comes after `before` (new arrivals) is free.
pub open spec fn keeps_moored(before: Seq<Entity>, after: Seq<Entity>) -> bool {
    &&& before.len() <= after.len()
    &&& forall|k: int|
        0 <= k < before.len() && before[k].status == Status::Secured ==> #[trigger] after[k] == before[k]
}

/// Keeping the moored entities composes: a run of roster operations, each of which keeps them,
/// keeps them as a whole.
pub proof fn lemma_keeps_moored_chain(a: Seq<Entity>, b: Seq<Entity>, c: Seq<Entity>)
    requires
        keeps_moored(a, b),
        keeps_moored(b, c),
    ensures
        keeps_moored(a, c),
{
    assert forall|k: int| 0 <= k < a.len() && a[k].status == Status::Secured implies #[trigger] c[k]
        == a[k] by {
        assert(b[k] == a[k]);
    }
}

/// A rescued vessel is never lost later: across any change that keeps the moored entities, the
/// number of moored entities never goes down.
pub proof fn lemma_moored_never_lost(before: Seq<Entity>, after: Seq<Entity>)
    requires
        keeps_moored(before, after),
    ensures
        Roster::count_status(before, Status::Secured) <= Roster::count_status(after, Status::Secured),
{
    let n = before.len() as int;
    lemma_count_pointwise(before, after.take(n), Status::Secured);
    lemma_count_prefix(after, n, Status::Secured);
}

proof fn lemma_count_pointwise(a: Seq<Entity>, b: Seq<Entity>, st: Status)
    requires
        a.len() == b.len(),
        forall|k: int| 0 <= k < a.len() && a[k].status == st ==> #[trigger] b[k].status == st,
    ensures
        Roster::count_status(a, st) <= Roster::count_status(b, st),
    decreases a.len(),
{
    if a.len() > 0 {
        let n = a.len() - 1;
        assert forall|k: int| 0 <= k < a.drop_last().len() && a.drop_last()[k].status == st implies
            #[trigger] b.drop_last()[k].status == st by {
            assert(b[k].status == st);
        }
        assert(a[n].status == st ==> b[n].status == st);
        lemma_count_pointwise(a.drop_last(), b.drop_last(), st);
    }
}

proof fn lemma_count_prefix(s: Seq<Entity>, n: int, st: Status)
    requires
        0 <= n <= s.len(),
    ensures
        Roster::count_status(s.take(n), st) <= Roster::count_status(s, st),
    decreases s.len(),
{
    if n == s.len() {
        assert(s.take(n) =~= s);
    } else {
        assert(s.drop_last().take(n) =~= s.take(n));
        lemma_count_prefix(s.drop_last(), n, st);
    }
}

/// Entity `e` after darkness has run out for it (when `due`): an active entity takes the next
/// form; anything else is left as it is.
pub open spec fn darkened(e: Entity, due: bool) -> Entity {
    if due && e.status == Status::Active {
        Entity { form: next_form(e.form), lantern: next_form(e.form) == Form::Ship, ..e }
    } else {
        e
    }
}

/// The announcements darkness makes among the first `k` entities, in roster order.
pub open spec fn darkening_events(s: Seq<Entity>, due: Seq<bool>, k: nat) -> Seq<Event>
    decreases k,
{
    if k == 0 {
        seq![]
    } else {
        let prev = darkening_events(s, due, (k - 1) as nat);
        let e = s[k - 1];
        if due[k - 1] && e.status == Status::Active {
            prev.push(Event::Transformed { id: e.id, from: e.form, to: next_form(e.form) })
        } else {
            prev
        }
    }
}

impl Roster {
    /// One step of Mutable Sea's darkness: every entity whose time in the dark has run out
    /// (`due`, measured by the caller, who also defers a change that would appear through
    /// another entity) takes its next form, in roster order, and each change is announced.
    /// Moored and lost entities never change.
    pub fn transform_due(&mut self, due: &Vec<bool>) -> (events: Vec<Event>)
        requires
            old(self).wf(),
            due@.len() == old(self).entities@.len(),
        ensures
            final(self).wf(),
            keeps_moored(old(self).entities@, final(self).entities@),
            final(self).next_id == old(self).next_id,
            final(self).entities@ == Seq::new(
                old(self).entities@.len(),
                |k: int| darkened(old(self).entities@[k], due@[k]),
            ),
            events@ == darkening_events(old(self).entities@, due@, due@.len()),
            forall|k: int|
                0 <= k < old(self).entities@.len() && old(self).entities@[k].status != Status::Active
                    ==> #[trigger] final(self).entities@[k] == old(self).entities@[k],
    {
        let ghost s0 = self.entities@;
        let mut events: Vec<Event> = Vec::new();
        let mut k: usize = 0;
        while k < due.len()
            invariant
                self.wf(),
                self.next_id == old(self).next_id,
                s0 == old(self).entities@,
                due@.len() == s0.len(),
                k <= s0.len(),
                self.entities@.len() == s0.len(),
                forall|m: int| 0 <= m < k ==> #[trigger] self.entities@[m] == darkened(s0[m], due@[m]),
                forall|m: int| k <= m < s0.len() ==> #[trigger] self.entities@[m] == s0[m],
                events@ == darkening_events(s0, due@, k as nat),
            decreases s0.len() - k,
        {
            if due[k] {
                let r = self.transform(k);
                match r {
                    Some(e) => events.push(e),
                    None => {},
                }
            }
            k += 1;
        }
        proof {
            assert(self.entities@ =~= Seq::new(s0.len(), |m: int| darkened(s0[m], due@[m])));
        }
        events
    }
}

/// Identities are unique on a well-formed roster: the entity found under an identity is the one
/// `position` names.
pub proof fn lemma_position_unique(roster: Roster, id: EntityId, k: int)
    requires
        roster.wf(),
        0 <= k < roster.entities@.len(),
        roster.entities@[k].id == id,
    ensures
        roster.position(id) == Some(k),
{
    let c = choose|m: int| 0 <= m < roster.entities@.len() && #[trigger] roster.entities@[m].id == id;
    if c < k {
        assert(roster.entities@[c].id < roster.entities@[k].id);
    } else if c > k {
        assert(roster.entities@[k].id < roster.entities@[c].id);
    }
}

proof fn lemma_count_status_update(s: Seq<Entity>, k: int, e: Entity, st: Status)
    requires
        0 <= k < s.len(),
    ensures
        Roster::count_status(s.update(k, e), st) + (if s[k].status == st {
            1int
        } else {
            0int
        }) == Roster::count_status(s, st) + (if e.status == st {
            1int
        } else {
            0int
        }),
    decreases s.len(),
{
    let t = s.update(k, e);
    if k == s.len() - 1 {
        assert(t.drop_last() =~= s.drop_last());
    } else {
        assert(t.drop_last() =~= s.drop_last().update(k, e));
        lemma_count_status_update(s.drop_last(), k, e, st);
    }
}

/// A secured identity is never lost or counted twice: losing a ship leaves the number of
/// moored entities unchanged whatever it is applied to, and mooring an entity that is already
/// moored does not count it again.
pub proof fn lemma_secured_counted_once(s: Seq<Entity>, k: int)
    requires
        0 <= k < s.len(),
    ensures
        Roster::count_status(
            s.update(
                k,
                Entity {
                    status: if s[k].status == Status::Active {
                        Status::Sunk
                    } else {
                        s[k].status
                    },
                    ..s[k]
                },
            ),
            Status::Secured,
        ) == Roster::count_status(s, Status::Secured),
        s[k].status == Status::Secured ==> Roster::count_status(
            s.update(k, Entity { status: Status::Secured, ..s[k] }),
            Status::Secured,
        ) == Roster::count_status(s, Status::Secured),
        s[k].status != Status::Secured ==> Roster::count_status(
            s.update(k, Entity { status: Status::Secured, ..s[k] }),
            Status::Secured,
        ) == Roster::count_status(s, Status::Secured) + 1,
{
    let sunk = Entity {
        status: if s[k].status == Status::Active {
            Status::Sunk
        } else {
            s[k].status
        },
        ..s[k]
    };
    lemma_count_status_update(s, k, sunk, Status::Secured);
    lemma_count_status_update(s, k, Entity { status: Status::Secured, ..s[k] }, Status::Secured);
}

} // verus!
