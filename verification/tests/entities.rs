use first_light::event::Event;
use first_light::entity::{Cause, Entity, Form, Roster, Status};
use first_light::mode::{menu_selection, Mode};
use first_light::beam::{footprint_kind, FootprintKind};

#[test]
fn form_cycle_runs_ship_wreck_creature_island() {
    assert_eq!(Form::Ship.next(), Form::Wreck);
    assert_eq!(Form::Wreck.next(), Form::Creature);
    assert_eq!(Form::Creature.next(), Form::Island);
    assert_eq!(Form::Island.next(), Form::Ship);
    for f in Form::cycle() {
        assert_eq!(f.next().next().next().next(), f);
        assert_ne!(f.next(), f);
    }
    assert_eq!(Form::cycle(), [Form::Ship, Form::Wreck, Form::Creature, Form::Island]);
}

#[test]
fn form_index_name_and_solidity() {
    assert_eq!(Form::Ship.index(), 0);
    assert_eq!(Form::Wreck.index(), 1);
    assert_eq!(Form::Creature.index(), 2);
    assert_eq!(Form::Island.index(), 3);
    assert_eq!(Form::Ship.name(), "ship");
    assert_eq!(Form::Wreck.name(), "wreck");
    assert_eq!(Form::Creature.name(), "creature");
    assert_eq!(Form::Island.name(), "island");
    assert!(!Form::Ship.is_solid());
    assert!(Form::Wreck.is_solid());
    assert!(!Form::Creature.is_solid());
    assert!(Form::Island.is_solid());
}

#[test]
fn entity_lantern_follows_form() {
    let mut e = Entity::new(7, "Kestrel", Form::Ship);
    assert!(e.lantern && e.is_active_ship());
    e.set_form(Form::Wreck);
    assert!(!e.lantern && !e.is_active_ship() && e.is_active());
    assert_eq!(e.id, 7);
    assert_eq!(e.name, "Kestrel");
    e.set_form(Form::Ship);
    assert!(e.lantern);
}

#[test]
fn roster_hands_out_fresh_ids_and_moors_in_slots() {
    let mut r = Roster::new();
    let a = r.spawn("Alder", Form::Ship);
    let b = r.spawn("Brant", Form::Ship);
    let c = r.spawn("Leviathan", Form::Creature);
    assert_eq!((a, b, c), (1, 2, 3));
    assert_eq!(r.index_of(2), Some(1));
    assert_eq!(r.index_of(9), None);
    assert_eq!(r.secure(b), Some(0));
    assert_eq!(r.secure(a), Some(1));
    assert_eq!(r.count(Status::Secured), 2);
    assert_eq!(r.secure(42), None);
    // Losing a vessel only touches active ones: a moored ship stays moored.
    r.sink(0);
    assert_eq!(r.entities[0].status, Status::Secured);
    r.sink(2);
    assert_eq!(r.entities[2].status, Status::Sunk);
    assert_eq!(r.count(Status::Sunk), 1);
    assert_eq!(r.count(Status::Secured), 2);
    assert_ne!(Cause::Rock, Cause::Creature);
}

#[test]
fn mode_words() {
    assert_eq!(Mode::NightWatch.title(), "Night Watch");
    assert_eq!(Mode::MutableSea.title(), "Mutable Sea");
    assert_eq!(Mode::WorldWeaver.title(), "World Weaver");
    assert_eq!(Mode::SpiralVoyage.title(), "Spiral Voyage");
    assert_eq!(Mode::NightWatch.tagline(), "Paint safe passage. Remember what moves in the dark.");
    assert!(Mode::WorldWeaver.rules_summary().starts_with("World 1 is the sea the ship will sail"));
    assert_eq!(
        Mode::MutableSea.objective(),
        "Your light holds a form still; darkness changes it. Bring 2 of 3 home as ships."
    );
    assert_eq!(Mode::NightWatch.controls(), Mode::MutableSea.controls());
    assert_eq!(
        Mode::WorldWeaver.controls(),
        "A / D wind backward / forward    Space copy lit sector into World 1    Esc pause"
    );
    assert_eq!(Mode::menu(), [Mode::NightWatch, Mode::SpiralVoyage]);
    assert_eq!(Mode::all().len(), 4);
}

#[test]
fn menu_cursor_wraps_and_up_undoes_down() {
    assert_eq!(menu_selection(0, 2, true, false), 1);
    assert_eq!(menu_selection(1, 2, true, false), 0);
    assert_eq!(menu_selection(0, 2, false, true), 1);
    assert_eq!(menu_selection(1, 2, false, false), 1);
    let down = menu_selection(3, 5, true, false);
    assert_eq!(menu_selection(down, 5, false, true), 3);
    assert_eq!(menu_selection(4, 5, true, true), 4);
}

#[test]
fn only_world_weaver_lights_sectors() {
    assert_eq!(footprint_kind(Mode::WorldWeaver), FootprintKind::Sector);
    assert_eq!(footprint_kind(Mode::NightWatch), FootprintKind::Spot);
    assert_eq!(footprint_kind(Mode::MutableSea), FootprintKind::Spot);
    assert_eq!(footprint_kind(Mode::SpiralVoyage), FootprintKind::Spot);
}

#[test]
fn darkness_turns_an_active_identity_and_keeps_its_name() {
    let mut roster = Roster::new();
    roster.spawn("Kestrel", Form::Ship);
    roster.spawn("Osprey", Form::Creature);
    assert_eq!(
        roster.transform(0),
        Some(Event::Transformed { id: 1, from: Form::Ship, to: Form::Wreck })
    );
    assert_eq!(roster.entities[0].form, Form::Wreck);
    assert!(!roster.entities[0].lantern);
    assert_eq!(roster.entities[0].name, "Kestrel");
    assert_eq!(roster.entities[0].id, 1);
    assert_eq!(
        roster.transform(1),
        Some(Event::Transformed { id: 2, from: Form::Creature, to: Form::Island })
    );
    // Island turns back into a ship, lantern lit again.
    roster.transform(1);
    assert_eq!(roster.entities[1].form, Form::Ship);
    assert!(roster.entities[1].lantern);
}

#[test]
fn secured_identities_never_transform() {
    let mut roster = Roster::new();
    roster.spawn("Merlin", Form::Ship);
    roster.secure(1);
    assert_eq!(roster.transform(0), None);
    assert_eq!(roster.entities[0].form, Form::Ship);
    assert_eq!(roster.entities[0].status, Status::Secured);
}

#[test]
fn damage_leaves_a_wreck() {
    let mut roster = Roster::new();
    roster.spawn("Kestrel", Form::Ship);
    assert_eq!(roster.wreck(0, Cause::Creature), Some(Event::Wrecked { id: 1, cause: Cause::Creature }));
    assert_eq!(roster.entities[0].form, Form::Wreck);
    assert_eq!(roster.entities[0].status, Status::Active);
    assert!(!roster.entities[0].lantern);
}

#[test]
fn moored_and_lost_vessels_cannot_be_wrecked() {
    let mut roster = Roster::new();
    roster.spawn("Merlin", Form::Ship);
    roster.spawn("Kestrel", Form::Ship);
    roster.secure(1);
    assert_eq!(roster.lose(1, Cause::Rock), Some(Event::Sunk { id: 2, cause: Cause::Rock }));
    assert_eq!(roster.wreck(0, Cause::Creature), None);
    assert_eq!(roster.wreck(1, Cause::Rock), None);
    assert_eq!(roster.entities[0].form, Form::Ship);
    assert_eq!(roster.entities[0].status, Status::Secured);
    assert!(roster.entities[0].lantern);
    assert_eq!(roster.entities[1].form, Form::Ship);
    assert_eq!(roster.entities[1].status, Status::Sunk);
}

#[test]
fn a_rescued_vessel_stays_moored_through_every_roster_change() {
    let mut roster = Roster::new();
    roster.spawn("Merlin", Form::Ship);
    roster.spawn("Osprey", Form::Creature);
    assert_eq!(roster.secure(1), Some(0));
    let moored = roster.entities[0];
    assert_eq!(roster.lose(0, Cause::Creature), None);
    assert_eq!(roster.transform(0), None);
    assert_eq!(roster.wreck(0, Cause::Rock), None);
    roster.sink(0);
    let events = roster.transform_due(&vec![true, true]);
    assert_eq!(events, vec![Event::Transformed { id: 2, from: Form::Creature, to: Form::Island }]);
    roster.spawn("Kestrel", Form::Ship);
    assert_eq!(roster.secure(1), Some(1));
    let e = roster.entities[0];
    assert_eq!(e.id, moored.id);
    assert_eq!(e.form, moored.form);
    assert_eq!(e.status, Status::Secured);
    assert_eq!(e.lantern, moored.lantern);
    assert_eq!(roster.count(Status::Secured), 1);
}

/// Sentence breaks: a full stop followed by a space and a capital letter.
fn sentence_breaks(s: &str) -> usize {
    let c: Vec<char> = s.chars().collect();
    c.windows(3).filter(|w| w[0] == '.' && w[1] == ' ' && w[2].is_ascii_uppercase()).count()
}

#[test]
fn every_rule_summary_is_two_sentences() {
    for m in Mode::all() {
        let s = m.rules_summary();
        assert!(s.ends_with('.'), "{s}");
        assert_eq!(sentence_breaks(s), 1, "{s}");
    }
}
