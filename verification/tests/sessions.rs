use first_light::entity::{Cause, Form, Roster, Status};
use first_light::event::Event;
use first_light::mode::Mode;
use first_light::rules::{MutableSea, NightWatch, Rules, Seam, SpiralVoyage, VoyageEnd};

#[test]
fn night_watch_releases_due_vessels_up_to_the_cap() {
    let mut nw = NightWatch::scenario();
    let mut roster = Roster::new();
    // Dusk: the first two are due immediately.
    let first = nw.spawn_due(&mut roster, 2, 3);
    assert_eq!(first, vec![(1, 0), (2, 1)]);
    assert_eq!(roster.entities[0].name, "Alder");
    assert_eq!(roster.entities[1].name, "Brant");
    // Nothing more is due yet.
    assert!(nw.spawn_due(&mut roster, 2, 3).is_empty());
    // Everything is due, but only one more fits under the cap of three active ships.
    let more = nw.spawn_due(&mut roster, 5, 3);
    assert_eq!(more, vec![(3, 2)]);
    assert_eq!(roster.entities[2].name, "Cormorant");
    assert!(nw.spawn_due(&mut roster, 5, 3).is_empty());
    // A rescue frees a slot for the next arrival, in schedule order.
    roster.secure(1);
    assert_eq!(nw.spawn_due(&mut roster, 5, 3), vec![(4, 3)]);
    assert_eq!(roster.entities[3].name, "Dunlin");
    assert_eq!(nw.next_arrival, 4);
    let active = roster.entities.iter().filter(|e| e.is_active_ship()).count();
    assert!(active <= 3);
}

#[test]
fn night_watch_unguided_night_rescues_nobody() {
    let mut nw = NightWatch::scenario();
    let mut roster = Roster::new();
    nw.spawn_due(&mut roster, 2, 3);
    let o = nw.outcome(&roster);
    assert_eq!(o.rescued, 0);
    assert!(!o.success);
    assert_eq!(o.total, 5);
    assert_eq!(o.headline, "The night ends. Too few made it home.");
    assert_eq!(
        o.details,
        vec![
            "0 of 5 vessels rescued.".to_string(),
            "5 still offshore at first light.".to_string(),
            "Alder: still at sea".to_string(),
            "Brant: still at sea".to_string(),
        ]
    );
}

#[test]
fn night_watch_outcome_counts_rescues_losses_and_offshore() {
    let mut nw = NightWatch::scenario();
    let mut roster = Roster::new();
    nw.spawn_due(&mut roster, 5, 5);
    let creature = roster.spawn("Leviathan", Form::Creature);
    roster.secure(1);
    roster.secure(2);
    roster.secure(3);
    roster.sink(3);
    let o = nw.outcome(&roster);
    assert!(o.success);
    assert_eq!(o.rescued, 3);
    assert_eq!(o.headline, "The night ends. The harbor is fuller than it was.");
    assert_eq!(o.details[0], "3 of 5 vessels rescued.");
    assert_eq!(o.details[1], "1 lost to rocks or the predator.");
    assert_eq!(o.details[2], "1 still offshore at first light.");
    assert_eq!(o.details[3], "Alder: moored in harbor");
    assert_eq!(o.details[6], "Dunlin: lost");
    assert_eq!(o.details[7], "Eider: still at sea");
    // The creature is not a vessel.
    assert_eq!(o.details.len(), 8);
    assert_eq!(roster.entities[5].id, creature);
}

#[test]
fn mutable_sea_outcome_names_what_each_became() {
    let ms = MutableSea::scenario();
    let mut roster = Roster::new();
    let ids = ms.populate(&mut roster);
    assert_eq!(ids, vec![1, 2, 3]);
    assert_eq!(roster.entities[2].form, Form::Creature);
    roster.secure(ids[0]);
    roster.entities[1].set_form(Form::Wreck);
    roster.entities[2].set_form(Form::Island);
    let o = ms.outcome(&roster);
    assert!(!o.success);
    assert_eq!(o.rescued, 1);
    assert_eq!(o.total, 3);
    assert_eq!(o.headline, "First light fixes the sea. What remained offshore stays as it is.");
    assert_eq!(
        o.details,
        vec![
            "1 of 3 identities secured as ships.".to_string(),
            "Kestrel: moored in harbor".to_string(),
            "Merlin: fixed at dawn as a wreck".to_string(),
            "Osprey: fixed at dawn as an island".to_string(),
        ]
    );
    roster.secure(ids[2]);
    let o = ms.outcome(&roster);
    assert!(o.success);
    assert_eq!(o.headline, "First light fixes the sea. Enough came home as themselves.");
}

#[test]
fn spiral_outcome_reports_the_world_reached() {
    let mut sv = SpiralVoyage::scenario(4);
    let mut roster = Roster::new();
    let id = roster.spawn("Wayfarer", Form::Ship);
    sv.ship = Some(id);
    sv.ship_world = 2;
    assert_eq!(sv.ship_world(&roster), Some(2));
    sv.end = Some(VoyageEnd::Grounded(1));
    roster.sink(0);
    let o = sv.outcome(&roster);
    assert!(!o.success);
    assert_eq!(o.headline, "The Wayfarer struck the north-eastern rocks in World 3.");
    assert_eq!(o.details, vec!["Reached World 3 of 4.".to_string()]);
    sv.ship_world = 3;
    sv.end = Some(VoyageEnd::Arrived);
    let o = sv.outcome(&roster);
    assert!(o.success);
    assert_eq!(o.rescued, 1);
    assert_eq!(o.headline, "The Wayfarer came through all four worlds to harbor.");
    let lost = SpiralVoyage::scenario(4);
    assert_eq!(lost.outcome(&Roster::new()).details, vec!["Reached World 1 of 4.".to_string()]);
    assert_eq!(lost.outcome(&Roster::new()).headline, "The voyage did not resolve.");
}

#[test]
fn modes_start_fresh_and_carry_no_state() {
    for mode in Mode::all() {
        let a = Rules::for_mode(mode, 4);
        // Play the rules hard: release everyone, capture everywhere, send the ship round.
        let mut b = Rules::for_mode(mode, 4);
        let mut roster = Roster::new();
        match &mut b {
            Rules::NightWatch(nw) => {
                nw.spawn_due(&mut roster, 5, 5);
                nw.wake_creature(&mut roster, true, 0);
            }
            Rules::MutableSea(ms) => {
                ms.populate(&mut roster);
            }
            Rules::WorldWeaver(ww) => {
                for sector in 0..12 {
                    ww.step_night(1 + (sector % 3) as u8, sector, true);
                }
                ww.freeze();
            }
            Rules::SpiralVoyage(sv) => {
                sv.populate(&mut roster);
                sv.settle(&mut roster, 0, Seam::Onward, false, None);
            }
        }
        let c = Rules::for_mode(mode, 4);
        match (&a, &c) {
            (Rules::NightWatch(x), Rules::NightWatch(y)) => {
                assert_eq!(y.next_arrival, 0);
                assert_eq!(y.creature_id, None);
                assert_eq!(x.schedule, y.schedule);
            }
            (Rules::MutableSea(x), Rules::MutableSea(y)) => {
                assert_eq!(x.identities.len(), y.identities.len());
                assert_eq!(y.target_rescues, 2);
            }
            (Rules::WorldWeaver(x), Rules::WorldWeaver(y)) => {
                assert_eq!(x.assembled, y.assembled);
                assert_eq!(y.assembled, y.worlds[0]);
                assert!(y.edited.iter().all(|e| !e));
                assert!(y.built.is_none());
            }
            (Rules::SpiralVoyage(x), Rules::SpiralVoyage(y)) => {
                assert_eq!(x.worlds, 4);
                assert_eq!(y.ship, None);
                assert_eq!(y.ship_world, 0);
                assert_eq!(y.end, None);
            }
            _ => panic!("mode produced the wrong rules"),
        }
    }
    assert_eq!(Rules::for_mode(Mode::WorldWeaver, 4).inspected_world(2), 2);
    assert_eq!(Rules::for_mode(Mode::NightWatch, 4).inspected_world(2), 0);
}

#[test]
fn night_watch_arrivals_overlap_and_creature_appears() {
    // Arrival times in seconds of night, the predator waking at 50 s; nobody is guided home.
    let arrivals = [0.0f32, 0.0, 45.0, 80.0, 108.0];
    let mut nw = NightWatch::scenario();
    let mut roster = Roster::new();
    let mut max_active = 0;
    let mut creature_seen = false;
    for step in 0..(180 * 60) {
        let night_time = step as f32 / 60.0;
        let due = arrivals.iter().filter(|&&t| t <= night_time).count();
        nw.spawn_due(&mut roster, due, 3);
        if let Some(Event::CreatureAppears { .. }) = nw.wake_creature(&mut roster, night_time >= 50.0, 6) {
            creature_seen = true;
        }
        let active = roster.entities.iter().filter(|e| e.is_active_ship()).count();
        max_active = max_active.max(active);
    }
    assert!(max_active >= 2, "arrivals never overlapped");
    assert!(max_active <= 3);
    assert!(creature_seen);
}

#[test]
fn mutable_sea_darkness_cycles_forms_and_preserves_identity() {
    let ms = MutableSea::scenario();
    let mut roster = Roster::new();
    let ids = ms.populate(&mut roster);
    let osprey = roster.entities.iter().position(|e| e.name == "Osprey").unwrap();
    let mut forms = Vec::new();
    for _ in 0..2 {
        if let Some(Event::Transformed { id, from, to }) = roster.transform(osprey) {
            assert_eq!(id, ids[2]);
            forms.push((from, to));
        }
    }
    assert_eq!(forms, vec![(Form::Creature, Form::Island), (Form::Island, Form::Ship)]);
    assert_eq!(roster.entities[osprey].name, "Osprey");
    assert_eq!(roster.entities[osprey].form, Form::Ship);
}

#[test]
fn mutable_sea_secured_identities_never_transform() {
    let ms = MutableSea::scenario();
    let mut roster = Roster::new();
    let ids = ms.populate(&mut roster);
    roster.secure(ids[0]);
    roster.secure(ids[1]);
    for _ in 0..8 {
        for k in 0..roster.entities.len() {
            roster.transform(k);
        }
    }
    for k in 0..2 {
        assert_eq!(roster.entities[k].form, Form::Ship);
        assert_eq!(roster.entities[k].status, Status::Secured);
    }
    assert_eq!(ms.outcome(&roster).rescued, 2);
}

#[test]
fn the_predator_surfaces_once() {
    let mut nw = NightWatch::scenario();
    let mut roster = Roster::new();
    nw.spawn_due(&mut roster, 2, 3);
    assert_eq!(nw.wake_creature(&mut roster, false, 3), None);
    assert_eq!(nw.wake_creature(&mut roster, true, 3), Some(Event::CreatureAppears { id: 3, wind: 3 }));
    assert_eq!(roster.entities[2].name, "Leviathan");
    assert_eq!(roster.entities[2].form, Form::Creature);
    assert_eq!(nw.creature_id, Some(3));
    assert_eq!(nw.wake_creature(&mut roster, true, 5), None);
    assert_eq!(roster.entities.len(), 3);
}

#[test]
fn a_lost_ship_is_lost_once() {
    let mut roster = Roster::new();
    roster.spawn("Alder", Form::Ship);
    assert_eq!(roster.lose(0, Cause::Creature), Some(Event::Sunk { id: 1, cause: Cause::Creature }));
    assert_eq!(roster.entities[0].status, Status::Sunk);
    assert_eq!(roster.lose(0, Cause::Rock), None);
}

#[test]
fn the_wayfarer_crosses_one_world_at_a_time_and_arrives_only_in_the_last() {
    let mut sv = SpiralVoyage::scenario(4);
    let mut roster = Roster::new();
    let id = sv.populate(&mut roster);
    assert_eq!(roster.entities[0].name, "Wayfarer");
    let k = sv.follow(&roster).unwrap();
    // The harbor of World 1 is not the destination.
    assert_eq!(sv.settle(&mut roster, k, Seam::Held, true, None), (false, vec![]));
    // No world before the first.
    assert_eq!(sv.settle(&mut roster, k, Seam::Back, false, None), (false, vec![]));
    for world in 1..4u8 {
        assert_eq!(sv.settle(&mut roster, k, Seam::Onward, false, None), (false, vec![Event::ShipCrossed { world }]));
    }
    assert_eq!(sv.ship_world, 3);
    // No world past the last.
    assert_eq!(sv.settle(&mut roster, k, Seam::Onward, false, None), (false, vec![]));
    assert_eq!(sv.settle(&mut roster, k, Seam::Back, false, None), (false, vec![Event::ShipCrossed { world: 2 }]));
    assert_eq!(
        sv.settle(&mut roster, k, Seam::Onward, true, None),
        (true, vec![Event::ShipCrossed { world: 3 }, Event::VoyageArrived])
    );
    assert_eq!(sv.end, Some(VoyageEnd::Arrived));
    assert_eq!(roster.entities[0].status, Status::Secured);
    assert_eq!(sv.ship, Some(id));
    // A moored ship sails no more.
    assert_eq!(sv.follow(&roster), None);
    assert!(sv.outcome(&roster).success);
}

#[test]
fn a_grounded_wayfarer_ends_the_voyage() {
    let mut sv = SpiralVoyage::scenario(4);
    let mut roster = Roster::new();
    roster.spawn("Buoy", Form::Island);
    roster.spawn("Wayfarer", Form::Ship);
    // Without an assigned ship the voyage follows the first ship on the roster.
    assert_eq!(sv.follow(&roster), Some(1));
    assert_eq!(sv.ship, Some(2));
    assert_eq!(sv.settle(&mut roster, 1, Seam::Onward, false, Some(6)), (true, vec![
        Event::ShipCrossed { world: 1 },
        Event::Sunk { id: 2, cause: Cause::Rock },
    ]));
    assert_eq!(roster.entities[1].status, Status::Sunk);
    assert_eq!(sv.end, Some(VoyageEnd::Grounded(6)));
    assert_eq!(sv.outcome(&roster).headline, "The Wayfarer struck the western rocks in World 2.");
    let mut empty = SpiralVoyage::scenario(4);
    assert_eq!(empty.follow(&Roster::new()), None);
    assert_eq!(empty.ship, None);
}

#[test]
fn darkness_changes_only_what_is_due_and_still_at_sea() {
    let ms = MutableSea::scenario();
    let mut roster = Roster::new();
    let ids = ms.populate(&mut roster);
    roster.secure(ids[0]);
    // Everyone's time is up, but Kestrel is moored.
    let events = roster.transform_due(&vec![true, true, true]);
    assert_eq!(
        events,
        vec![
            Event::Transformed { id: ids[1], from: Form::Ship, to: Form::Wreck },
            Event::Transformed { id: ids[2], from: Form::Creature, to: Form::Island },
        ]
    );
    assert_eq!(roster.entities[0].form, Form::Ship);
    assert_eq!(roster.entities[0].status, Status::Secured);
    // Only Osprey is due now.
    assert_eq!(
        roster.transform_due(&vec![false, false, true]),
        vec![Event::Transformed { id: ids[2], from: Form::Island, to: Form::Ship }]
    );
    assert_eq!(roster.entities[1].form, Form::Wreck);
}

#[test]
fn night_watch_outcome_counts_no_negative_stragglers() {
    let mut nw = NightWatch::scenario();
    nw.next_arrival = 9;
    let o = nw.outcome(&Roster::new());
    assert_eq!(o.details, vec!["0 of 5 vessels rescued.".to_string()]);
}

#[test]
fn every_mode_starts_from_its_authored_scenario() {
    match Rules::for_mode(Mode::NightWatch, 4) {
        Rules::NightWatch(nw) => {
            assert_eq!(nw.schedule, vec!["Alder", "Brant", "Cormorant", "Dunlin", "Eider"]);
            assert_eq!(nw.next_arrival, 0);
            assert_eq!(nw.creature_id, None);
            assert_eq!(nw.target_rescues, 3);
        }
        _ => panic!("Night Watch expected"),
    }
    match Rules::for_mode(Mode::MutableSea, 4) {
        Rules::MutableSea(ms) => {
            let names: Vec<(&str, Form)> = ms.identities.iter().map(|i| (i.name, i.form)).collect();
            assert_eq!(names, vec![("Kestrel", Form::Ship), ("Merlin", Form::Ship), ("Osprey", Form::Creature)]);
            assert_eq!(ms.target_rescues, 2);
        }
        _ => panic!("Mutable Sea expected"),
    }
    match Rules::for_mode(Mode::WorldWeaver, 4) {
        Rules::WorldWeaver(ww) => {
            let authored = first_light::weaver::WorldWeaver::scenario();
            assert_eq!(ww.worlds, authored.worlds);
            assert_eq!(ww.assembled, authored.worlds[0]);
            assert!(ww.edited.iter().all(|e| !e));
            assert!(ww.built.is_none());
            assert!(ww.worlds[0][7].outer_gap);
            assert!(ww.worlds[0][3].wall && ww.worlds[0][10].wall);
        }
        _ => panic!("World Weaver expected"),
    }
    match Rules::for_mode(Mode::SpiralVoyage, 4) {
        Rules::SpiralVoyage(sv) => {
            assert_eq!(sv.worlds, 4);
            assert_eq!(sv.ship, None);
            assert_eq!(sv.ship_world, 0);
            assert_eq!(sv.end, None);
        }
        _ => panic!("Spiral Voyage expected"),
    }
}
