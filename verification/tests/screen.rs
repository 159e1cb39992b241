use first_light::audio::{cue_for, Cue, Sound};
use first_light::entity::{Cause, Entity, Form, Roster};
use first_light::event::Event;
use first_light::hud::{
    hint_text, label_text, phase_text, result_title, score_text, toast_text, world_text,
};
use first_light::mode::Mode;
use first_light::rules::Rules;
use first_light::session::Phase;
use first_light::settings::{Hotkeys, Settings};

fn harbor_roster() -> Roster {
    let mut roster = Roster::new();
    roster.spawn("Alder", Form::Ship);
    roster.spawn("Brant", Form::Ship);
    roster.spawn("Cormorant", Form::Ship);
    roster
}

#[test]
fn toasts_name_the_vessel_or_a_stranger() {
    let roster = harbor_roster();
    assert_eq!(toast_text(Event::Rescued { id: 1 }, &roster, 0).unwrap(), "Alder made harbor.");
    assert_eq!(
        toast_text(Event::Sunk { id: 2, cause: Cause::Rock }, &roster, 0).unwrap(),
        "Brant struck the rocks."
    );
    assert_eq!(
        toast_text(Event::Sunk { id: 3, cause: Cause::Creature }, &roster, 0).unwrap(),
        "Cormorant was taken."
    );
    assert_eq!(
        toast_text(Event::Wrecked { id: 9, cause: Cause::Rock }, &roster, 0).unwrap(),
        "A vessel is wrecked."
    );
}

#[test]
fn transformation_toast_warns_of_the_next_form() {
    let roster = harbor_roster();
    let e = Event::Transformed { id: 1, from: Form::Ship, to: Form::Wreck };
    assert_eq!(
        toast_text(e, &roster, 20).unwrap(),
        "Alder became a wreck. Left dark, it becomes a creature in 20 s."
    );
    let e = Event::Transformed { id: 2, from: Form::Wreck, to: Form::Creature };
    assert_eq!(
        toast_text(e, &roster, 9).unwrap(),
        "Brant became a creature. Left dark, it becomes an island in 9 s."
    );
}

#[test]
fn weaver_and_voyage_toasts_count_from_one() {
    let roster = Roster::new();
    assert_eq!(
        toast_text(Event::Captured { sector: 3, layer: 1 }, &roster, 0).unwrap(),
        "Sector 4 copied from World 2 into World 1."
    );
    assert_eq!(toast_text(Event::LayerChanged { layer: 2 }, &roster, 0).unwrap(), "Inspecting World 3");
    assert_eq!(
        toast_text(Event::ShipCrossed { world: 1 }, &roster, 0).unwrap(),
        "The Wayfarer crossed into World 2."
    );
    assert_eq!(toast_text(Event::AssembledWorld, &roster, 0).unwrap(), "Assembled world.");
    assert_eq!(toast_text(Event::NoPassage, &roster, 0).unwrap(), "No passage to harbor.");
    assert_eq!(
        toast_text(Event::VoyageBegins, &roster, 0).unwrap(),
        "The ship enters from the shipping lane."
    );
    assert_eq!(
        toast_text(Event::CreatureAppears { id: 4, wind: 4 }, &roster, 0).unwrap(),
        "Something stirs in the southern dark. It follows the brightest light it can see."
    );
}

#[test]
fn quiet_events_show_no_toast() {
    let roster = harbor_roster();
    for e in [Event::Ignite, Event::NightBegins, Event::Dawn, Event::Bell, Event::CreatureCall, Event::SessionEnded] {
        assert!(toast_text(e, &roster, 0).is_none());
    }
}

#[test]
fn event_sounds() {
    assert_eq!(cue_for(Event::Ignite), Some(Sound { cue: Cue::Ignite, positioned: false, volume_percent: 90 }));
    assert_eq!(
        cue_for(Event::ShipArrived { id: 1 }),
        Some(Sound { cue: Cue::Bell, positioned: true, volume_percent: 35 })
    );
    assert_eq!(
        cue_for(Event::Sunk { id: 1, cause: Cause::Rock }),
        Some(Sound { cue: Cue::Splash, positioned: true, volume_percent: 85 })
    );
    assert_eq!(
        cue_for(Event::Captured { sector: 0, layer: 1 }),
        Some(Sound { cue: Cue::Capture, positioned: false, volume_percent: 55 })
    );
    assert_eq!(cue_for(Event::VoyageArrived).map(|p| p.cue), Some(Cue::Rescue));
    assert_eq!(cue_for(Event::NightBegins), None);
    assert_eq!(cue_for(Event::SessionEnded), None);
}

#[test]
fn clock_line_per_phase() {
    assert_eq!(phase_text(Mode::NightWatch, Phase::Intro, 0, 0), "Dusk. The beacon is lit.");
    assert_eq!(phase_text(Mode::NightWatch, Phase::Night, 125, 0), "Night remaining  2:05");
    assert_eq!(phase_text(Mode::MutableSea, Phase::Night, 59, 0), "Night remaining  0:59");
    assert_eq!(phase_text(Mode::SpiralVoyage, Phase::Night, 0, 0), "The voyage is under way.");
    assert_eq!(phase_text(Mode::NightWatch, Phase::Dawn, 0, 0), "First light.");
    assert_eq!(phase_text(Mode::WorldWeaver, Phase::Playback, 0, 7), "The ship sails  07s");
    assert_eq!(phase_text(Mode::WorldWeaver, Phase::Playback, 0, 31), "The ship sails  31s");
    assert_eq!(phase_text(Mode::NightWatch, Phase::Finished, 0, 0), "");
}

#[test]
fn score_line_per_variant() {
    let mut roster = harbor_roster();
    roster.secure(1);
    roster.secure(3);
    roster.sink(1);
    assert_eq!(score_text(&Rules::for_mode(Mode::NightWatch, 4), &roster), "Rescued 2 / 5    Lost 1");
    assert_eq!(score_text(&Rules::for_mode(Mode::MutableSea, 4), &roster), "Secured 2 / 3  (need 2)");
    assert_eq!(
        score_text(&Rules::for_mode(Mode::WorldWeaver, 4), &roster),
        "Sectors copied into World 1: 0 / 12"
    );
    assert_eq!(score_text(&Rules::for_mode(Mode::SpiralVoyage, 4), &roster), "Harbor: World 4");
}

#[test]
fn world_line_follows_the_inspected_world() {
    let mut rules = Rules::for_mode(Mode::WorldWeaver, 4);
    assert_eq!(world_text(&rules, Phase::Night, 0, 6), "Inspecting World 1 (I)    Sector 7  (assembled, baseline)");
    assert_eq!(world_text(&rules, Phase::Night, 2, 6), "Inspecting World 3 (III)    Sector 7  (sector unedited)");
    assert_eq!(world_text(&rules, Phase::Dawn, 2, 6), "");
    if let Rules::WorldWeaver(ww) = &mut rules {
        ww.step_night(1, 3, true);
    }
    assert_eq!(world_text(&rules, Phase::Night, 1, 3), "Inspecting World 2 (II)    Sector 4  (sector edited in World 1)");
    assert_eq!(world_text(&rules, Phase::Night, 0, 3), "Inspecting World 1 (I)    Sector 4  (assembled, edited)");
    let spiral = Rules::for_mode(Mode::SpiralVoyage, 4);
    assert_eq!(world_text(&spiral, Phase::Intro, 0, 0), "World 1 of 4");
    assert_eq!(world_text(&spiral, Phase::Finished, 0, 0), "");
    assert_eq!(world_text(&Rules::for_mode(Mode::NightWatch, 4), Phase::Night, 0, 0), "");
}

#[test]
fn hint_line_and_result_title() {
    assert_eq!(hint_text(Mode::WorldWeaver, Phase::Night), Mode::WorldWeaver.controls());
    assert_eq!(hint_text(Mode::NightWatch, Phase::Dawn), "First light. The sea is revealed.");
    assert_eq!(
        hint_text(Mode::WorldWeaver, Phase::Playback),
        "The ship follows the passage it found through your sea.    Esc pause"
    );
    assert_eq!(hint_text(Mode::NightWatch, Phase::Finished), "");
    assert_eq!(result_title(Mode::NightWatch, true), "Night Watch: success");
    assert_eq!(result_title(Mode::SpiralVoyage, false), "Spiral Voyage: not this night");
}

#[test]
fn labels_say_what_holds_a_form() {
    let e = Entity::new(1, "Kestrel", Form::Ship);
    assert_eq!(label_text(&e, Mode::NightWatch, Phase::Night, true, true), "Kestrel  ship");
    assert_eq!(label_text(&e, Mode::MutableSea, Phase::Night, true, true), "Kestrel  ship  held by light");
    assert_eq!(label_text(&e, Mode::MutableSea, Phase::Night, false, true), "Kestrel  ship  changing");
    assert_eq!(label_text(&e, Mode::MutableSea, Phase::Dawn, false, true), "Kestrel  ship");
    let island = Entity::new(2, "Osprey", Form::Island);
    assert_eq!(label_text(&island, Mode::MutableSea, Phase::Night, false, false), "Osprey  island");
}

#[test]
fn settings_keys_and_pause_panel() {
    let none = Hotkeys {
        skip_to_dawn: false,
        brighter: false,
        dimmer: false,
        debug_overlay: false,
        constant_speed_rotation: false,
        autopilot: false,
        heading_lines: false,
    };
    let mut s = Settings::default();
    assert!(s.heading_lines && !s.autopilot);
    assert_eq!(
        s.pause_text(),
        "[ ]  brightness +0.0 stops\nF4   constant-speed rotation: off\nF3   debug overlay: off\nF6   skip to dawn    F9   autopilot: off"
    );
    // Brightness climbs half a stop at a time and stops at three.
    for _ in 0..10 {
        s.apply(Hotkeys { brighter: true, ..none });
    }
    assert_eq!(s.brightness_half_stops, 6);
    // ... and falls to minus one.
    for _ in 0..20 {
        s.apply(Hotkeys { dimmer: true, ..none });
    }
    assert_eq!(s.brightness_half_stops, -2);
    assert!(s.apply(Hotkeys { skip_to_dawn: true, autopilot: true, debug_overlay: true, ..none }));
    assert!(s.autopilot && s.debug_overlay);
    s.apply(Hotkeys { brighter: true, heading_lines: true, constant_speed_rotation: true, ..none });
    assert!(!s.heading_lines && s.constant_speed_rotation);
    assert_eq!(
        s.pause_text(),
        "[ ]  brightness -0.5 stops\nF4   constant-speed rotation: on\nF3   debug overlay: on\nF6   skip to dawn    F9   autopilot: on"
    );
    // The panel writes stops as `{:+.1}` does.
    for h in -2..=6 {
        s.brightness_half_stops = h;
        let stops = format!("{:+.1}", h as f32 * 0.5);
        assert!(s.pause_text().starts_with(&format!("[ ]  brightness {stops} stops\n")));
    }
}
