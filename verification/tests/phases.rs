use first_light::mode::Mode;
use first_light::entity::Status;
use first_light::session::{
    advance, beam_active, entity_sight, navigate, sight_at, skip_to_dawn, Keys, Phase, Screen, Sight, Skip, Transition,
};

/// Runs a session whose every clock and voyage runs out, returning the transitions it made.
fn hurry(mode: Mode) -> Vec<(Phase, Transition)> {
    let mut phase = Phase::Intro;
    let mut seen = Vec::new();
    for _ in 0..8 {
        let (next, t) = advance(mode, phase, true, true);
        if t != Transition::Stay {
            seen.push((next, t));
        }
        phase = next;
    }
    seen
}

#[test]
fn dusk_night_dawn_then_result() {
    assert_eq!(
        hurry(Mode::NightWatch),
        vec![
            (Phase::Night, Transition::NightBegins),
            (Phase::Dawn, Transition::Dawn),
            (Phase::Finished, Transition::Finish),
        ]
    );
    assert_eq!(hurry(Mode::MutableSea), hurry(Mode::NightWatch));
    assert_eq!(hurry(Mode::SpiralVoyage), hurry(Mode::NightWatch));
}

#[test]
fn world_weaver_builds_at_dawn_and_plays_out() {
    assert_eq!(
        hurry(Mode::WorldWeaver),
        vec![
            (Phase::Night, Transition::NightBegins),
            (Phase::Dawn, Transition::DawnBuild),
            (Phase::Playback, Transition::BeginPlayback),
            (Phase::Finished, Transition::Finish),
        ]
    );
    // Playback lasts until the voyage reports its end.
    assert_eq!(advance(Mode::WorldWeaver, Phase::Playback, true, false), (Phase::Playback, Transition::Stay));
}

#[test]
fn timers_that_have_not_run_out_hold_the_phase() {
    for mode in [Mode::NightWatch, Mode::MutableSea, Mode::WorldWeaver, Mode::SpiralVoyage] {
        for phase in [Phase::Intro, Phase::Night, Phase::Dawn] {
            assert_eq!(advance(mode, phase, false, false), (phase, Transition::Stay));
        }
        assert_eq!(advance(mode, Phase::Finished, true, true), (Phase::Finished, Transition::Stay));
    }
}

#[test]
fn spiral_night_ends_with_the_voyage_not_the_clock() {
    assert_eq!(advance(Mode::SpiralVoyage, Phase::Night, true, false), (Phase::Night, Transition::Stay));
    assert_eq!(advance(Mode::SpiralVoyage, Phase::Night, false, true), (Phase::Dawn, Transition::Dawn));
    // A night with a deadline ignores the voyage flag.
    assert_eq!(advance(Mode::NightWatch, Phase::Night, false, true), (Phase::Night, Transition::Stay));
}

#[test]
fn skip_to_dawn_only_at_night() {
    assert_eq!(skip_to_dawn(Mode::NightWatch, Phase::Intro), (Phase::Intro, Skip::Ignore));
    assert_eq!(skip_to_dawn(Mode::NightWatch, Phase::Night), (Phase::Night, Skip::ExpireNight));
    assert_eq!(skip_to_dawn(Mode::WorldWeaver, Phase::Night), (Phase::Night, Skip::ExpireNight));
    assert_eq!(skip_to_dawn(Mode::SpiralVoyage, Phase::Night), (Phase::Dawn, Skip::DawnNow));
    assert_eq!(skip_to_dawn(Mode::SpiralVoyage, Phase::Dawn), (Phase::Dawn, Skip::Ignore));
}

#[test]
fn beam_lights_the_water_at_dusk_and_night_only() {
    assert!(beam_active(Phase::Intro));
    assert!(beam_active(Phase::Night));
    assert!(!beam_active(Phase::Dawn));
    assert!(!beam_active(Phase::Playback));
    assert!(!beam_active(Phase::Finished));
}

const NONE: Keys = Keys { up: false, down: false, enter: false, space: false, escape: false, retry: false, menu: false };

#[test]
fn menu_moves_the_cursor_and_starts_the_entry_under_it() {
    let menu = Mode::menu();
    let down = Keys { down: true, ..NONE };
    assert_eq!(navigate(Screen::Menu, 0, &menu, Mode::NightWatch, false, down), (Screen::Menu, 1, None));
    assert_eq!(navigate(Screen::Menu, 1, &menu, Mode::NightWatch, false, down), (Screen::Menu, 0, None));
    let up = Keys { up: true, ..NONE };
    assert_eq!(navigate(Screen::Menu, 0, &menu, Mode::NightWatch, false, up), (Screen::Menu, 1, None));
    let go = Keys { down: true, space: true, ..NONE };
    assert_eq!(
        navigate(Screen::Menu, 0, &menu, Mode::NightWatch, false, go),
        (Screen::Playing, 1, Some(Mode::SpiralVoyage))
    );
}

#[test]
fn pause_resume_retry_and_results() {
    let menu = Mode::menu();
    let esc = Keys { escape: true, ..NONE };
    let retry = Keys { retry: true, ..NONE };
    let back = Keys { menu: true, ..NONE };
    let enter = Keys { enter: true, ..NONE };
    let m = Mode::SpiralVoyage;
    assert_eq!(navigate(Screen::Playing, 1, &menu, m, false, NONE), (Screen::Playing, 1, None));
    assert_eq!(navigate(Screen::Playing, 1, &menu, m, false, esc), (Screen::Paused, 1, None));
    assert_eq!(navigate(Screen::Playing, 1, &menu, m, true, NONE), (Screen::Result, 1, None));
    assert_eq!(navigate(Screen::Paused, 1, &menu, m, false, esc), (Screen::Playing, 1, None));
    assert_eq!(navigate(Screen::Paused, 1, &menu, m, false, retry), (Screen::Playing, 1, Some(m)));
    assert_eq!(navigate(Screen::Paused, 1, &menu, m, false, back), (Screen::Menu, 1, None));
    assert_eq!(navigate(Screen::Result, 1, &menu, m, true, enter), (Screen::Playing, 1, Some(m)));
    assert_eq!(navigate(Screen::Result, 1, &menu, m, true, esc), (Screen::Menu, 1, None));
    assert_eq!(navigate(Screen::Result, 1, &menu, m, true, NONE), (Screen::Result, 1, None));
}

#[test]
fn autoplay_names_in_any_case() {
    assert_eq!(Mode::from_name("nightwatch"), Some(Mode::NightWatch));
    assert_eq!(Mode::from_name("NW"), Some(Mode::NightWatch));
    assert_eq!(Mode::from_name("MutableSea"), Some(Mode::MutableSea));
    assert_eq!(Mode::from_name("ww"), Some(Mode::WorldWeaver));
    assert_eq!(Mode::from_name("SpiralVoyage"), Some(Mode::SpiralVoyage));
    assert_eq!(Mode::from_name("sV"), Some(Mode::SpiralVoyage));
    assert_eq!(Mode::from_name("spiral"), None);
    assert_eq!(Mode::from_name(""), None);
    assert_eq!(Mode::from_name("night watch"), None);
}

#[test]
fn what_the_presentation_may_show() {
    assert_eq!(sight_at(Phase::Intro), Sight::Lit);
    assert_eq!(sight_at(Phase::Night), Sight::ByLight);
    assert_eq!(sight_at(Phase::Finished), Sight::Lit);
    assert_eq!(entity_sight(Status::Secured, Phase::Night, false), Sight::Lit);
    assert_eq!(entity_sight(Status::Sunk, Phase::Dawn, true), Sight::Hidden);
    assert_eq!(entity_sight(Status::Active, Phase::Night, false), Sight::Hidden);
    assert_eq!(entity_sight(Status::Active, Phase::Night, true), Sight::ByLight);
    assert_eq!(entity_sight(Status::Active, Phase::Dawn, false), Sight::Lit);
}
