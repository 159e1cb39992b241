//! The session controller: introduction at dusk, the night, dawn, World Weaver's playback and the
//! result. The presentation keeps the clocks and reports, once per fixed step, whether the running
//! phase's clock has run out and whether a voyage has ended; this module decides what happens.

use vstd::prelude::*;
use crate::entity::Status;
use crate::mode::{menu_cursor, menu_selection, Mode};

verus! {

/// Where a session stands. The clocks of the timed phases are kept by the caller.
#[derive(Clone, Copy, Debug, PartialEq, Eq, Structural)]
pub enum Phase {
    /// Dusk: the keeper aims freely while the light fades; nothing moves yet.
    Intro,
    Night,
    /// Sunrise: the sea is revealed and the rules stop.
    Dawn,
    /// World Weaver only: the assembled world plays out.
    Playback,
    Finished,
}

/// What a step changed, and so what the caller must do besides switching phase.
#[derive(Clone, Copy, Debug, PartialEq, Eq, Structural)]
pub enum Transition {
    /// Nothing changes.
    Stay,
    /// Announce the night.
    NightBegins,
    /// Announce dawn.
    Dawn,
    /// Announce dawn and build World Weaver's assembled world from the captures.
    DawnBuild,
    /// Start World Weaver's voyage through the assembled world.
    BeginPlayback,
    /// Compute the outcome and announce the end of the session.
    Finish,
}

/// What the developer shortcut to dawn does.
#[derive(Clone, Copy, Debug, PartialEq, Eq, Structural)]
pub enum Skip {
    /// Not at night: nothing happens.
    Ignore,
    /// Run the night clock out, so the next step ends the night as its deadline would.
    ExpireNight,
    /// No deadline to run out: go to dawn now and announce it.
    DawnNow,
}

/// Order of the phases in a session.
pub open spec fn rank(p: Phase) -> int {
    match p {
        Phase::Intro => 0,
        Phase::Night => 1,
        Phase::Dawn => 2,
        Phase::Playback => 3,
        Phase::Finished => 4,
    }
}

/// Every variant but Spiral Voyage ends its night on a deadline; the spiral ends with the voyage.
pub open spec fn has_deadline(mode: Mode) -> bool {
    mode != Mode::SpiralVoyage
}

/// Only World Weaver plays its assembled world out after dawn.
pub open spec fn has_playback(mode: Mode) -> bool {
    mode == Mode::WorldWeaver
}

/// One fixed step of the session. `timer_done`: the running phase's clock (dusk, night or dawn)
/// has reached its length. `voyage_over`: the live spiral voyage, or World Weaver's playback,
/// reported its end this step.
pub open spec fn step_spec(mode: Mode, phase: Phase, timer_done: bool, voyage_over: bool) -> (Phase, Transition) {
    match phase {
        Phase::Intro => if timer_done {
            (Phase::Night, Transition::NightBegins)
        } else {
            (Phase::Intro, Transition::Stay)
        },
        Phase::Night => if has_deadline(mode) {
            if timer_done {
                (Phase::Dawn, if has_playback(mode) { Transition::DawnBuild } else { Transition::Dawn })
            } else {
                (Phase::Night, Transition::Stay)
            }
        } else if voyage_over {
            (Phase::Dawn, Transition::Dawn)
        } else {
            (Phase::Night, Transition::Stay)
        },
        Phase::Dawn => if !timer_done {
            (Phase::Dawn, Transition::Stay)
        } else if has_playback(mode) {
            (Phase::Playback, Transition::BeginPlayback)
        } else {
            (Phase::Finished, Transition::Finish)
        },
        Phase::Playback => if has_playback(mode) && voyage_over {
            (Phase::Finished, Transition::Finish)
        } else {
            (Phase::Playback, Transition::Stay)
        },
        Phase::Finished => (Phase::Finished, Transition::Stay),
    }
}

/// The phase after `n` steps on which every clock runs out and every voyage ends.
pub open spec fn hurried(mode: Mode, phase: Phase, n: nat) -> Phase
    decreases n,
{
    if n == 0 {
        phase
    } else {
        hurried(mode, step_spec(mode, phase, true, true).0, (n - 1) as nat)
    }
}

/// Decide one fixed step of the session.
pub fn advance(mode: Mode, phase: Phase, timer_done: bool, voyage_over: bool) -> (r: (Phase, Transition))
    ensures
        r == step_spec(mode, phase, timer_done, voyage_over),
{
    let weaver = match mode {
        Mode::WorldWeaver => true,
        _ => false,
    };
    let deadline = match mode {
        Mode::SpiralVoyage => false,
        _ => true,
    };
    match phase {
        Phase::Intro => {
            if timer_done {
                (Phase::Night, Transition::NightBegins)
            } else {
                (Phase::Intro, Transition::Stay)
            }
        },
        Phase::Night => {
            if deadline {
                if timer_done {
                    (Phase::Dawn, if weaver { Transition::DawnBuild } else { Transition::Dawn })
                } else {
                    (Phase::Night, Transition::Stay)
                }
            } else if voyage_over {
                (Phase::Dawn, Transition::Dawn)
            } else {
                (Phase::Night, Transition::Stay)
            }
        },
        Phase::Dawn => {
            if !timer_done {
                (Phase::Dawn, Transition::Stay)
            } else if weaver {
                (Phase::Playback, Transition::BeginPlayback)
            } else {
                (Phase::Finished, Transition::Finish)
            }
        },
        Phase::Playback => {
            if weaver && voyage_over {
                (Phase::Finished, Transition::Finish)
            } else {
                (Phase::Playback, Transition::Stay)
            }
        },
        Phase::Finished => (Phase::Finished, Transition::Stay),
    }
}

/// Developer shortcut to dawn: only at night; a night with a deadline is run out so the next
/// step ends it, and one without (Spiral Voyage) goes to dawn at once, which leaves the voyage
/// unfinished.
pub fn skip_to_dawn(mode: Mode, phase: Phase) -> (r: (Phase, Skip))
    ensures
        phase != Phase::Night ==> r == (phase, Skip::Ignore),
        phase == Phase::Night && has_deadline(mode) ==> r == (Phase::Night, Skip::ExpireNight),
        phase == Phase::Night && !has_deadline(mode) ==> r == (Phase::Dawn, Skip::DawnNow),
{
    match phase {
        Phase::Night => match mode {
            Mode::SpiralVoyage => (Phase::Dawn, Skip::DawnNow),
            _ => (Phase::Night, Skip::ExpireNight),
        },
        _ => (phase, Skip::Ignore),
    }
}

/// Whether the beam lights the water: at night, and while aiming at dusk.
pub fn beam_active(phase: Phase) -> (r: bool)
    ensures
        r <==> (phase == Phase::Intro || phase == Phase::Night),
{
    match phase {
        Phase::Intro | Phase::Night => true,
        _ => false,
    }
}

/// A session only moves forward: a step never returns to an earlier phase, and it reports a
/// transition exactly when the phase changes.
pub proof fn lemma_phases_move_forward(mode: Mode, phase: Phase, timer_done: bool, voyage_over: bool)
    ensures
        rank(step_spec(mode, phase, timer_done, voyage_over).0) >= rank(phase),
        step_spec(mode, phase, timer_done, voyage_over).1 == Transition::Stay
            <==> step_spec(mode, phase, timer_done, voyage_over).0 == phase,
{
}

/// The result is announced exactly once: on the step that enters the finished phase, which
/// nothing ever leaves.
pub proof fn lemma_session_ends_once(mode: Mode, phase: Phase, timer_done: bool, voyage_over: bool)
    ensures
        step_spec(mode, phase, timer_done, voyage_over).1 == Transition::Finish
            <==> (phase != Phase::Finished && step_spec(mode, phase, timer_done, voyage_over).0
            == Phase::Finished),
        phase == Phase::Finished ==> step_spec(mode, phase, timer_done, voyage_over) == (
            Phase::Finished,
            Transition::Stay,
        ),
{
}

/// Only World Weaver enters playback, and only from dawn; every other variant goes from dawn
/// straight to its result.
pub proof fn lemma_playback_only_for_weaver(mode: Mode, phase: Phase, timer_done: bool, voyage_over: bool)
    ensures
        phase != Phase::Playback && step_spec(mode, phase, timer_done, voyage_over).0
            == Phase::Playback ==> has_playback(mode) && phase == Phase::Dawn,
        phase == Phase::Dawn && timer_done && !has_playback(mode) ==> step_spec(
            mode,
            phase,
            timer_done,
            voyage_over,
        ).0 == Phase::Finished,
{
}

/// Spiral Voyage has no deadline: its night lasts until the voyage ends, however long it runs.
/// Every other night ends on its deadline whatever the ships do.
pub proof fn lemma_night_ends(mode: Mode, timer_done: bool, voyage_over: bool)
    ensures
        !has_deadline(mode) ==> (step_spec(mode, Phase::Night, timer_done, voyage_over).0
            == Phase::Dawn <==> voyage_over),
        has_deadline(mode) ==> (step_spec(mode, Phase::Night, timer_done, voyage_over).0
            == Phase::Dawn <==> timer_done),
{
}

/// Dusk, night, dawn, then the result: a session whose clocks and voyages all run out reaches
/// its result in three steps (four with World Weaver's playback), and not sooner.
pub proof fn lemma_session_concludes(mode: Mode)
    ensures
        hurried(mode, Phase::Intro, 2) == Phase::Dawn,
        !has_playback(mode) ==> hurried(mode, Phase::Intro, 3) == Phase::Finished,
        has_playback(mode) ==> hurried(mode, Phase::Intro, 4) == Phase::Finished,
        has_playback(mode) ==> hurried(mode, Phase::Intro, 3) == Phase::Playback,
{
    reveal_with_fuel(hurried, 5);
}


/// Which screen the game shows.
#[derive(Clone, Copy, Debug, PartialEq, Eq, Structural)]
pub enum Screen {
    Menu,
    Playing,
    Paused,
    Result,
}

/// The keys pressed this frame that move between screens.
#[derive(Clone, Copy, Debug, PartialEq, Eq, Structural)]
pub struct Keys {
    /// Arrow Up or W.
    pub up: bool,
    /// Arrow Down or S.
    pub down: bool,
    pub enter: bool,
    pub space: bool,
    pub escape: bool,
    /// R: retry the same scenario.
    pub retry: bool,
    /// M: back to the menu.
    pub menu: bool,
}

/// Where the screens go after one frame. `selected` is the menu cursor over the `menu` entries,
/// `current` the variant last started, `finished` whether its session has reached its result.
/// Gives the next screen, the cursor, and the variant to start afresh, if any.
pub open spec fn navigate_spec(screen: Screen, selected: int, menu: Seq<Mode>, current: Mode, finished: bool, keys: Keys)
    -> (Screen, int, Option<Mode>) {
    match screen {
        Screen::Menu => {
            let cursor = menu_cursor(selected, menu.len() as int, keys.down, keys.up);
            if keys.enter || keys.space {
                (Screen::Playing, cursor, Some(menu[cursor]))
            } else {
                (Screen::Menu, cursor, None)
            }
        },
        Screen::Playing => if finished {
            (Screen::Result, selected, None)
        } else if keys.escape {
            (Screen::Paused, selected, None)
        } else {
            (Screen::Playing, selected, None)
        },
        Screen::Paused => if keys.escape {
            (Screen::Playing, selected, None)
        } else if keys.retry {
            (Screen::Playing, selected, Some(current))
        } else if keys.menu {
            (Screen::Menu, selected, None)
        } else {
            (Screen::Paused, selected, None)
        },
        Screen::Result => if keys.retry || keys.enter {
            (Screen::Playing, selected, Some(current))
        } else if keys.menu || keys.escape {
            (Screen::Menu, selected, None)
        } else {
            (Screen::Result, selected, None)
        },
    }
}

/// One frame of screen navigation.
pub fn navigate(screen: Screen, selected: usize, menu: &[Mode], current: Mode, finished: bool, keys: Keys) -> (r: (Screen, usize, Option<Mode>))
    requires
        0 < menu@.len() <= usize::MAX / 2,
        selected < menu@.len(),
    ensures
        (r.0, r.1 as int, r.2) == navigate_spec(screen, selected as int, menu@, current, finished, keys),
        r.1 < menu@.len(),
{
    match screen {
        Screen::Menu => {
            let cursor = menu_selection(selected, menu.len(), keys.down, keys.up);
            if keys.enter || keys.space {
                (Screen::Playing, cursor, Some(menu[cursor]))
            } else {
                (Screen::Menu, cursor, None)
            }
        },
        Screen::Playing => {
            if finished {
                (Screen::Result, selected, None)
            } else if keys.escape {
                (Screen::Paused, selected, None)
            } else {
                (Screen::Playing, selected, None)
            }
        },
        Screen::Paused => {
            if keys.escape {
                (Screen::Playing, selected, None)
            } else if keys.retry {
                (Screen::Playing, selected, Some(current))
            } else if keys.menu {
                (Screen::Menu, selected, None)
            } else {
                (Screen::Paused, selected, None)
            }
        },
        Screen::Result => {
            if keys.retry || keys.enter {
                (Screen::Playing, selected, Some(current))
            } else if keys.menu || keys.escape {
                (Screen::Menu, selected, None)
            } else {
                (Screen::Result, selected, None)
            }
        },
    }
}

/// A retry restarts the same scenario: from the pause or result screens it starts afresh the
/// variant last played, and play only starts from the menu with the entry under the cursor.
pub proof fn lemma_retry_same_scenario(screen: Screen, selected: int, menu: Seq<Mode>, current: Mode, finished: bool, keys: Keys)
    requires
        0 < menu.len(),
        0 <= selected < menu.len(),
    ensures
        screen != Screen::Menu && navigate_spec(screen, selected, menu, current, finished, keys).2 is Some
            ==> navigate_spec(screen, selected, menu, current, finished, keys).2 == Some(current),
        screen == Screen::Menu && navigate_spec(screen, selected, menu, current, finished, keys).2 is Some
            ==> navigate_spec(screen, selected, menu, current, finished, keys).2 == Some(
            menu[navigate_spec(screen, selected, menu, current, finished, keys).1],
        ),
        navigate_spec(screen, selected, menu, current, finished, keys).2 is Some
            ==> navigate_spec(screen, selected, menu, current, finished, keys).0 == Screen::Playing,
{
}


/// How much the presentation may show of something: all of it, nothing, or whatever the light
/// around it reveals (the beam's footprint and the glowing water, measured by the caller).
#[derive(Clone, Copy, Debug, PartialEq, Eq, Structural)]
pub enum Sight {
    Hidden,
    ByLight,
    Lit,
}

/// What may be shown at a position: the whole sea at dusk and from dawn on, only what the light
/// reveals at night.
pub fn sight_at(phase: Phase) -> (r: Sight)
    ensures
        r == (if phase == Phase::Night { Sight::ByLight } else { Sight::Lit }),
{
    match phase {
        Phase::Night => Sight::ByLight,
        _ => Sight::Lit,
    }
}

/// What may be shown of an entity: a moored ship always, a lost one never; at night an entity
/// in another world than the one inspected stays hidden; otherwise as its position allows.
pub fn entity_sight(status: Status, phase: Phase, in_inspected_world: bool) -> (r: Sight)
    ensures
        status == Status::Secured ==> r == Sight::Lit,
        status == Status::Sunk ==> r == Sight::Hidden,
        status == Status::Active ==> r == (if phase == Phase::Night && !in_inspected_world {
            Sight::Hidden
        } else if phase == Phase::Night {
            Sight::ByLight
        } else {
            Sight::Lit
        }),
{
    match status {
        Status::Secured => Sight::Lit,
        Status::Sunk => Sight::Hidden,
        Status::Active => {
            if phase == Phase::Night && !in_inspected_world {
                Sight::Hidden
            } else {
                sight_at(phase)
            }
        },
    }
}

} // verus!
