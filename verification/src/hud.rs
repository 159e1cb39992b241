//! The words on screen: feedback lines for events, the heads-up display, entity labels and the
//! result title. The presentation measures what needs floating point (clocks, the beam's sector)
//! and shows what these functions write.

use vstd::prelude::*;
use crate::entity::{form_name, next_form, Cause, Entity, Roster, Status};
use crate::event::Event;
use crate::mode::{mode_controls, mode_title, Mode};
use crate::rules::Rules;
use crate::session::{has_deadline, Phase};
use crate::weaver::count_true;
use crate::text::{
    article, article_of, compass_word, compass_words, decimal, decimal_string, layer_glyph, layer_glyph_of,
    layer_name, layer_name_of,
};

verus! {

/// A number written with at least two digits, as `{:02}` writes it.
pub open spec fn two_digits(n: nat) -> Seq<char> {
    if n < 10 {
        "0"@ + decimal(n)
    } else {
        decimal(n)
    }
}

fn push_decimal(s: &mut String, n: u64)
    ensures
        final(s)@ == old(s)@ + decimal(n as nat),
{
    let d = decimal_string(n);
    s.append(d.as_str());
}

fn push_two_digits(s: &mut String, n: u64)
    ensures
        final(s)@ == old(s)@ + two_digits(n as nat),
{
    if n < 10 {
        s.append("0");
    }
    push_decimal(s, n);
    proof {
        if n < 10 {
            assert(final(s)@ =~= old(s)@ + two_digits(n as nat));
        }
    }
}

/// The feedback line for an event, naming vessels as the roster does. `dark_seconds`: how long,
/// rounded to whole seconds, a transformed entity's new form lasts in darkness.
pub open spec fn toast_of(e: Event, roster: Roster, dark_seconds: nat) -> Option<Seq<char>> {
    match e {
        Event::Rescued { id } => Some(roster.name_for(id) + " made harbor."@),
        Event::Sunk { id, cause } => Some(
            roster.name_for(id) + if cause == Cause::Rock {
                " struck the rocks."@
            } else {
                " was taken."@
            },
        ),
        Event::Wrecked { id, .. } => Some(roster.name_for(id) + " is wrecked."@),
        Event::Transformed { id, to, .. } => Some(
            roster.name_for(id) + " became "@ + article_of(to) + " "@ + form_name(to)
                + ". Left dark, it becomes "@ + article_of(next_form(to)) + " "@ + form_name(
                next_form(to),
            ) + " in "@ + decimal(dark_seconds) + " s."@,
        ),
        Event::Captured { sector, layer } => Some(
            "Sector "@ + decimal((sector + 1) as nat) + " copied from "@ + layer_name_of(layer as int)
                + " into World 1."@,
        ),
        Event::AssembledWorld => Some("Assembled world."@),
        Event::LayerChanged { layer } => Some("Inspecting World "@ + decimal((layer + 1) as nat)),
        Event::NoPassage => Some("No passage to harbor."@),
        Event::ShipCrossed { world } => Some(
            "The Wayfarer crossed into World "@ + decimal((world + 1) as nat) + "."@,
        ),
        Event::CreatureAppears { wind, .. } => Some(
            "Something stirs in the "@ + compass_words(if wind > 7 { 7 } else { wind as int })
                + " dark. It follows the brightest light it can see."@,
        ),
        Event::VoyageBegins => Some("The ship enters from the shipping lane."@),
        _ => None,
    }
}

/// The feedback line an event shows, if any.
pub fn toast_text(e: Event, roster: &Roster, dark_seconds: u64) -> (r: Option<String>)
    requires
        roster.wf(),
        e matches Event::Captured { sector, layer } ==> layer < 4 && sector < usize::MAX,
    ensures
        match r {
            Some(s) => toast_of(e, *roster, dark_seconds as nat) == Some(s@),
            None => toast_of(e, *roster, dark_seconds as nat) is None,
        },
{
    let mut s = String::new();
    match e {
        Event::Rescued { id } => {
            s.append(roster.name_of(id));
            s.append(" made harbor.");
        },
        Event::Sunk { id, cause } => {
            s.append(roster.name_of(id));
            match cause {
                Cause::Rock => s.append(" struck the rocks."),
                Cause::Creature => s.append(" was taken."),
            }
        },
        Event::Wrecked { id, .. } => {
            s.append(roster.name_of(id));
            s.append(" is wrecked.");
        },
        Event::Transformed { id, to, .. } => {
            let next = to.next();
            s.append(roster.name_of(id));
            s.append(" became ");
            s.append(article(to));
            s.append(" ");
            s.append(to.name());
            s.append(". Left dark, it becomes ");
            s.append(article(next));
            s.append(" ");
            s.append(next.name());
            s.append(" in ");
            push_decimal(&mut s, dark_seconds);
            s.append(" s.");
        },
        Event::Captured { sector, layer } => {
            s.append("Sector ");
            push_decimal(&mut s, (sector + 1) as u64);
            s.append(" copied from ");
            s.append(layer_name(layer as usize));
            s.append(" into World 1.");
        },
        Event::AssembledWorld => s.append("Assembled world."),
        Event::LayerChanged { layer } => {
            s.append("Inspecting World ");
            push_decimal(&mut s, layer as u64 + 1);
        },
        Event::NoPassage => s.append("No passage to harbor."),
        Event::ShipCrossed { world } => {
            s.append("The Wayfarer crossed into World ");
            push_decimal(&mut s, world as u64 + 1);
            s.append(".");
        },
        Event::CreatureAppears { wind, .. } => {
            s.append("Something stirs in the ");
            s.append(compass_word(wind));
            s.append(" dark. It follows the brightest light it can see.");
        },
        Event::VoyageBegins => s.append("The ship enters from the shipping lane."),
        _ => {
            return None;
        },
    }
    proof {
        assert(toast_of(e, *roster, dark_seconds as nat) == Some(s@));
    }
    Some(s)
}


/// The clock line. `night_left`: whole seconds left of the night; `sailed`: whole seconds of
/// World Weaver's playback so far.
pub open spec fn phase_line(mode: Mode, phase: Phase, night_left: nat, sailed: nat) -> Seq<char> {
    match phase {
        Phase::Intro => "Dusk. The beacon is lit."@,
        Phase::Night => if has_deadline(mode) {
            "Night remaining  "@ + decimal(night_left / 60) + ":"@ + two_digits(night_left % 60)
        } else {
            "The voyage is under way."@
        },
        Phase::Dawn => "First light."@,
        Phase::Playback => if mode == Mode::WorldWeaver {
            "The ship sails  "@ + two_digits(sailed) + "s"@
        } else {
            Seq::empty()
        },
        Phase::Finished => Seq::empty(),
    }
}

pub fn phase_text(mode: Mode, phase: Phase, night_left: u32, sailed: u32) -> (r: String)
    ensures
        r@ == phase_line(mode, phase, night_left as nat, sailed as nat),
{
    let mut s = String::new();
    match phase {
        Phase::Intro => s.append("Dusk. The beacon is lit."),
        Phase::Night => match mode {
            Mode::SpiralVoyage => s.append("The voyage is under way."),
            _ => {
                s.append("Night remaining  ");
                push_decimal(&mut s, (night_left / 60) as u64);
                s.append(":");
                push_two_digits(&mut s, (night_left % 60) as u64);
            },
        },
        Phase::Dawn => s.append("First light."),
        Phase::Playback => match mode {
            Mode::WorldWeaver => {
                s.append("The ship sails  ");
                push_two_digits(&mut s, sailed as u64);
                s.append("s");
            },
            _ => {},
        },
        Phase::Finished => {},
    }
    proof {
        assert(s@ =~= phase_line(mode, phase, night_left as nat, sailed as nat));
    }
    s
}

/// The score line of each variant.
pub open spec fn score_line(rules: Rules, roster: Roster) -> Seq<char> {
    let secured = Roster::count_status(roster.entities@, Status::Secured);
    match rules {
        Rules::NightWatch(nw) => "Rescued "@ + decimal(secured) + " / "@ + decimal(nw.schedule@.len())
            + "    Lost "@ + decimal(Roster::count_status(roster.entities@, Status::Sunk)),
        Rules::MutableSea(ms) => "Secured "@ + decimal(secured) + " / "@ + decimal(ms.identities@.len())
            + "  (need "@ + decimal(ms.target_rescues as nat) + ")"@,
        Rules::WorldWeaver(ww) => "Sectors copied into World 1: "@ + decimal(count_true(ww.edited@, ww.edited@.len()))
            + " / "@ + decimal(ww.edited@.len()),
        Rules::SpiralVoyage(sv) => "Harbor: World "@ + decimal(sv.worlds as nat),
    }
}

pub fn score_text(rules: &Rules, roster: &Roster) -> (r: String)
    ensures
        r@ == score_line(*rules, *roster),
{
    let mut s = String::new();
    match rules {
        Rules::NightWatch(nw) => {
            s.append("Rescued ");
            push_decimal(&mut s, roster.count(Status::Secured) as u64);
            s.append(" / ");
            push_decimal(&mut s, nw.schedule.len() as u64);
            s.append("    Lost ");
            push_decimal(&mut s, roster.count(Status::Sunk) as u64);
        },
        Rules::MutableSea(ms) => {
            s.append("Secured ");
            push_decimal(&mut s, roster.count(Status::Secured) as u64);
            s.append(" / ");
            push_decimal(&mut s, ms.identities.len() as u64);
            s.append("  (need ");
            push_decimal(&mut s, ms.target_rescues as u64);
            s.append(")");
        },
        Rules::WorldWeaver(ww) => {
            s.append("Sectors copied into World 1: ");
            push_decimal(&mut s, ww.edited_count() as u64);
            s.append(" / ");
            push_decimal(&mut s, ww.edited.len() as u64);
        },
        Rules::SpiralVoyage(sv) => {
            s.append("Harbor: World ");
            push_decimal(&mut s, sv.worlds as u64);
        },
    }
    proof {
        assert(s@ =~= score_line(*rules, *roster));
    }
    s
}

/// What World Weaver says of the inspected sector.
pub open spec fn sector_state(layer: int, edited: bool) -> Seq<char> {
    if layer == 0 {
        if edited {
            "assembled, edited"@
        } else {
            "assembled, baseline"@
        }
    } else if edited {
        "sector edited in World 1"@
    } else {
        "sector unedited"@
    }
}

/// The world line: World Weaver's inspected layer and sector at night, the Spiral Voyage ship's
/// world at dusk and at night. `layer` and `sector` are World Weaver's inspected layer and the
/// beam's sector.
pub open spec fn world_line(rules: Rules, phase: Phase, layer: int, sector: int) -> Seq<char> {
    match rules {
        Rules::WorldWeaver(ww) => if phase == Phase::Night {
            "Inspecting "@ + layer_name_of(layer) + " ("@ + layer_glyph_of(layer) + ")    Sector "@
                + decimal((sector + 1) as nat) + "  ("@ + sector_state(layer, ww.edited@[sector]) + ")"@
        } else {
            Seq::empty()
        },
        Rules::SpiralVoyage(sv) => if phase == Phase::Night || phase == Phase::Intro {
            "World "@ + decimal((sv.ship_world + 1) as nat) + " of "@ + decimal(sv.worlds as nat)
        } else {
            Seq::empty()
        },
        _ => Seq::empty(),
    }
}

pub fn world_text(rules: &Rules, phase: Phase, layer: u8, sector: usize) -> (r: String)
    requires
        phase == Phase::Night ==> (rules matches Rules::WorldWeaver(ww) ==> layer < 4 && sector
            < ww.edited.len()),
        rules matches Rules::SpiralVoyage(sv) ==> sv.ship_world < usize::MAX,
    ensures
        r@ == world_line(*rules, phase, layer as int, sector as int),
{
    let mut s = String::new();
    match rules {
        Rules::WorldWeaver(ww) => {
            if phase == Phase::Night {
                let edited = ww.edited[sector];
                let state = if layer == 0 {
                    if edited { "assembled, edited" } else { "assembled, baseline" }
                } else if edited {
                    "sector edited in World 1"
                } else {
                    "sector unedited"
                };
                s.append("Inspecting ");
                s.append(layer_name(layer as usize));
                s.append(" (");
                s.append(layer_glyph(layer as usize));
                s.append(")    Sector ");
                push_decimal(&mut s, (sector + 1) as u64);
                s.append("  (");
                s.append(state);
                s.append(")");
            }
        },
        Rules::SpiralVoyage(sv) => {
            if phase == Phase::Night || phase == Phase::Intro {
                s.append("World ");
                push_decimal(&mut s, (sv.ship_world + 1) as u64);
                s.append(" of ");
                push_decimal(&mut s, sv.worlds as u64);
            }
        },
        _ => {},
    }
    proof {
        assert(s@ =~= world_line(*rules, phase, layer as int, sector as int));
    }
    s
}

/// The hint line: the variant's controls while the beam is live, then what dawn brings.
pub open spec fn hint_line(mode: Mode, phase: Phase) -> Seq<char> {
    match phase {
        Phase::Intro | Phase::Night => mode_controls(mode),
        Phase::Dawn => "First light. The sea is revealed."@,
        Phase::Playback => "The ship follows the passage it found through your sea.    Esc pause"@,
        Phase::Finished => ""@,
    }
}

pub fn hint_text(mode: Mode, phase: Phase) -> (r: &'static str)
    ensures
        r@ == hint_line(mode, phase),
{
    match phase {
        Phase::Intro | Phase::Night => mode.controls(),
        Phase::Dawn => "First light. The sea is revealed.",
        Phase::Playback => "The ship follows the passage it found through your sea.    Esc pause",
        Phase::Finished => "",
    }
}

/// First line of the result panel.
pub fn result_title(mode: Mode, success: bool) -> (r: String)
    ensures
        r@ == mode_title(mode) + ": "@ + if success {
            "success"@
        } else {
            "not this night"@
        },
{
    let mut s = String::new();
    s.append(mode.title());
    s.append(": ");
    s.append(if success { "success" } else { "not this night" });
    s
}

/// The label beside an entity. In Mutable Sea at night an active entity also says whether light
/// holds it (`held`) or whether it is about to change (`changing`); both are measured by the caller.
pub open spec fn label_line(e: Entity, mode: Mode, phase: Phase, held: bool, changing: bool) -> Seq<char> {
    let base = e.name@ + "  "@ + form_name(e.form);
    if mode == Mode::MutableSea && e.status == Status::Active && phase == Phase::Night {
        if held {
            base + "  held by light"@
        } else if changing {
            base + "  changing"@
        } else {
            base
        }
    } else {
        base
    }
}

pub fn label_text(e: &Entity, mode: Mode, phase: Phase, held: bool, changing: bool) -> (r: String)
    ensures
        r@ == label_line(*e, mode, phase, held, changing),
{
    let mut s = String::new();
    s.append(e.name);
    s.append("  ");
    s.append(e.form.name());
    if mode == Mode::MutableSea && e.is_active() && phase == Phase::Night {
        if held {
            s.append("  held by light");
        } else if changing {
            s.append("  changing");
        }
    }
    s
}

} // verus!
