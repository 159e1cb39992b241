use first_light::entity::{Cause, Roster, Status};
use first_light::event::Event;
use first_light::weaver::{
    failure_text, layer_for, world_weaver_alternative, world_weaver_solution, Failure, Piece,
    WorldWeaver, SECTORS,
};

#[test]
fn authored_solutions() {
    assert_eq!(world_weaver_solution(), vec![(3, 1)]);
    assert_eq!(world_weaver_alternative(), vec![(10, 2)]);
}

#[test]
fn baseline_world_has_its_entrance_harbor_gaps_and_walls() {
    let ww = WorldWeaver::scenario();
    assert_eq!(ww.worlds.len(), 4);
    assert_eq!(ww.assembled, ww.worlds[0]);
    assert_eq!(ww.assembled[7], Piece::new(true, false, false));
    assert_eq!(ww.assembled[3], Piece::new(false, false, true));
    assert_eq!(ww.assembled[10], Piece::new(false, false, true));
    assert_eq!(ww.assembled[0], Piece::new(false, true, false));
    assert_eq!(ww.assembled[11], Piece::new(false, true, false));
    assert_eq!(ww.worlds[1][3], Piece::new(false, true, false));
    assert_eq!(ww.worlds[2][10], Piece::new(true, false, false));
    assert_eq!(ww.worlds[3][7], Piece::new(false, false, false));
    assert!(ww.edited.iter().all(|e| !e));
    assert_eq!(ww.edited.len(), SECTORS);
}

#[test]
fn layers_cycle_over_four_worlds_in_both_directions() {
    assert_eq!(layer_for(0), 0);
    assert_eq!(layer_for(1), 1);
    assert_eq!(layer_for(3), 3);
    assert_eq!(layer_for(4), 0);
    assert_eq!(layer_for(-1), 3);
    assert_eq!(layer_for(-4), 0);
    assert_eq!(layer_for(-5), 3);
    assert_eq!(layer_for(i32::MIN), 0);
    assert_eq!(layer_for(i32::MAX), 3);
}

#[test]
fn browsing_never_commits_and_capture_copies() {
    let mut ww = WorldWeaver::scenario();
    let source = ww.worlds.clone();
    // Wind onto World 2 without capturing: only the layer change is announced.
    let ev = ww.step_night(1, 3, false);
    assert_eq!(ev, vec![Event::LayerChanged { layer: 1 }]);
    assert_eq!(ww.assembled, ww.worlds[0]);
    assert!(ww.edited.iter().all(|e| !e));
    // Capture sector 3 from World 2: a copy, the source untouched.
    let ev = ww.step_night(1, 3, true);
    assert_eq!(ev, vec![Event::Captured { sector: 3, layer: 1 }]);
    assert_eq!(ww.assembled[3], Piece::new(false, true, false));
    assert!(ww.edited[3]);
    assert_eq!(ww.worlds, source);
    assert_eq!(ww.piece(0, 3), Piece::new(false, true, false));
    assert_eq!(ww.piece(1, 3), Piece::new(false, true, false));
    // Back in World 1, capture only reports the assembled world.
    let ev = ww.step_night(0, 4, true);
    assert_eq!(ev, vec![Event::LayerChanged { layer: 0 }, Event::AssembledWorld]);
    assert!(!ww.edited[4]);
    // A later capture overwrites the earlier choice.
    ww.step_night(2, 3, true);
    assert_eq!(ww.assembled[3], ww.worlds[2][3]);
}

#[test]
fn weaver_outcome_reports_copies_and_passage() {
    let mut ww = WorldWeaver::scenario();
    ww.step_night(1, 3, true);
    ww.step_night(2, 10, true);
    let built = ww.freeze();
    assert_eq!(built[3], Piece::new(false, true, false));
    let mut roster = Roster::new();
    let id = ww.launch(&mut roster, true);
    assert_eq!(ww.begin_voyage(), vec![Event::VoyageBegins]);
    assert_eq!(ww.step_playback(&mut roster, false, false, None, false), (false, vec![]));
    assert_eq!(ww.step_playback(&mut roster, false, true, None, false), (true, vec![Event::VoyageArrived]));
    assert_eq!(roster.entities[0].id, id);
    assert_eq!(roster.entities[0].status, Status::Secured);
    let o = ww.outcome(Some(131));
    assert!(o.success);
    assert_eq!(o.rescued, 1);
    assert_eq!(o.total, 1);
    assert_eq!(o.headline, "The ship found its way through your sea to the harbor.");
    assert_eq!(
        o.details,
        vec![
            "2 of 12 sectors copied into World 1.".to_string(),
            "sector 4: inner gap; sector 11: outer gap".to_string(),
            "Passage found: 131 units through the assembled sea.".to_string(),
        ]
    );
}

#[test]
fn weaver_outcome_without_copies_or_passage() {
    let mut ww = WorldWeaver::scenario();
    ww.freeze();
    let mut roster = Roster::new();
    ww.launch(&mut roster, false);
    assert_eq!(ww.begin_voyage(), vec![Event::VoyageBegins, Event::NoPassage]);
    // The ship holds at the lane for a beat, then the voyage resolves.
    assert_eq!(ww.step_playback(&mut roster, false, false, None, false), (false, vec![]));
    assert_eq!(ww.playback.failure, Some(Failure::NoPassage));
    assert_eq!(ww.step_playback(&mut roster, false, true, None, false), (false, vec![]));
    assert_eq!(ww.step_playback(&mut roster, true, false, None, false), (true, vec![]));
    let o = ww.outcome(None);
    assert!(!o.success);
    assert_eq!(o.rescued, 0);
    assert_eq!(o.headline, "No passage to harbor.");
    assert_eq!(o.details, vec!["0 of 12 sectors copied into World 1.".to_string()]);
    let unresolved = WorldWeaver::scenario().outcome(None);
    assert_eq!(unresolved.headline, "The voyage did not resolve.");
}

#[test]
fn edited_plain_sector_reads_as_reefs() {
    let mut ww = WorldWeaver::scenario();
    ww.step_night(3, 7, true);
    ww.step_night(1, 5, true);
    ww.freeze();
    let o = ww.outcome(None);
    assert_eq!(o.details[1], "sector 6: wall; sector 8: reefs");
}

#[test]
fn grounding_sinks_the_expedition_and_names_the_rocks() {
    let mut ww = WorldWeaver::scenario();
    ww.freeze();
    let mut roster = Roster::new();
    let id = ww.launch(&mut roster, true);
    // A grounding outranks running late in the same step.
    let (done, events) = ww.step_playback(&mut roster, false, false, Some(2), true);
    assert!(!done);
    assert_eq!(events, vec![Event::Sunk { id, cause: Cause::Rock }]);
    assert_eq!(roster.entities[0].status, Status::Sunk);
    assert_eq!(ww.playback.failure, Some(Failure::Grounded(2)));
    assert_eq!(ww.step_playback(&mut roster, true, false, None, false), (true, vec![]));
    let o = ww.outcome(Some(90));
    assert!(!o.success);
    assert_eq!(o.rescued, 0);
    assert_eq!(o.headline, "The ship struck the eastern rocks.");
}

#[test]
fn a_late_voyage_fails_and_a_missing_ship_ends_playback() {
    let mut ww = WorldWeaver::scenario();
    let mut roster = Roster::new();
    ww.launch(&mut roster, true);
    assert_eq!(ww.step_playback(&mut roster, false, false, None, true), (false, vec![]));
    assert_eq!(ww.playback.failure, Some(Failure::Overdue));
    assert_eq!(ww.outcome(None).headline, "The ship never reached harbor.");
    assert_eq!(failure_text(Failure::Grounded(12)), "The ship struck the north-western rocks.");
    // No expedition at all: nothing to play out.
    let mut idle = WorldWeaver::scenario();
    assert_eq!(idle.step_playback(&mut Roster::new(), false, true, None, false), (true, vec![]));
}

#[test]
fn world_weaver_preview_is_stable_and_capture_is_explicit() {
    let mut ww = WorldWeaver::scenario();
    // One full revolution forward: World 2, sector 0. Browsing alone edits nothing.
    let layer = layer_for(1);
    assert_eq!(layer, 1);
    assert_eq!(ww.step_night(layer, 0, false), vec![Event::LayerChanged { layer: 1 }]);
    assert!(ww.edited.iter().all(|e| !e), "browsing must not commit");
    let preview_a = ww.piece(1, 1);
    // Capture sector 0 from World 2.
    assert_eq!(ww.step_night(layer, 0, true), vec![Event::Captured { sector: 0, layer: 1 }]);
    assert!(ww.edited[0]);
    // Reverse back below the seam: World 1 again, sector 11; sector 0's copy stays.
    assert_eq!(layer_for(0), 0);
    assert_eq!(ww.step_night(0, 11, false), vec![Event::LayerChanged { layer: 0 }]);
    assert!(ww.edited[0]);
    assert!(!ww.edited[11]);
    // Forward again to sector 1 of World 2: the same candidate appears.
    ww.step_night(layer_for(1), 1, false);
    assert_eq!(ww.piece(1, 1), preview_a);
}

#[test]
fn world_weaver_default_composition_fails_with_a_named_reason() {
    // Nothing copied: the baseline World 1 keeps both ways round the channel walled, so the
    // passage search over its land (laid out by the presentation) finds none.
    let mut ww = WorldWeaver::scenario();
    ww.freeze();
    let mut roster = Roster::new();
    ww.launch(&mut roster, false);
    let mut done = false;
    let mut beat = 0;
    while !done {
        let (d, _) = ww.step_playback(&mut roster, beat >= 3, false, None, false);
        done = d;
        beat += 1;
    }
    let o = ww.outcome(None);
    assert!(!o.success);
    assert_eq!(o.headline, "No passage to harbor.");
}
