use first_light::entity::Form;
use std::f32::consts::{PI, TAU};
use first_light::outcome::join;
use first_light::text::{article, compass_word, decimal_string, layer_glyph, layer_name};

/// The eight-wind sector of a direction, as the presentation computes it.
fn wind_sector(x: f32, y: f32) -> usize {
    let b = if x * x + y * y < 1e-12 { 0.0 } else { x.atan2(y).rem_euclid(TAU) };
    ((b + PI / 8.0).rem_euclid(TAU) / (PI / 4.0)) as usize
}

#[test]
fn compass_words() {
    assert_eq!(compass_word(wind_sector(0.0, 10.0)), "northern");
    assert_eq!(compass_word(wind_sector(10.0, 0.0)), "eastern");
    assert_eq!(compass_word(wind_sector(-7.0, -7.0)), "south-western");
}

#[test]
fn compass_word_table_and_clamp() {
    let expected = [
        "northern",
        "north-eastern",
        "eastern",
        "south-eastern",
        "southern",
        "south-western",
        "western",
        "north-western",
    ];
    for (k, w) in expected.iter().enumerate() {
        assert_eq!(compass_word(k), *w);
    }
    assert_eq!(compass_word(8), "north-western");
}

#[test]
fn decimal_numerals() {
    assert_eq!(decimal_string(0), "0");
    assert_eq!(decimal_string(7), "7");
    assert_eq!(decimal_string(10), "10");
    assert_eq!(decimal_string(305), "305");
    assert_eq!(decimal_string(u64::MAX), u64::MAX.to_string());
}

#[test]
fn articles_and_layer_labels() {
    assert_eq!(article(Form::Island), "an");
    assert_eq!(article(Form::Ship), "a");
    assert_eq!(article(Form::Creature), "a");
    assert_eq!(layer_name(0), "World 1");
    assert_eq!(layer_name(3), "World 4");
    assert_eq!(layer_glyph(2), "III");
    assert_eq!(layer_glyph(3), "IV");
}

#[test]
fn join_matches_std_join() {
    let parts = vec!["outer gap".to_string(), "wall".to_string()];
    assert_eq!(join(&parts, ", "), "outer gap, wall");
    assert_eq!(join(&vec!["reefs".to_string()], "; "), "reefs");
    assert_eq!(join(&Vec::new(), "; "), "");
}
