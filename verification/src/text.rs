//! Words and numbers the rules hand to the player: decimal numerals, compass words, articles and
//! world labels.

use vstd::prelude::*;
use crate::entity::Form;

verus! {

/// The digit character for `d` in `0..10`.
pub open spec fn digit_char(d: int) -> char {
    if d == 0 {
        '0'
    } else if d == 1 {
        '1'
    } else if d == 2 {
        '2'
    } else if d == 3 {
        '3'
    } else if d == 4 {
        '4'
    } else if d == 5 {
        '5'
    } else if d == 6 {
        '6'
    } else if d == 7 {
        '7'
    } else if d == 8 {
        '8'
    } else {
        '9'
    }
}

/// Decimal numeral of `n`, most significant digit first, without leading zeros.
pub open spec fn decimal(n: nat) -> Seq<char>
    decreases n,
{
    if n < 10 {
        seq![digit_char(n as int)]
    } else {
        decimal(n / 10).push(digit_char((n % 10) as int))
    }
}

fn digit_str(d: u64) -> (r: &'static str)
    requires
        d < 10,
    ensures
        r@ == seq![digit_char(d as int)],
{
    proof {
        reveal_strlit("0");
        reveal_strlit("1");
        reveal_strlit("2");
        reveal_strlit("3");
        reveal_strlit("4");
        reveal_strlit("5");
        reveal_strlit("6");
        reveal_strlit("7");
        reveal_strlit("8");
        reveal_strlit("9");
    }
    let r = if d == 0 {
        "0"
    } else if d == 1 {
        "1"
    } else if d == 2 {
        "2"
    } else if d == 3 {
        "3"
    } else if d == 4 {
        "4"
    } else if d == 5 {
        "5"
    } else if d == 6 {
        "6"
    } else if d == 7 {
        "7"
    } else if d == 8 {
        "8"
    } else {
        "9"
    };
    assert(r@ =~= seq![digit_char(d as int)]);
    r
}

/// Decimal numeral of `n`, as `format!("{n}")` writes it.
pub fn decimal_string(n: u64) -> (r: String)
    ensures
        r@ == decimal(n as nat),
    decreases n,
{
    if n < 10 {
        let mut s = String::new();
        s.append(digit_str(n));
        assert(s@ =~= decimal(n as nat));
        s
    } else {
        let mut s = decimal_string(n / 10);
        s.append(digit_str(n % 10));
        assert(s@ =~= decimal(n as nat));
        s
    }
}

/// Eight-wind compass words, clockwise from north.
pub open spec fn compass_words(k: int) -> Seq<char> {
    if k <= 0 {
        "northern"@
    } else if k == 1 {
        "north-eastern"@
    } else if k == 2 {
        "eastern"@
    } else if k == 3 {
        "south-eastern"@
    } else if k == 4 {
        "southern"@
    } else if k == 5 {
        "south-western"@
    } else if k == 6 {
        "western"@
    } else {
        "north-western"@
    }
}

/// Compass word of wind sector `k` (eighths of a turn clockwise from north, centred on each
/// wind); sectors past the last one read as north-western, the table clamping them.
pub fn compass_word(k: usize) -> (r: &'static str)
    ensures
        r@ == compass_words(if k > 7 { 7 } else { k as int }),
{
    let idx = if k > 7 { 7 } else { k };
    match idx {
        0 => "northern",
        1 => "north-eastern",
        2 => "eastern",
        3 => "south-eastern",
        4 => "southern",
        5 => "south-western",
        6 => "western",
        _ => "north-western",
    }
}

/// Indefinite article before a form's name.
pub open spec fn article_of(f: Form) -> Seq<char> {
    if f == Form::Island {
        "an"@
    } else {
        "a"@
    }
}

pub fn article(form: Form) -> (r: &'static str)
    ensures
        r@ == article_of(form),
{
    match form {
        Form::Island => "an",
        _ => "a",
    }
}

/// Name of a World Weaver layer.
pub open spec fn layer_name_of(layer: int) -> Seq<char> {
    if layer <= 0 {
        "World 1"@
    } else if layer == 1 {
        "World 2"@
    } else if layer == 2 {
        "World 3"@
    } else {
        "World 4"@
    }
}

/// Roman glyph of a World Weaver layer.
pub open spec fn layer_glyph_of(layer: int) -> Seq<char> {
    if layer <= 0 {
        "I"@
    } else if layer == 1 {
        "II"@
    } else if layer == 2 {
        "III"@
    } else {
        "IV"@
    }
}

pub fn layer_name(layer: usize) -> (r: &'static str)
    requires
        layer < 4,
    ensures
        r@ == layer_name_of(layer as int),
{
    match layer {
        0 => "World 1",
        1 => "World 2",
        2 => "World 3",
        _ => "World 4",
    }
}

pub fn layer_glyph(layer: usize) -> (r: &'static str)
    requires
        layer < 4,
    ensures
        r@ == layer_glyph_of(layer as int),
{
    match layer {
        0 => "I",
        1 => "II",
        2 => "III",
        _ => "IV",
    }
}

} // verus!
