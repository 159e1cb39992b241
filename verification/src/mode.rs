//! The four variants, the words each shows the player, and the opening menu.

use vstd::prelude::*;
use crate::level::chars_of;

verus! {

#[derive(Clone, Copy, Debug, PartialEq, Eq, Hash, Structural)]
pub enum Mode {
    NightWatch,
    /// Suspended: kept for its retained implementation, hidden from the menu.
    MutableSea,
    WorldWeaver,
    SpiralVoyage,
}

pub open spec fn mode_title(m: Mode) -> Seq<char> {
    match m {
        Mode::NightWatch => "Night Watch"@,
        Mode::MutableSea => "Mutable Sea"@,
        Mode::WorldWeaver => "World Weaver"@,
        Mode::SpiralVoyage => "Spiral Voyage"@,
    }
}

pub open spec fn mode_tagline(m: Mode) -> Seq<char> {
    match m {
        Mode::NightWatch => "Paint safe passage. Remember what moves in the dark."@,
        Mode::MutableSea => "What you abandon to darkness may become something else."@,
        Mode::WorldWeaver => "Assemble the sea by night. Find the passage at first light."@,
        Mode::SpiralVoyage => "One ship, four worlds. Scout ahead, then bring it through."@,
    }
}

pub open spec fn mode_rules_summary(m: Mode) -> Seq<char> {
    match m {
        Mode::NightWatch => "Ships follow the glowing water you paint ahead of them and keep their heading when the trail fades. Guide them into the northern harbor before dawn; a ship-sized predator eats the glow it finds and sinks what it touches."@,
        Mode::MutableSea => "Ships follow the glowing water you paint ahead of them, and only your light keeps a thing what it is: in darkness each of the three identities turns ship, wreck, creature, island, ship again. Bring two of them into the northern harbor as ships before dawn."@,
        Mode::WorldWeaver => "World 1 is the sea the ship will sail; winding the beam onward shows Worlds 2 to 4, and Space copies the lit sector's land into World 1. At dawn a ship enters from the marked lane and must find any passage to the harbor."@,
        Mode::SpiralVoyage => "Paint glowing water ahead of your ship exactly as in Night Watch, on a sea that is a spiral: each clockwise pass of the south seam is the next world, and the water ahead of the ship already belongs to it. Bring the ship through Worlds 1 to 4 to the harbor in World 4."@,
    }
}

pub open spec fn mode_objective(m: Mode) -> Seq<char> {
    match m {
        Mode::NightWatch => "Paint glowing routes ahead of ships and bring them to the northern harbor."@,
        Mode::MutableSea => "Your light holds a form still; darkness changes it. Bring 2 of 3 home as ships."@,
        Mode::WorldWeaver => "Copy sectors from Worlds 2 to 4 into World 1 until the lane connects to the harbor."@,
        Mode::SpiralVoyage => "Guide the ship across the south seam through all four worlds to the harbor in World 4."@,
    }
}

pub open spec fn mode_controls(m: Mode) -> Seq<char> {
    match m {
        Mode::NightWatch | Mode::MutableSea => "A / D turn spotlight    W / S move the patch farther / nearer    Esc pause"@,
        Mode::WorldWeaver => "A / D wind backward / forward    Space copy lit sector into World 1    Esc pause"@,
        Mode::SpiralVoyage => "A / D turn spotlight and wind through worlds    W / S move the patch farther / nearer    Esc pause"@,
    }
}

impl Mode {
    pub fn title(self) -> (r: &'static str)
        ensures
            r@ == mode_title(self),
    {
        match self {
            Mode::NightWatch => "Night Watch",
            Mode::MutableSea => "Mutable Sea",
            Mode::WorldWeaver => "World Weaver",
            Mode::SpiralVoyage => "Spiral Voyage",
        }
    }

    pub fn tagline(self) -> (r: &'static str)
        ensures
            r@ == mode_tagline(self),
    {
        match self {
            Mode::NightWatch => "Paint safe passage. Remember what moves in the dark.",
            Mode::MutableSea => "What you abandon to darkness may become something else.",
            Mode::WorldWeaver => "Assemble the sea by night. Find the passage at first light.",
            Mode::SpiralVoyage => "One ship, four worlds. Scout ahead, then bring it through.",
        }
    }

    /// Two-sentence rule summary shown before the session starts.
    pub fn rules_summary(self) -> (r: &'static str)
        ensures
            r@ == mode_rules_summary(self),
    {
        match self {
            Mode::NightWatch => "Ships follow the glowing water you paint ahead of them and keep their heading when the trail fades. Guide them into the northern harbor before dawn; a ship-sized predator eats the glow it finds and sinks what it touches.",
            Mode::MutableSea => "Ships follow the glowing water you paint ahead of them, and only your light keeps a thing what it is: in darkness each of the three identities turns ship, wreck, creature, island, ship again. Bring two of them into the northern harbor as ships before dawn.",
            Mode::WorldWeaver => "World 1 is the sea the ship will sail; winding the beam onward shows Worlds 2 to 4, and Space copies the lit sector's land into World 1. At dawn a ship enters from the marked lane and must find any passage to the harbor.",
            Mode::SpiralVoyage => "Paint glowing water ahead of your ship exactly as in Night Watch, on a sea that is a spiral: each clockwise pass of the south seam is the next world, and the water ahead of the ship already belongs to it. Bring the ship through Worlds 1 to 4 to the harbor in World 4.",
        }
    }

    /// One line that stays on screen all night.
    pub fn objective(self) -> (r: &'static str)
        ensures
            r@ == mode_objective(self),
    {
        match self {
            Mode::NightWatch => "Paint glowing routes ahead of ships and bring them to the northern harbor.",
            Mode::MutableSea => "Your light holds a form still; darkness changes it. Bring 2 of 3 home as ships.",
            Mode::WorldWeaver => "Copy sectors from Worlds 2 to 4 into World 1 until the lane connects to the harbor.",
            Mode::SpiralVoyage => "Guide the ship across the south seam through all four worlds to the harbor in World 4.",
        }
    }

    pub fn controls(self) -> (r: &'static str)
        ensures
            r@ == mode_controls(self),
    {
        match self {
            Mode::NightWatch | Mode::MutableSea => "A / D turn spotlight    W / S move the patch farther / nearer    Esc pause",
            Mode::WorldWeaver => "A / D wind backward / forward    Space copy lit sector into World 1    Esc pause",
            Mode::SpiralVoyage => "A / D turn spotlight and wind through worlds    W / S move the patch farther / nearer    Esc pause",
        }
    }

    /// What the player can choose. Mutable Sea and World Weaver are suspended: their rules still
    /// run, but neither is offered.
    pub fn menu() -> (r: [Mode; 2])
        ensures
            r@ == seq![Mode::NightWatch, Mode::SpiralVoyage],
    {
        let r = [Mode::NightWatch, Mode::SpiralVoyage];
        assert(r@ =~= seq![Mode::NightWatch, Mode::SpiralVoyage]);
        r
    }

    /// Every mode, including the suspended ones.
    pub fn all() -> (r: [Mode; 4])
        ensures
            r@ == seq![Mode::NightWatch, Mode::MutableSea, Mode::WorldWeaver, Mode::SpiralVoyage],
    {
        let r = [Mode::NightWatch, Mode::MutableSea, Mode::WorldWeaver, Mode::SpiralVoyage];
        assert(r@ =~= seq![Mode::NightWatch, Mode::MutableSea, Mode::WorldWeaver, Mode::SpiralVoyage]);
        r
    }
}

/// Menu cursor after one frame of input over `n` entries: Down moves one entry on, Up one
/// back, both wrapping; Down is applied first when both are pressed.
pub open spec fn menu_cursor(selected: int, n: int, down: bool, up: bool) -> int {
    let a = if down { (selected + 1) % n } else { selected };
    if up { (a + n - 1) % n } else { a }
}

/// The menu cursor after one frame of input.
pub fn menu_selection(selected: usize, n: usize, down: bool, up: bool) -> (r: usize)
    requires
        0 < n <= usize::MAX / 2,
        selected < n,
    ensures
        r == menu_cursor(selected as int, n as int, down, up),
        r < n,
{
    let mut s = selected;
    if down {
        s = (s + 1) % n;
    }
    if up {
        s = (s + n - 1) % n;
    }
    s
}

/// Up undoes Down: the cursor always stays on an entry, and pressing Down then Up returns to
/// where it was.
pub proof fn lemma_menu_round_trip(selected: int, n: int)
    requires
        0 < n,
        0 <= selected < n,
    ensures
        0 <= menu_cursor(selected, n, true, false) < n,
        menu_cursor(menu_cursor(selected, n, true, false), n, false, true) == selected,
        menu_cursor(selected, n, true, true) == selected,
{
    let a = (selected + 1) % n;
    if selected + 1 < n {
        vstd::arithmetic::div_mod::lemma_fundamental_div_mod_converse(selected + 1, n, 0, selected + 1);
        assert(a == selected + 1);
        assert((a + n - 1) % n == selected) by {
            vstd::arithmetic::div_mod::lemma_fundamental_div_mod_converse(a + n - 1, n, 1, selected);
        }
    } else {
        vstd::arithmetic::div_mod::lemma_fundamental_div_mod_converse(selected + 1, n, 1, 0);
        assert(a == 0);
        assert((n - 1) % n == selected) by {
            vstd::arithmetic::div_mod::lemma_fundamental_div_mod_converse(n - 1, n, 0, n - 1);
        }
    }
}


/// A character's code with ASCII capitals folded to lower case.
pub open spec fn folded(c: char) -> int {
    let x = c as int;
    if 65 <= x <= 90 {
        x + 32
    } else {
        x
    }
}

/// Two texts that differ at most in the case of ASCII letters.
pub open spec fn same_folded(a: Seq<char>, b: Seq<char>) -> bool {
    &&& a.len() == b.len()
    &&& forall|i: int| 0 <= i < a.len() ==> #[trigger] folded(a[i]) == folded(b[i])
}

/// The variant a name asks for, in any letter case: its name written as one word, or its
/// initials.
pub open spec fn mode_named(name: Seq<char>) -> Option<Mode> {
    if same_folded(name, "nightwatch"@) || same_folded(name, "nw"@) {
        Some(Mode::NightWatch)
    } else if same_folded(name, "mutablesea"@) || same_folded(name, "ms"@) {
        Some(Mode::MutableSea)
    } else if same_folded(name, "worldweaver"@) || same_folded(name, "ww"@) {
        Some(Mode::WorldWeaver)
    } else if same_folded(name, "spiralvoyage"@) || same_folded(name, "sv"@) {
        Some(Mode::SpiralVoyage)
    } else {
        None
    }
}

fn fold(c: char) -> (r: u32)
    ensures
        r == folded(c),
{
    let x = c as u32;
    if 65 <= x && x <= 90 {
        x + 32
    } else {
        x
    }
}

fn named(name: &Vec<char>, word: &str) -> (r: bool)
    ensures
        r == same_folded(name@, word@),
{
    let w = chars_of(word);
    if name.len() != w.len() {
        return false;
    }
    let mut i: usize = 0;
    while i < name.len()
        invariant
            i <= name@.len(),
            name@.len() == w@.len(),
            w@ == word@,
            forall|j: int| 0 <= j < i ==> #[trigger] folded(name@[j]) == folded(w@[j]),
        decreases name@.len() - i,
    {
        if fold(name[i]) != fold(w[i]) {
            return false;
        }
        i += 1;
    }
    true
}

impl Mode {
    /// The variant a name asks for (as in the autoplay setting), ignoring letter case.
    pub fn from_name(name: &str) -> (r: Option<Mode>)
        ensures
            r == mode_named(name@),
    {
        let n = chars_of(name);
        if named(&n, "nightwatch") || named(&n, "nw") {
            Some(Mode::NightWatch)
        } else if named(&n, "mutablesea") || named(&n, "ms") {
            Some(Mode::MutableSea)
        } else if named(&n, "worldweaver") || named(&n, "ww") {
            Some(Mode::WorldWeaver)
        } else if named(&n, "spiralvoyage") || named(&n, "sv") {
            Some(Mode::SpiralVoyage)
        } else {
            None
        }
    }
}



} // verus!
