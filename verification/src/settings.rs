//! Player-facing settings and developer toggles, kept across sessions, and the hotkeys that
//! change them. Brightness moves in half-stop steps, so it is kept as a count of half stops.

use vstd::prelude::*;
use crate::text::{decimal, decimal_string};

verus! {

pub struct Settings {
    /// Added exposure in half stops; positive brightens the whole image for dim monitors.
    pub brightness_half_stops: i32,
    /// A/D select a rotation direction that continues after release.
    pub constant_speed_rotation: bool,
    pub debug_overlay: bool,
    /// The scripted keeper plays the scenario.
    pub autopilot: bool,
    /// Desired-heading dial lines on observable ships; on by default.
    pub heading_lines: bool,
}

impl Default for Settings {
    fn default() -> (r: Settings)
        ensures
            r.brightness_half_stops == 0,
            !r.constant_speed_rotation,
            !r.debug_overlay,
            !r.autopilot,
            r.heading_lines,
    {
        Settings {
            brightness_half_stops: 0,
            constant_speed_rotation: false,
            debug_overlay: false,
            autopilot: false,
            heading_lines: true,
        }
    }
}

/// The setting keys pressed this frame.
#[derive(Clone, Copy, Debug, PartialEq, Eq, Structural)]
pub struct Hotkeys {
    /// F6.
    pub skip_to_dawn: bool,
    /// `]`: half a stop brighter, up to three stops.
    pub brighter: bool,
    /// `[`: half a stop darker, down to minus one stop.
    pub dimmer: bool,
    /// F3.
    pub debug_overlay: bool,
    /// F4.
    pub constant_speed_rotation: bool,
    /// F9.
    pub autopilot: bool,
    /// F5.
    pub heading_lines: bool,
}

/// Brightness after the brighter and darker keys, in half stops, kept within minus one stop and
/// three stops.
pub open spec fn adjusted(h: int, brighter: bool, dimmer: bool) -> int {
    let up = if brighter {
        if h + 1 < 6 { h + 1 } else { 6 }
    } else {
        h
    };
    if dimmer {
        if up - 1 > -2 { up - 1 } else { -2 }
    } else {
        up
    }
}

/// A brightness of `h` half stops as `{:+.1}` writes its stops: sign, whole stops, one decimal.
pub open spec fn stops_text(h: int) -> Seq<char> {
    let a = if h >= 0 { h } else { -h };
    (if h >= 0 { "+"@ } else { "-"@ }) + decimal((a / 2) as nat) + "."@ + if a % 2 == 1 {
        "5"@
    } else {
        "0"@
    }
}

pub open spec fn on_off(b: bool) -> Seq<char> {
    if b {
        "on"@
    } else {
        "off"@
    }
}

fn on_off_str(b: bool) -> (r: &'static str)
    ensures
        r@ == on_off(b),
{
    if b {
        "on"
    } else {
        "off"
    }
}

impl Settings {
    /// Apply one frame of setting keys. Returns whether skipping to dawn was asked for; the
    /// session decides what that does.
    pub fn apply(&mut self, keys: Hotkeys) -> (skip: bool)
        ensures
            skip == keys.skip_to_dawn,
            final(self).brightness_half_stops == adjusted(
                old(self).brightness_half_stops as int,
                keys.brighter,
                keys.dimmer,
            ),
            final(self).debug_overlay == (old(self).debug_overlay != keys.debug_overlay),
            final(self).constant_speed_rotation == (old(self).constant_speed_rotation
                != keys.constant_speed_rotation),
            final(self).autopilot == (old(self).autopilot != keys.autopilot),
            final(self).heading_lines == (old(self).heading_lines != keys.heading_lines),
    {
        if keys.brighter {
            self.brightness_half_stops = if self.brightness_half_stops < 5 {
                self.brightness_half_stops + 1
            } else {
                6
            };
        }
        if keys.dimmer {
            self.brightness_half_stops = if self.brightness_half_stops > -1 {
                self.brightness_half_stops - 1
            } else {
                -2
            };
        }
        if keys.debug_overlay {
            self.debug_overlay = !self.debug_overlay;
        }
        if keys.constant_speed_rotation {
            self.constant_speed_rotation = !self.constant_speed_rotation;
        }
        if keys.autopilot {
            self.autopilot = !self.autopilot;
        }
        if keys.heading_lines {
            self.heading_lines = !self.heading_lines;
        }
        keys.skip_to_dawn
    }

    /// The settings panel of the pause screen.
    pub fn pause_text(&self) -> (r: String)
        ensures
            r@ == "[ ]  brightness "@ + stops_text(self.brightness_half_stops as int)
                + " stops\nF4   constant-speed rotation: "@ + on_off(self.constant_speed_rotation)
                + "\nF3   debug overlay: "@ + on_off(self.debug_overlay)
                + "\nF6   skip to dawn    F9   autopilot: "@ + on_off(self.autopilot),
    {
        let h = self.brightness_half_stops as i64;
        let a: i64 = if h >= 0 { h } else { -h };
        let mut s = String::from_str("[ ]  brightness ");
        s.append(if h >= 0 { "+" } else { "-" });
        let whole = decimal_string((a / 2) as u64);
        s.append(whole.as_str());
        s.append(".");
        s.append(if a % 2 == 1 { "5" } else { "0" });
        s.append(" stops\nF4   constant-speed rotation: ");
        s.append(on_off_str(self.constant_speed_rotation));
        s.append("\nF3   debug overlay: ");
        s.append(on_off_str(self.debug_overlay));
        s.append("\nF6   skip to dawn    F9   autopilot: ");
        s.append(on_off_str(self.autopilot));
        s
    }
}

} // verus!
