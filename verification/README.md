# First Light

Rules of a lighthouse game prototype: the keeper paints glowing water with the beam, and ships
read that light to find the harbor before dawn. Four variants share one foundation: Night Watch,
Mutable Sea, World Weaver and Spiral Voyage.

`src/` is the library, written in Verus: every function carries a contract and is proved to meet
it. It holds everything that needs no floating point:

- `session`: dusk, night, dawn, playback and result; the screens and their keys; what may be shown.
- `mode`, `rules`, `weaver`: the variants, their scenarios, releases, transformations, seam
  crossings, World Weaver's assembler and dawn voyage, and each result screen.
- `entity`, `event`: the roster of identities and forms, and what a session announces.
- `route`: the grid passage finder: a cheapest chain of eight-connected moves that never cuts a
  corner, and no chain exactly when none exists.
- `clusters`: rocks grouped into islands by the pairs that touch.
- `level`: authored polar ASCII maps read into rock masks.
- `hud`, `text`, `outcome`: every line the player reads.
- `settings`: brightness and developer toggles, their hotkeys and the pause panel.
- `audio`: the cue catalogue, deterministic noise and the WAVE encoder.

`app/` is a small command-line companion in plain Rust (with `glam`) that does the floating-point
work around the library: it lays levels out in the sea, builds the route grid from rock circles,
synthesizes the sound bank, and rehearses whole sessions on the library's rules.

`tests/` runs the library on concrete cases.
