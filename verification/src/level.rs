//! Authored levels as polar ASCII maps. Columns are bearing, 12 degrees each, starting at the
//! seam bearing (south) and running clockwise; rows are radius bands from the sea's edge (top)
//! down to the lighthouse island (the bottom row, which is the island itself and is ignored).
//! `X` is rock. A file may hold several worlds side by side, one 30-column block each.

use vstd::prelude::*;

verus! {

broadcast use vstd::string::group_string_axioms;

/// The characters of a string, in order.
pub fn chars_of(text: &str) -> (r: Vec<char>)
    ensures
        r@ == text@,
{
    let mut v: Vec<char> = Vec::new();
    for c in it: text.chars()
        invariant
            v@ == it.seq().take(it.index() as int),
    {
        v.push(c);
    }
    v
}

/// Columns per full revolution (one world's block).
pub const COLUMNS: usize = 30;

/// A line without one trailing carriage return.
pub open spec fn strip_cr(s: Seq<char>) -> Seq<char> {
    if s.len() > 0 && s.last() == '\r' {
        s.drop_last()
    } else {
        s
    }
}

/// Lines finished so far and the line under way after reading `t`.
pub open spec fn scan(t: Seq<char>) -> (Seq<Seq<char>>, Seq<char>)
    decreases t.len(),
{
    if t.len() == 0 {
        (seq![], seq![])
    } else {
        let (done, cur) = scan(t.drop_last());
        if t.last() == '\n' {
            (done.push(strip_cr(cur)), seq![])
        } else {
            (done, cur.push(t.last()))
        }
    }
}

/// The lines of a text as `str::lines` yields them: split at `\n`, a `\r` right before a `\n`
/// dropped, and a final line ending optional.
pub open spec fn text_lines(t: Seq<char>) -> Seq<Seq<char>> {
    if t.len() == 0 || t.last() == '\n' {
        scan(t).0
    } else {
        scan(t).0.push(scan(t).1)
    }
}

/// A line without any trailing carriage returns.
pub open spec fn trim_cr(s: Seq<char>) -> Seq<char>
    decreases s.len(),
{
    if s.len() > 0 && s.last() == '\r' {
        trim_cr(s.drop_last())
    } else {
        s
    }
}

pub open spec fn is_rock(c: char) -> bool {
    c == 'X' || c == 'x'
}

/// Whether column `col` of world `world` is rock on this line; past its end it is water.
pub open spec fn land_at(line: Seq<char>, world: int, col: int) -> bool {
    let i = world * (COLUMNS as int) + col;
    0 <= i < line.len() && is_rock(line[i])
}

fn lines_of(text: &Vec<char>) -> (r: Vec<Vec<char>>)
    ensures
        r@.map_values(|l: Vec<char>| l@) == text_lines(text@),
{
    let mut done: Vec<Vec<char>> = Vec::new();
    let mut cur: Vec<char> = Vec::new();
    let mut k: usize = 0;
    while k < text.len()
        invariant
            k <= text@.len(),
            done@.map_values(|l: Vec<char>| l@) == scan(text@.subrange(0, k as int)).0,
            cur@ == scan(text@.subrange(0, k as int)).1,
        decreases text@.len() - k,
    {
        let ghost pre = text@.subrange(0, k as int);
        proof {
            assert(text@.subrange(0, k + 1).drop_last() =~= pre);
        }
        let c = text[k];
        if c == '\n' {
            let n = cur.len();
            if n > 0 && cur[n - 1] == '\r' {
                cur.pop();
            }
            let ghost before = done@;
            done.push(cur);
            cur = Vec::new();
            proof {
                assert(done@.map_values(|l: Vec<char>| l@) =~= before.map_values(|l: Vec<char>| l@).push(
                    strip_cr(scan(pre).1),
                ));
            }
        } else {
            cur.push(c);
        }
        proof {
            assert(cur@ =~= scan(text@.subrange(0, k + 1)).1);
        }
        k += 1;
    }
    proof {
        assert(text@.subrange(0, k as int) =~= text@);
    }
    let n = text.len();
    if n > 0 && text[n - 1] != '\n' {
        let ghost before = done@;
        done.push(cur);
        proof {
            assert(done@.map_values(|l: Vec<char>| l@) =~= before.map_values(|l: Vec<char>| l@).push(
                scan(text@).1,
            ));
        }
    }
    done
}

/// Whether a character sequence is rock at column `col` of world `world`.
fn land_in(line: &Vec<char>, world: usize, col: usize) -> (r: bool)
    requires
        world * COLUMNS + col <= usize::MAX,
    ensures
        r == land_at(line@, world as int, col as int),
{
    let i = world * COLUMNS + col;
    i < line.len() && (line[i] == 'X' || line[i] == 'x')
}

/// Whether column `col` of world `world` is rock on this line of the map.
pub fn source_is_land(line: &str, world: usize, col: usize) -> (r: bool)
    requires
        world * COLUMNS + col <= usize::MAX,
    ensures
        r == land_at(line@, world as int, col as int),
{
    let chars = chars_of(line);
    land_in(&chars, world, col)
}

/// Whether a cell is free water: not rock, or beyond the map.
pub fn is_free(text: &str, world: usize, col: usize, row: usize) -> (r: bool)
    requires
        world * COLUMNS + col <= usize::MAX,
    ensures
        r == !(row < text_lines(text@).len() && land_at(
            text_lines(text@)[row as int],
            world as int,
            col as int,
        )),
{
    let chars = chars_of(text);
    let lines = lines_of(&chars);
    proof {
        assert(lines@.map_values(|l: Vec<char>| l@).len() == lines@.len());
    }
    if row >= lines.len() {
        return true;
    }
    proof {
        assert(lines@.map_values(|l: Vec<char>| l@)[row as int] == lines@[row as int]@);
    }
    !land_in(&lines[row], world, col)
}

/// Number of sea rows in the map: every line but the last, which is the island.
pub fn rows(text: &str) -> (r: usize)
    ensures
        r == if text_lines(text@).len() == 0 {
            0
        } else {
            text_lines(text@).len() - 1
        },
{
    let chars = chars_of(text);
    let lines = lines_of(&chars);
    proof {
        assert(lines@.map_values(|l: Vec<char>| l@).len() == lines@.len());
    }
    if lines.len() == 0 {
        0
    } else {
        lines.len() - 1
    }
}

/// Widest of the lines.
pub open spec fn max_width(lines: Seq<Seq<char>>) -> nat
    decreases lines.len(),
{
    if lines.len() == 0 {
        0
    } else {
        let rest = max_width(lines.drop_last());
        let w = lines.last().len();
        if w > rest { w } else { rest }
    }
}

/// Number of 30-column worlds side by side in a map: enough blocks for its widest line (trailing
/// carriage returns aside), and at least one.
pub open spec fn world_count_of(t: Seq<char>) -> nat {
    let w = max_width(text_lines(t).map_values(|l: Seq<char>| trim_cr(l)));
    let k = (w + COLUMNS - 1) / (COLUMNS as int);
    if k < 1 { 1 } else { k as nat }
}

fn trimmed_len(line: &Vec<char>) -> (r: usize)
    ensures
        r == trim_cr(line@).len(),
{
    let mut n = line.len();
    proof {
        assert(line@.subrange(0, n as int) =~= line@);
    }
    while n > 0 && line[n - 1] == '\r'
        invariant
            n <= line@.len(),
            trim_cr(line@) == trim_cr(line@.subrange(0, n as int)),
        decreases n,
    {
        proof {
            assert(line@.subrange(0, n as int).drop_last() =~= line@.subrange(0, n - 1));
        }
        n -= 1;
    }
    proof {
        assert(trim_cr(line@.subrange(0, n as int)) == line@.subrange(0, n as int));
    }
    n
}

/// How many worlds the map holds side by side.
pub fn world_count(text: &str) -> (r: usize)
    ensures
        r == world_count_of(text@),
        r >= 1,
        forall|i: int| 0 <= i < text_lines(text@).len() ==> #[trigger] trim_cr(text_lines(text@)[i]).len()
            <= 30 * r,
        r > 1 ==> exists|i: int| 0 <= i < text_lines(text@).len()
            && #[trigger] trim_cr(text_lines(text@)[i]).len() > 30 * (r - 1),
{
    proof {
        lemma_world_count_fits(text@);
    }
    let chars = chars_of(text);
    let lines = lines_of(&chars);
    let ghost views = lines@.map_values(|l: Vec<char>| l@);
    let mut width: usize = 0;
    let mut k: usize = 0;
    while k < lines.len()
        invariant
            k <= lines@.len(),
            views == lines@.map_values(|l: Vec<char>| l@),
            width == max_width(views.subrange(0, k as int).map_values(|l: Seq<char>| trim_cr(l))),
        decreases lines@.len() - k,
    {
        let w = trimmed_len(&lines[k]);
        proof {
            let a = views.subrange(0, k + 1).map_values(|l: Seq<char>| trim_cr(l));
            let b = views.subrange(0, k as int).map_values(|l: Seq<char>| trim_cr(l));
            assert(a.drop_last() =~= b);
            assert(a.last() == trim_cr(lines@[k as int]@));
        }
        if w > width {
            width = w;
        }
        k += 1;
    }
    proof {
        assert(views.subrange(0, k as int) =~= views);
    }
    let blocks = width / COLUMNS + if width % COLUMNS == 0 { 0 } else { 1 };
    proof {
        assert(blocks == (width + COLUMNS - 1) / (COLUMNS as int)) by {
            vstd::arithmetic::div_mod::lemma_fundamental_div_mod(width as int, 30);
            vstd::arithmetic::div_mod::lemma_fundamental_div_mod(width + 29, 30);
        }
    }
    if blocks < 1 {
        1
    } else {
        blocks
    }
}

/// Number of rock columns of `world` on the line among columns `lo..hi`.
pub open spec fn land_count(line: Seq<char>, world: int, lo: int, hi: int) -> nat
    decreases hi - lo,
{
    if hi <= lo {
        0
    } else {
        land_count(line, world, lo, hi - 1) + if land_at(line, world, hi - 1) {
            1nat
        } else {
            0nat
        }
    }
}

/// Whether resampled point `sample` of `samples` around a ring is rock. Rings with at least one
/// sample per column read the column under the sample's centre; sparser rings take a majority
/// vote (ties count as rock) over the columns the sample spans.
pub open spec fn sample_is_land(line: Seq<char>, world: int, samples: int, sample: int) -> bool {
    if samples >= COLUMNS {
        let col = ((2 * sample + 1) * (COLUMNS as int)) / (2 * samples);
        land_at(line, world, if col < COLUMNS - 1 { col } else { COLUMNS - 1 })
    } else {
        let first = sample * (COLUMNS as int) / samples;
        let end = ((sample + 1) * (COLUMNS as int) + samples - 1) / samples;
        2 * land_count(line, world, first, end) >= end - first
    }
}

/// Rock mask of one ring of the map resampled at `samples` points.
pub fn sample_mask(line: &str, world: usize, samples: usize) -> (r: Vec<bool>)
    requires
        samples >= 1,
        world * COLUMNS + COLUMNS <= usize::MAX,
    ensures
        r@.len() == samples,
        forall|s: int| 0 <= s < samples ==> #[trigger] r@[s] == sample_is_land(
            line@,
            world as int,
            samples as int,
            s,
        ),
        forall|s: int, a: int, b: int|
            0 <= s < samples < COLUMNS && a * samples <= s * 30 < (a + 1) * samples && (b - 1) * samples
                < (s + 1) * 30 <= b * samples ==> (#[trigger] r@[s] <==> 2 * #[trigger] rock_columns(
                line@,
                world as int,
                a,
                b,
            ) >= b - a),
        forall|s: int, c: int|
            0 <= s < samples && samples >= COLUMNS && c * 2 * samples <= (2 * s + 1) * 30 < (c + 1) * 2
                * samples ==> #[trigger] r@[s] == #[trigger] rock_column(line@, world as int, c),
{
    let chars = chars_of(line);
    let mut out: Vec<bool> = Vec::new();
    let mut sample: usize = 0;
    while sample < samples
        invariant
            sample <= samples,
            samples >= 1,
            world * COLUMNS + COLUMNS <= usize::MAX,
            chars@ == line@,
            out@.len() == sample,
            forall|s: int| 0 <= s < sample ==> #[trigger] out@[s] == sample_is_land(
                line@,
                world as int,
                samples as int,
                s,
            ),
        decreases samples - sample,
    {
        let land = if samples >= COLUMNS {
            let num: u128 = (2 * sample as u128 + 1) * 30;
            let den: u128 = 2 * samples as u128;
            let col128 = num / den;
            let col = if col128 < 29 { col128 as usize } else { 29 };
            land_in(&chars, world, col)
        } else {
            let first = sample * COLUMNS / samples;
            let end = ((sample + 1) * COLUMNS + samples - 1) / samples;
            proof {
                assert(first <= end) by (nonlinear_arith)
                    requires
                        first as int == (sample as int) * 30 / (samples as int),
                        end as int == ((sample as int + 1) * 30 + samples - 1) / (samples as int),
                        samples >= 1,
                ;
                assert(end <= 30) by (nonlinear_arith)
                    requires
                        end as int == ((sample as int + 1) * 30 + samples - 1) / (samples as int),
                        sample < samples,
                        samples < 30,
                ;
            }
            let mut occupied: usize = 0;
            let mut col = first;
            while col < end
                invariant
                    first <= col <= end,
                    end <= 30,
                    world * COLUMNS + COLUMNS <= usize::MAX,
                    chars@ == line@,
                    occupied == land_count(line@, world as int, first as int, col as int),
                    occupied <= col - first,
                decreases end - col,
            {
                if land_in(&chars, world, col) {
                    occupied += 1;
                }
                col += 1;
            }
            occupied * 2 >= end - first
        };
        out.push(land);
        sample += 1;
    }
    proof {
        assert forall|s: int, a: int, b: int|
            0 <= s < samples < COLUMNS && a * samples <= s * 30 < (a + 1) * samples && (b - 1) * samples
                < (s + 1) * 30 <= b * samples implies (#[trigger] out@[s] <==> 2 * #[trigger] rock_columns(
                line@,
                world as int,
                a,
                b,
            ) >= b - a) by {
            lemma_sparse_sample_majority(line@, world as int, samples as int, s, a, b);
        }
        assert forall|s: int, c: int|
            0 <= s < samples && samples >= COLUMNS && c * 2 * samples <= (2 * s + 1) * 30 < (c + 1) * 2
                * samples implies #[trigger] out@[s] == #[trigger] rock_column(line@, world as int, c) by {
            lemma_dense_sample_centre(line@, world as int, samples as int, s, c);
        }
    }
    out
}

proof fn lemma_max_width_bounds(lines: Seq<Seq<char>>)
    ensures
        forall|i: int| 0 <= i < lines.len() ==> #[trigger] lines[i].len() <= max_width(lines),
        lines.len() > 0 ==> exists|i: int| 0 <= i < lines.len() && #[trigger] lines[i].len() == max_width(lines),
        lines.len() == 0 ==> max_width(lines) == 0,
    decreases lines.len(),
{
    if lines.len() > 0 {
        let rest = lines.drop_last();
        lemma_max_width_bounds(rest);
        assert forall|i: int| 0 <= i < lines.len() implies #[trigger] lines[i].len() <= max_width(lines) by {
            if i < rest.len() {
                assert(lines[i] == rest[i]);
            }
        }
        if lines.last().len() > max_width(rest) {
            assert(lines[lines.len() - 1].len() == max_width(lines));
        } else if rest.len() > 0 {
            let i = choose|i: int| 0 <= i < rest.len() && #[trigger] rest[i].len() == max_width(rest);
            assert(lines[i] == rest[i]);
        } else {
            assert(lines[lines.len() - 1].len() == max_width(lines));
        }
    }
}

/// The world count is the fewest 30-column blocks that hold the map: at least one, every line
/// (trailing carriage returns aside) fits within that many blocks, and with more than one block
/// some line reaches into the last of them, so no block is counted for nothing.
pub proof fn lemma_world_count_fits(t: Seq<char>)
    ensures
        world_count_of(t) >= 1,
        forall|i: int| 0 <= i < text_lines(t).len() ==> #[trigger] trim_cr(text_lines(t)[i]).len()
            <= 30 * world_count_of(t),
        world_count_of(t) > 1 ==> exists|i: int| 0 <= i < text_lines(t).len()
            && #[trigger] trim_cr(text_lines(t)[i]).len() > 30 * (world_count_of(t) - 1),
{
    let lines = text_lines(t);
    let trimmed = lines.map_values(|l: Seq<char>| trim_cr(l));
    lemma_max_width_bounds(trimmed);
    let w = max_width(trimmed);
    let k = (w + 29) / 30;
    assert(30 * k <= w + 29 < 30 * k + 30) by (nonlinear_arith)
        requires k == (w + 29) / 30, w >= 0;
    assert forall|i: int| 0 <= i < lines.len() implies #[trigger] trim_cr(lines[i]).len()
        <= 30 * world_count_of(t) by {
        assert(trimmed[i] == trim_cr(lines[i]));
    }
    if world_count_of(t) > 1 {
        let i = choose|i: int| 0 <= i < trimmed.len() && #[trigger] trimmed[i].len() == w;
        assert(trimmed[i] == trim_cr(lines[i]));
    }
}

/// Whether column `col` of world `world` holds an `X` (either case) on the line; columns past
/// the line's end are water.
pub open spec fn rock_column(line: Seq<char>, world: int, col: int) -> bool {
    let i = 30 * world + col;
    0 <= i < line.len() && (line[i] == 'X' || line[i] == 'x')
}

/// How many of the columns `a..b` of world `world` hold rock on the line.
pub open spec fn rock_columns(line: Seq<char>, world: int, a: int, b: int) -> nat {
    Seq::new((b - a) as nat, |j: int| rock_column(line, world, a + j)).filter(|x: bool| x).len()
}

proof fn lemma_count_rock_columns(line: Seq<char>, world: int, a: int, b: int)
    requires
        a <= b,
    ensures
        rock_columns(line, world, a, b) == land_count(line, world, a, b),
    decreases b - a,
{
    reveal(Seq::filter);
    let s = Seq::new((b - a) as nat, |j: int| rock_column(line, world, a + j));
    if b > a {
        lemma_count_rock_columns(line, world, a, b - 1);
        assert(s.drop_last() =~= Seq::new((b - 1 - a) as nat, |j: int| rock_column(line, world, a + j)));
        assert(s.last() == rock_column(line, world, b - 1));
    } else {
        assert(s.len() == 0);
    }
}

/// A sparse ring (fewer samples than columns) takes a majority vote: each sample spans the
/// columns from the one where it starts (`a`) through the one where it ends (`b - 1`), and it is
/// rock exactly when at least half of those columns hold rock. One rock among three columns is
/// water; two among three, or one among two, is rock.
pub proof fn lemma_sparse_sample_majority(line: Seq<char>, world: int, samples: int, s: int, a: int, b: int)
    requires
        1 <= samples < 30,
        0 <= s < samples,
        a * samples <= s * 30 < (a + 1) * samples,
        (b - 1) * samples < (s + 1) * 30 <= b * samples,
    ensures
        0 <= a < b <= 30,
        sample_is_land(line, world, samples, s) <==> 2 * rock_columns(line, world, a, b) >= b - a,
{
    let first = s * 30 / samples;
    let end = ((s + 1) * 30 + samples - 1) / samples;
    assert(first == a) by (nonlinear_arith)
        requires
            first == s * 30 / samples,
            a * samples <= s * 30 < (a + 1) * samples,
            samples >= 1,
    {
        vstd::arithmetic::div_mod::lemma_fundamental_div_mod(s * 30, samples);
        if first < a {
            assert(first + 1 <= a);
            assert((first + 1) * samples <= a * samples);
        } else if first > a {
            assert(a + 1 <= first);
            assert((a + 1) * samples <= first * samples);
        }
    }
    assert(end == b) by (nonlinear_arith)
        requires
            end == ((s + 1) * 30 + samples - 1) / samples,
            (b - 1) * samples < (s + 1) * 30 <= b * samples,
            samples >= 1,
    {
        vstd::arithmetic::div_mod::lemma_fundamental_div_mod((s + 1) * 30 + samples - 1, samples);
        if end < b {
            assert(end + 1 <= b);
            assert(end * samples <= (b - 1) * samples);
        } else if end > b {
            assert(b + 1 <= end);
            assert((b + 1) * samples <= end * samples);
        }
    }
    assert(0 <= a < b <= 30) by (nonlinear_arith)
        requires
            a * samples <= s * 30 < (a + 1) * samples,
            (b - 1) * samples < (s + 1) * 30 <= b * samples,
            0 <= s < samples,
            samples >= 1,
    {
        if a < 0 {
            assert((a + 1) * samples <= 0);
        }
        if b <= a {
            assert(b * samples <= a * samples);
        }
        if b > 30 {
            assert(30 * samples <= (b - 1) * samples);
            assert((s + 1) * 30 <= samples * 30);
        }
    }
    lemma_count_rock_columns(line, world, a, b);
    assert forall|c: int| a <= c < b implies #[trigger] land_at(line, world, c) == rock_column(line, world, c) by {}
}

/// A dense ring (at least one sample per column) reads, for each sample, the column that holds
/// the sample's centre: the column `c` with c/30 <= (2s + 1)/(2 samples) < (c + 1)/30.
pub proof fn lemma_dense_sample_centre(line: Seq<char>, world: int, samples: int, s: int, c: int)
    requires
        samples >= 30,
        0 <= s < samples,
        c * 2 * samples <= (2 * s + 1) * 30 < (c + 1) * 2 * samples,
    ensures
        0 <= c < 30,
        sample_is_land(line, world, samples, s) == rock_column(line, world, c),
{
    let col = ((2 * s + 1) * 30) / (2 * samples);
    assert(col == c && 0 <= c < 30) by (nonlinear_arith)
        requires
            col == ((2 * s + 1) * 30) / (2 * samples),
            c * 2 * samples <= (2 * s + 1) * 30 < (c + 1) * 2 * samples,
            0 <= s < samples,
            samples >= 30,
    {
        vstd::arithmetic::div_mod::lemma_fundamental_div_mod((2 * s + 1) * 30, 2 * samples);
        if col < c {
            assert(col + 1 <= c);
            assert((col + 1) * (2 * samples) <= c * (2 * samples));
        } else if col > c {
            assert(c + 1 <= col);
            assert((c + 1) * (2 * samples) <= col * (2 * samples));
        }
        if c < 0 {
            assert((c + 1) * 2 * samples <= 0);
        }
        if c >= 30 {
            assert(30 * 2 * samples <= c * 2 * samples);
            assert((2 * s + 1) * 30 < 2 * samples * 30);
        }
    }
}

} // verus!
