//! Conway's game of life on a rectangular board read from a text map.
//!
//! A map is text whose lines are board rows: `*` is a live cell and `_` a
//! dead one. Lines end in `\n` or `\r\n`; the last line ending is optional.
use vstd::prelude::*;
use vstd::string::StringSliceAdditionalSpecFns;

verus! {

pub const NEWLINE: u8 = 10;

pub const CARRIAGE_RETURN: u8 = 13;

pub const LIVE: u8 = 42;

pub const DEAD: u8 = 95;

/// A line without the `\r` of a `\r\n` ending.
pub open spec fn strip_cr(line: Seq<u8>) -> Seq<u8> {
    if line.len() > 0 && line.last() == CARRIAGE_RETURN {
        line.drop_last()
    } else {
        line
    }
}

/// Reads `b` from the left: the lines closed by a `\n` so far, and the bytes
/// of the line still open.
pub open spec fn scan_lines(b: Seq<u8>) -> (Seq<Seq<u8>>, Seq<u8>)
    decreases b.len(),
{
    if b.len() == 0 {
        (Seq::empty(), Seq::empty())
    } else {
        let p = scan_lines(b.drop_last());
        if b.last() == NEWLINE {
            (p.0.push(strip_cr(p.1)), Seq::empty())
        } else {
            (p.0, p.1.push(b.last()))
        }
    }
}

/// The lines of a text, as `str::lines` yields them: split at `\n`, a `\r`
/// before the `\n` dropped, and no empty line after a final `\n`.
pub open spec fn map_lines(b: Seq<u8>) -> Seq<Seq<u8>> {
    let p = scan_lines(b);
    if p.1.len() == 0 {
        p.0
    } else {
        p.0.push(p.1)
    }
}

/// Every line of the map is as long as the first.
pub open spec fn consistent_width(b: Seq<u8>) -> bool {
    forall|k: int| 0 <= k < map_lines(b).len() ==> #[trigger] map_lines(b)[k].len() == map_lines(b)[0].len()
}

/// Every byte of the map is a cell, a `\n`, or a `\r` that starts a `\r\n`.
pub open spec fn valid_cells(b: Seq<u8>) -> bool {
    forall|i: int|
        0 <= i < b.len() ==> {
            let c = #[trigger] b[i];
            c == LIVE || c == DEAD || c == NEWLINE || (c == CARRIAGE_RETURN && i + 1 < b.len() && b[i
                + 1] == NEWLINE)
        }
}

/// The cells of a map in reading order, `true` for a live one.
pub open spec fn map_cells(b: Seq<u8>) -> Seq<bool>
    decreases b.len(),
{
    if b.len() == 0 {
        Seq::empty()
    } else {
        let rest = map_cells(b.drop_last());
        if b.last() == LIVE {
            rest.push(true)
        } else if b.last() == DEAD {
            rest.push(false)
        } else {
            rest
        }
    }
}

/// Width and height of a map: the length of its first line (0 for an empty
/// map) and its number of lines.
pub fn find_dimensions(map: &str) -> (r: (usize, usize))
    requires
        consistent_width(map.spec_bytes()),
    ensures
        r.1 == map_lines(map.spec_bytes()).len(),
        r.0 == if r.1 == 0 {
            0
        } else {
            map_lines(map.spec_bytes())[0].len()
        },
{
    let bytes = map.as_bytes();
    let ghost b = map.spec_bytes();
    let mut x: usize = 0;
    let mut y: usize = 0;
    let mut start: usize = 0;
    let mut i: usize = 0;
    while i < bytes.len()
        invariant
            b == bytes@,
            0 <= start <= i <= b.len(),
            y <= start,
            scan_lines(b.take(i as int)).0.len() == y,
            scan_lines(b.take(i as int)).1 == b.subrange(start as int, i as int),
            y == 0 ==> x == 0,
            y > 0 ==> x == scan_lines(b.take(i as int)).0[0].len(),
        decreases b.len() - i,
    {
        proof {
            assert(b.take(i + 1).drop_last() =~= b.take(i as int));
        }
        if bytes[i] == NEWLINE {
            let width: usize = if i > start && bytes[i - 1] == CARRIAGE_RETURN {
                i - start - 1
            } else {
                i - start
            };
            proof {
                let cur = b.subrange(start as int, i as int);
                if i > start {
                    assert(cur.last() == b[i - 1]);
                }
                assert(strip_cr(cur).len() == width);
            }
            if y == 0 {
                x = width;
            }
            y = y + 1;
            start = i + 1;
            proof {
                assert(b.subrange(start as int, i + 1) =~= Seq::<u8>::empty());
            }
        } else {
            proof {
                assert(b.subrange(start as int, i + 1) =~= b.subrange(start as int, i as int).push(
                    b[i as int],
                ));
            }
        }
        i = i + 1;
    }
    proof {
        assert(b.take(i as int) =~= b);
        let p = scan_lines(b);
        if start < b.len() {
            assert(p.0.push(p.1)[y as int] == p.1);
            if y > 0 {
                assert(p.0.push(p.1)[0] == p.0[0]);
            }
        }
    }
    if start < bytes.len() {
        if y == 0 {
            x = bytes.len() - start;
        }
        y = y + 1;
    }
    (x, y)
}

/// Why a text is not a map.
#[derive(PartialEq, Eq, Structural, Clone, Copy, Debug)]
pub enum MapError {
    /// Some line is not as wide as the first.
    InconsistentWidth,
    /// Some byte is neither a cell nor part of a line ending.
    InvalidChar,
}

fn widths_consistent(bytes: &[u8]) -> (ok: bool)
    ensures
        ok == consistent_width(bytes@),
{
    let ghost b = bytes@;
    let mut ok = true;
    let mut x: usize = 0;
    let mut y: usize = 0;
    let mut start: usize = 0;
    let mut i: usize = 0;
    while i < bytes.len()
        invariant
            b == bytes@,
            0 <= start <= i <= b.len(),
            y <= start,
            scan_lines(b.take(i as int)).0.len() == y,
            scan_lines(b.take(i as int)).1 == b.subrange(start as int, i as int),
            y > 0 ==> x == scan_lines(b.take(i as int)).0[0].len(),
            ok == forall|k: int|
                0 <= k < y ==> #[trigger] scan_lines(b.take(i as int)).0[k].len() == x,
        decreases b.len() - i,
    {
        proof {
            assert(b.take(i + 1).drop_last() =~= b.take(i as int));
        }
        let ghost done = scan_lines(b.take(i as int)).0;
        if bytes[i] == NEWLINE {
            let width: usize = if i > start && bytes[i - 1] == CARRIAGE_RETURN {
                i - start - 1
            } else {
                i - start
            };
            proof {
                let cur = b.subrange(start as int, i as int);
                if i > start {
                    assert(cur.last() == b[i - 1]);
                }
                assert(strip_cr(cur).len() == width);
            }
            if y == 0 {
                x = width;
            } else if width != x {
                ok = false;
            }
            proof {
                let next = scan_lines(b.take(i + 1)).0;
                assert(next == done.push(strip_cr(b.subrange(start as int, i as int))));
                if ok {
                    assert forall|k: int| 0 <= k < y + 1 implies #[trigger] next[k].len() == x by {
                        if k < y {
                            assert(next[k] == done[k]);
                        }
                    }
                } else {
                    if y > 0 && width != x {
                        assert(next[y as int].len() != x);
                    } else {
                        let k = choose|k: int| 0 <= k < y && #[trigger] done[k].len() != x;
                        assert(next[k] == done[k]);
                    }
                }
            }
            y = y + 1;
            start = i + 1;
            proof {
                assert(b.subrange(start as int, i + 1) =~= Seq::<u8>::empty());
            }
        } else {
            proof {
                assert(b.subrange(start as int, i + 1) =~= b.subrange(start as int, i as int).push(
                    b[i as int],
                ));
            }
        }
        i = i + 1;
    }
    proof {
        assert(b.take(i as int) =~= b);
    }
    let ghost done = scan_lines(b).0;
    if start < bytes.len() {
        if y > 0 && bytes.len() - start != x {
            ok = false;
        }
        proof {
            let lines = map_lines(b);
            assert(lines == done.push(scan_lines(b).1));
            if y == 0 {
                assert(lines.len() == 1);
            } else if ok {
                assert forall|k: int| 0 <= k < lines.len() implies #[trigger] lines[k].len()
                    == lines[0].len() by {
                    if k < y {
                        assert(lines[k] == done[k]);
                    }
                    assert(lines[0] == done[0]);
                }
            } else {
                assert(lines[0] == done[0]);
                if bytes.len() - start != x {
                    assert(lines[y as int].len() != lines[0].len());
                } else {
                    let k = choose|k: int| 0 <= k < y && #[trigger] done[k].len() != x;
                    assert(lines[k] == done[k]);
                }
            }
        }
    } else {
        proof {
            let lines = map_lines(b);
            if y > 0 {
                if ok {
                    assert forall|k: int| 0 <= k < lines.len() implies #[trigger] lines[k].len()
                        == lines[0].len() by {}
                } else {
                    let k = choose|k: int| 0 <= k < y && #[trigger] done[k].len() != x;
                    assert(lines[k].len() != lines[0].len());
                }
            }
        }
    }
    ok
}

fn cells_valid(bytes: &[u8]) -> (ok: bool)
    ensures
        ok == valid_cells(bytes@),
{
    let ghost b = bytes@;
    let mut i: usize = 0;
    while i < bytes.len()
        invariant
            b == bytes@,
            0 <= i <= b.len(),
            forall|j: int|
                0 <= j < i ==> {
                    let c = #[trigger] b[j];
                    c == LIVE || c == DEAD || c == NEWLINE || (c == CARRIAGE_RETURN && j + 1
                        < b.len() && b[j + 1] == NEWLINE)
                },
        decreases b.len() - i,
    {
        let c = bytes[i];
        if !(c == LIVE || c == DEAD || c == NEWLINE || (c == CARRIAGE_RETURN && i + 1 < bytes.len()
            && bytes[i + 1] == NEWLINE)) {
            return false;
        }
        i = i + 1;
    }
    true
}

/// Whether a text is a map that `find_dimensions` and `read_state` accept:
/// a width error is reported before a character error.
pub fn check_map(map: &str) -> (r: Result<(), MapError>)
    ensures
        r is Ok <==> consistent_width(map.spec_bytes()) && valid_cells(map.spec_bytes()),
        r == Err::<(), MapError>(MapError::InconsistentWidth) <==> !consistent_width(
            map.spec_bytes(),
        ),
        r == Err::<(), MapError>(MapError::InvalidChar) <==> consistent_width(map.spec_bytes())
            && !valid_cells(map.spec_bytes()),
{
    let bytes = map.as_bytes();
    if !widths_consistent(bytes) {
        Err(MapError::InconsistentWidth)
    } else if !cells_valid(bytes) {
        Err(MapError::InvalidChar)
    } else {
        Ok(())
    }
}

/// The cells of a map in reading order, `true` for a live one.
pub fn read_state(map: &str) -> (state: Vec<bool>)
    requires
        valid_cells(map.spec_bytes()),
    ensures
        state@ == map_cells(map.spec_bytes()),
{
    let bytes = map.as_bytes();
    let ghost b = map.spec_bytes();
    let mut state: Vec<bool> = Vec::new();
    let mut i: usize = 0;
    while i < bytes.len()
        invariant
            b == bytes@,
            0 <= i <= b.len(),
            state@ == map_cells(b.take(i as int)),
        decreases b.len() - i,
    {
        proof {
            assert(b.take(i + 1).drop_last() =~= b.take(i as int));
        }
        let chr = bytes[i];
        if chr == DEAD {
            state.push(false);
        } else if chr == LIVE {
            state.push(true);
        }
        i = i + 1;
    }
    proof {
        assert(b.take(i as int) =~= b);
    }
    state
}

/// Whether the cell in column `x`, row `y` of a board `w` cells wide and `h`
/// high is alive; a place off the board holds no live cell.
pub open spec fn alive_at(s: Seq<bool>, w: int, h: int, x: int, y: int) -> bool {
    0 <= x < w && 0 <= y < h && s[y * w + x]
}

pub open spec fn count(b: bool) -> nat {
    if b {
        1
    } else {
        0
    }
}

/// The number of live cells among the eight around cell `i`, with one
/// exception: on the bottom row the east neighbour is not counted.
pub open spec fn live_neighbors(s: Seq<bool>, w: int, h: int, i: int) -> nat {
    let x = i % w;
    let y = i / w;
    count(alive_at(s, w, h, x - 1, y - 1)) + count(alive_at(s, w, h, x, y - 1)) + count(
        alive_at(s, w, h, x + 1, y - 1),
    ) + count(alive_at(s, w, h, x - 1, y)) + count(alive_at(s, w, h, x + 1, y) && y + 1 < h) + count(
        alive_at(s, w, h, x - 1, y + 1),
    ) + count(alive_at(s, w, h, x, y + 1)) + count(alive_at(s, w, h, x + 1, y + 1))
}

/// The state of cell `i` one generation on: a live cell with two or three live
/// neighbours lives on, a dead cell with exactly three comes alive, and every
/// other cell is dead.
pub open spec fn next_cell(s: Seq<bool>, w: int, h: int, i: int) -> bool {
    let n = live_neighbors(s, w, h, i);
    if s[i] {
        n == 2 || n == 3
    } else {
        n == 3
    }
}

/// The board one generation on.
pub open spec fn next_board(s: Seq<bool>, w: int, h: int) -> Seq<bool> {
    Seq::new(s.len(), |i: int| next_cell(s, w, h, i))
}

proof fn lemma_cell_index(w: int, h: int, i: int)
    requires
        0 <= w,
        0 <= h,
        0 <= i < w * h,
    ensures
        ({
            let x = i % w;
            let y = i / w;
            &&& 0 <= x < w
            &&& 0 <= y < h
            &&& y * w + x == i
            &&& (y - 1) * w + x == i - w
            &&& (y + 1) * w + x == i + w
            &&& y >= 1 ==> i >= w + x
            &&& y + 1 < h ==> i + w + (w - x) <= w * h
        }),
{
    let x = i % w;
    let y = i / w;
    assert(w > 0) by (nonlinear_arith)
        requires
            0 <= w,
            0 <= h,
            0 <= i < w * h,
    ;
    vstd::arithmetic::div_mod::lemma_fundamental_div_mod(i, w);
    assert(y * w == w * y) by (nonlinear_arith);
    assert((y - 1) * w == y * w - w) by (nonlinear_arith);
    assert((y + 1) * w == y * w + w) by (nonlinear_arith);
    assert(0 <= y < h) by (nonlinear_arith)
        requires
            i == w * y + x,
            0 <= x < w,
            0 <= i < w * h,
    ;
    assert(y >= 1 ==> y * w >= w) by (nonlinear_arith)
        requires
            0 <= w,
    ;
    assert(y + 1 < h ==> (y + 1) * w + w <= h * w) by (nonlinear_arith)
        requires
            0 <= w,
    ;
    assert(h * w == w * h) by (nonlinear_arith);
}

/// `live_neighbors` in terms of indices into the row-major board.
proof fn lemma_neighbor_indices(s: Seq<bool>, w: int, h: int, i: int)
    requires
        0 <= w,
        0 <= h,
        s.len() == w * h,
        0 <= i < s.len(),
    ensures
        ({
            let x = i % w;
            let y = i / w;
            live_neighbors(s, w, h, i) == count(x > 0 && y > 0 && s[i - 1 - w]) + count(
                y > 0 && s[i - w],
            ) + count(x < w - 1 && y > 0 && s[i + 1 - w]) + count(x > 0 && s[i - 1]) + count(
                x < w - 1 && y < h - 1 && s[i + 1],
            ) + count(x > 0 && y < h - 1 && s[i - 1 + w]) + count(y < h - 1 && s[i + w]) + count(
                x < w - 1 && y < h - 1 && s[i + 1 + w],
            )
        }),
{
    lemma_cell_index(w, h, i);
}

fn count_live_neighbors(state: &Vec<bool>, map_x: usize, map_y: usize, i: usize) -> (n: u8)
    requires
        state@.len() == map_x * map_y,
        state@.len() <= usize::MAX,
        i < state@.len(),
    ensures
        n as nat == live_neighbors(state@, map_x as int, map_y as int, i as int),
{
    let cur_x = i % map_x;
    let cur_y = i / map_x;
    let ghost s = state@;
    let ghost w = map_x as int;
    let ghost h = map_y as int;
    proof {
        lemma_cell_index(w, h, i as int);
        lemma_neighbor_indices(s, w, h, i as int);
    }
    let mut live_neighbors: u8 = 0;
    // west
    if cur_x > 0 && state[i - 1] {
        live_neighbors += 1;
    }
    // northwest
    if cur_x > 0 && cur_y > 0 && state[i - 1 - map_x] {
        live_neighbors += 1;
    }
    // north
    if cur_y > 0 && state[i - map_x] {
        live_neighbors += 1;
    }
    // northeast
    if cur_x < map_x - 1 && cur_y > 0 && state[i + 1 - map_x] {
        live_neighbors += 1;
    }
    // east
    if cur_x < map_x - 1 && cur_y < map_y - 1 && state[i + 1] {
        live_neighbors += 1;
    }
    // southeast
    if cur_x < map_x - 1 && cur_y < map_y - 1 && state[i + 1 + map_x] {
        live_neighbors += 1;
    }
    // south
    if cur_y < map_y - 1 && state[i + map_x] {
        live_neighbors += 1;
    }
    // southwest
    if cur_x > 0 && cur_y < map_y - 1 && state[i - 1 + map_x] {
        live_neighbors += 1;
    }
    live_neighbors
}

/// Advances the board by one generation; `map_x` is its width and `map_y`
/// its height.
pub fn evolve_state(state: &mut Vec<bool>, map_x: usize, map_y: usize)
    requires
        old(state)@.len() == map_x * map_y,
    ensures
        final(state)@ == next_board(old(state)@, map_x as int, map_y as int),
{
    let mut next: Vec<bool> = Vec::new();
    let mut i: usize = 0;
    while i < state.len()
        invariant
            state@.len() == map_x * map_y,
            0 <= i <= state@.len(),
            next@ =~= next_board(state@, map_x as int, map_y as int).take(i as int),
        decreases state@.len() - i,
    {
        let live_neighbors = count_live_neighbors(state, map_x, map_y, i);
        let alive = if state[i] {
            live_neighbors == 2 || live_neighbors == 3
        } else {
            live_neighbors == 3
        };
        next.push(alive);
        i = i + 1;
    }
    *state = next;
}

/// Total length of a sequence of lines.
pub open spec fn total_len(lines: Seq<Seq<u8>>) -> nat
    decreases lines.len(),
{
    if lines.len() == 0 {
        0
    } else {
        total_len(lines.drop_last()) + lines.last().len()
    }
}

proof fn lemma_total_len_uniform(lines: Seq<Seq<u8>>, w: nat)
    requires
        forall|k: int| 0 <= k < lines.len() ==> #[trigger] lines[k].len() == w,
    ensures
        total_len(lines) == lines.len() * w,
    decreases lines.len(),
{
    if lines.len() > 0 {
        lemma_total_len_uniform(lines.drop_last(), w);
        assert(lines.len() * w == (lines.len() - 1) * w + w) by (nonlinear_arith);
    }
}

proof fn lemma_cells_per_prefix(b: Seq<u8>, i: int)
    requires
        valid_cells(b),
        0 <= i <= b.len(),
    ensures
        ({
            let p = scan_lines(b.take(i));
            &&& p.1.len() <= i
            &&& p.1.len() > 0 ==> p.1.last() == b[i - 1]
            &&& map_cells(b.take(i)).len() == total_len(p.0) + strip_cr(p.1).len()
        }),
    decreases i,
{
    if i > 0 {
        lemma_cells_per_prefix(b, i - 1);
        assert(b.take(i).drop_last() =~= b.take(i - 1));
        let p = scan_lines(b.take(i - 1));
        let c = b[i - 1];
        assert(b.take(i).last() == c);
        if p.1.len() > 0 && p.1.last() == CARRIAGE_RETURN {
            assert(b[i - 2] == CARRIAGE_RETURN);
            assert(c == NEWLINE);
        }
        if c == NEWLINE {
            let q = scan_lines(b.take(i));
            assert(q.0 == p.0.push(strip_cr(p.1)));
            assert(q.0.drop_last() =~= p.0);
        } else {
            assert(strip_cr(p.1) == p.1);
            assert(p.1.push(c).drop_last() =~= p.1);
        }
    } else {
        assert(b.take(0) =~= Seq::<u8>::empty());
    }
}

/// A map whose bytes are all cells and line endings, and whose lines are all
/// as wide as the first, has width × height cells, as `find_dimensions`
/// measures it: `read_state` of it is a board that `evolve_state` accepts.
pub proof fn lemma_cells_fill_board(b: Seq<u8>)
    requires
        valid_cells(b),
        consistent_width(b),
    ensures
        ({
            let lines = map_lines(b);
            let width = if lines.len() == 0 {
                0
            } else {
                lines[0].len()
            };
            map_cells(b).len() == width * lines.len()
        }),
{
    lemma_cells_per_prefix(b, b.len() as int);
    assert(b.take(b.len() as int) =~= b);
    let p = scan_lines(b);
    let lines = map_lines(b);
    if p.1.len() > 0 {
        if p.1.last() == CARRIAGE_RETURN {
            assert(b[b.len() - 1] == CARRIAGE_RETURN);
        }
        assert(strip_cr(p.1) == p.1);
        assert(lines.drop_last() =~= p.0);
    }
    assert(total_len(lines) == map_cells(b).len());
    if lines.len() > 0 {
        let w = lines[0].len();
        assert(forall|k: int| 0 <= k < lines.len() ==> #[trigger] lines[k].len() == w);
        lemma_total_len_uniform(lines, w);
        assert(lines.len() * w == w * lines.len()) by (nonlinear_arith);
    }
}

/// The screen rectangles `(x, y, width, height)` of the live cells among the
/// first `s.len()` cells of a board `map_x` cells wide, for cells `cw` by `ch`
/// pixels laid out in rows from the top left.
pub open spec fn live_cell_rects(s: Seq<bool>, map_x: int, cw: int, ch: int) -> Seq<
    (u32, u32, u32, u32),
>
    decreases s.len(),
{
    if s.len() == 0 {
        Seq::empty()
    } else {
        let rest = live_cell_rects(s.drop_last(), map_x, cw, ch);
        let i = s.len() - 1;
        if s.last() {
            rest.push((((i % map_x) * cw) as u32, ((i / map_x) * ch) as u32, cw as u32, ch as u32))
        } else {
            rest
        }
    }
}

/// Where to draw the live cells of a `map_x` by `map_y` board on a `win_x` by
/// `win_y` window: each cell gets an equal share of the window, rounded down.
pub fn cell_rects(state: &Vec<bool>, map_x: usize, map_y: usize, win_x: u32, win_y: u32) -> (r: Vec<
    (u32, u32, u32, u32),
>)
    requires
        state@.len() == map_x * map_y,
        0 < map_x <= win_x,
        0 < map_y <= u32::MAX,
    ensures
        r@ == live_cell_rects(
            state@,
            map_x as int,
            (win_x / map_x as u32) as int,
            (win_y / map_y as u32) as int,
        ),
{
    let cell_width = win_x / map_x as u32;
    let cell_height = win_y / map_y as u32;
    let ghost m = map_x as int;
    let ghost cw = cell_width as int;
    let ghost ch = cell_height as int;
    proof {
        assert(cw * m <= win_x) by (nonlinear_arith)
            requires
                cw == (win_x as int) / m,
                m > 0,
        {
            vstd::arithmetic::div_mod::lemma_fundamental_div_mod(win_x as int, m);
            assert(m * ((win_x as int) / m) == cw * m);
        }
        assert(ch * map_y <= win_y) by (nonlinear_arith)
            requires
                ch == (win_y as int) / (map_y as int),
                map_y > 0,
        {
            vstd::arithmetic::div_mod::lemma_fundamental_div_mod(win_y as int, map_y as int);
            assert(map_y * ((win_y as int) / (map_y as int)) == ch * map_y);
        }
        assert(cw >= 1) by (nonlinear_arith)
            requires
                cw == (win_x as int) / m,
                0 < m <= win_x,
        {
            vstd::arithmetic::div_mod::lemma_fundamental_div_mod(win_x as int, m);
        }
        vstd::arithmetic::div_mod::lemma_fundamental_div_mod_converse(0, m, 0, 0);
    }
    let row_width = cell_width * map_x as u32;
    let mut rects: Vec<(u32, u32, u32, u32)> = Vec::new();
    let mut cur_x: u32 = 0;
    let mut cur_y: u32 = 0;
    let mut i: usize = 0;
    while i < state.len()
        invariant
            state@.len() == map_x * map_y,
            m == map_x,
            m > 0,
            cw == cell_width,
            ch == cell_height,
            row_width == cw * m,
            cw * m <= win_x,
            cw >= 1,
            ch * map_y <= win_y,
            0 <= i <= state@.len(),
            cur_x == ((i as int) % m) * cw,
            cur_y == ((i as int) / m) * ch,
            rects@ == live_cell_rects(state@.take(i as int), m, cw, ch),
        decreases state@.len() - i,
    {
        proof {
            assert(state@.take(i + 1).drop_last() =~= state@.take(i as int));
            vstd::arithmetic::div_mod::lemma_fundamental_div_mod(i as int, m);
            assert((i as int) / m < map_y) by (nonlinear_arith)
                requires
                    i as int == m * ((i as int) / m) + (i as int) % m,
                    0 <= (i as int) % m,
                    i < m * map_y,
                    m > 0,
            ;
            assert(((i as int) % m) * cw + cw <= cw * m) by (nonlinear_arith)
                requires
                    (i as int) % m < m,
                    0 <= cw,
            ;
            assert(((i as int) / m) * ch + ch <= ch * map_y) by (nonlinear_arith)
                requires
                    (i as int) / m < map_y,
                    0 <= ch,
            ;
        }
        if state[i] {
            rects.push((cur_x, cur_y, cell_width, cell_height));
        }
        proof {
            if (i as int) % m + 1 < m {
                vstd::arithmetic::div_mod::lemma_fundamental_div_mod_converse(
                    i as int + 1,
                    m,
                    (i as int) / m,
                    (i as int) % m + 1,
                );
            } else {
                assert(m * ((i as int) / m) + m == ((i as int) / m + 1) * m) by (nonlinear_arith);
                vstd::arithmetic::div_mod::lemma_fundamental_div_mod_converse(
                    i as int + 1,
                    m,
                    (i as int) / m + 1,
                    0,
                );
            }
            assert(((i as int) % m + 1) * cw == ((i as int) % m) * cw + cw) by (nonlinear_arith);
            assert((i as int) % m + 1 < m ==> ((i as int) % m + 1) * cw < cw * m) by (nonlinear_arith)
                requires
                    cw >= 1,
            ;
            assert((i as int) % m + 1 == m ==> ((i as int) % m + 1) * cw == cw * m) by (
            nonlinear_arith);
            assert(((i as int) / m + 1) * ch == ((i as int) / m) * ch + ch) by (nonlinear_arith);
        }
        cur_x = cur_x + cell_width;
        if cur_x >= row_width {
            cur_x = 0;
            cur_y = cur_y + cell_height;
        }
        i = i + 1;
    }
    proof {
        assert(state@.take(i as int) =~= state@);
    }
    rects
}

} // verus!
