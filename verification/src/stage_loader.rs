//! The stage loader: parses a text map into initial entity placements.
//!
//! The stage resource is plain text: rows separated by newlines (an optional
//! carriage return before each newline is tolerated), the whole text trimmed
//! of surrounding whitespace.  Each remaining character places exactly one
//! thing: `#` a wall, `@` the player start, `G` a goal, `B` a baggage item,
//! `.` empty floor.  Any other character, a ragged row, a duplicate player
//! or an entirely empty map is a fatal [`MapParseError`]; a corrupt map is
//! never partially loaded.
//!
//! Row index `r` maps to grid coordinate `y = r`, column index `c` to
//! `x = c` (see the crate root).  After parsing, [`from_map`] synthesizes a
//! border of invisible obstacle cells one unit beyond every edge of the
//! parsed rectangle (corners excluded: cardinal movement cannot reach
//! them).  Purely presentational floor decoration is left to the caller.

use vstd::prelude::*;

use crate::basics::{Goal, Movable, Player, TagSet, Wall, WallInvisible};
use crate::win_system::won;
use crate::grid2d::Grid2D;
use crate::stage::{Entity, Stage};

verus! {

/// Newline, the row separator.
pub const NL: u8 = 10;

/// Carriage return, tolerated before a newline.
pub const CR: u8 = 13;

/// `#`: a wall.
pub const WALL_CH: u8 = 35;

/// `@`: the player start.
pub const PLAYER_CH: u8 = 64;

/// `G`: a goal.
pub const GOAL_CH: u8 = 71;

/// `B`: a baggage item.
pub const BAGGAGE_CH: u8 = 66;

/// `.`: empty floor.
pub const FLOOR_CH: u8 = 46;

/// The ASCII whitespace trimmed from the surroundings of a map text.
pub open spec fn is_ws(b: u8) -> bool {
    b == 32 || b == 9 || b == NL || b == CR
}

/// `s` without leading whitespace.
pub open spec fn trim_front(s: Seq<u8>) -> Seq<u8>
    decreases s.len(),
{
    if s.len() > 0 && is_ws(s[0]) {
        trim_front(s.drop_first())
    } else {
        s
    }
}

/// `s` without trailing whitespace.
pub open spec fn trim_back(s: Seq<u8>) -> Seq<u8>
    decreases s.len(),
{
    if s.len() > 0 && is_ws(s.last()) {
        trim_back(s.drop_last())
    } else {
        s
    }
}

/// `s` without surrounding whitespace.
pub open spec fn trimmed(s: Seq<u8>) -> Seq<u8> {
    trim_back(trim_front(s))
}

/// `s` split at every newline; always at least one (possibly empty) row.
pub open spec fn split_nl(s: Seq<u8>) -> Seq<Seq<u8>>
    decreases s.len(),
{
    if s.len() == 0 {
        seq![Seq::<u8>::empty()]
    } else if s[0] == NL {
        seq![Seq::<u8>::empty()] + split_nl(s.drop_first())
    } else {
        let rest = split_nl(s.drop_first());
        seq![seq![s[0]] + rest[0]] + rest.drop_first()
    }
}

/// A row without its trailing carriage return, if it carries one.
pub open spec fn strip_cr(r: Seq<u8>) -> Seq<u8> {
    if r.len() > 0 && r.last() == CR {
        r.drop_last()
    } else {
        r
    }
}

/// The character grid a map text denotes: trim, split at newlines, strip
/// one trailing carriage return per row.
pub open spec fn grid_of(text: Seq<u8>) -> Seq<Seq<u8>> {
    split_nl(trimmed(text)).map_values(|r: Seq<u8>| strip_cr(r))
}

/// The views of a vector of byte rows.
pub open spec fn rows_view(rows: Seq<Vec<u8>>) -> Seq<Seq<u8>> {
    rows.map_values(|r: Vec<u8>| r@)
}

/// Splitting yields at least one row, never more rows than bytes plus one,
/// and no row longer than the input.
pub proof fn lemma_split_nl_bounds(s: Seq<u8>)
    ensures
        1 <= split_nl(s).len() <= s.len() + 1,
        forall|i: int|
            0 <= i < split_nl(s).len() ==> (#[trigger] split_nl(s)[i]).len() <= s.len(),
    decreases s.len(),
{
    if s.len() == 0 {
    } else {
        lemma_split_nl_bounds(s.drop_first());
    }
}

/// Splitting a text extended by one non-newline byte extends its last row.
pub proof fn lemma_split_nl_push_byte(s: Seq<u8>, b: u8)
    requires
        b != NL,
    ensures
        split_nl(s.push(b)) =~~= split_nl(s).update(
            split_nl(s).len() - 1,
            split_nl(s).last().push(b),
        ),
    decreases s.len(),
{
    lemma_split_nl_bounds(s);
    if s.len() == 0 {
        reveal_with_fuel(split_nl, 2);
        assert(s.push(b) =~= seq![b]);
        assert(seq![b].drop_first() =~= Seq::<u8>::empty());
        assert(split_nl(seq![b]) =~~= seq![seq![b]]);
        assert(Seq::<u8>::empty().push(b) =~= seq![b]);
    } else {
        let sp = s.push(b);
        assert(sp[0] == s[0]);
        assert(sp.drop_first() =~= s.drop_first().push(b));
        lemma_split_nl_push_byte(s.drop_first(), b);
        lemma_split_nl_bounds(s.drop_first());
        if s[0] == NL {
            assert(split_nl(sp) =~~= seq![Seq::<u8>::empty()] + split_nl(s.drop_first().push(b)));
        } else {
            let rest = split_nl(s.drop_first());
            let restp = split_nl(s.drop_first().push(b));
            if rest.len() == 1 {
                assert(restp =~~= rest.update(0, rest.last().push(b)));
                assert(restp[0] == rest[0].push(b));
                assert(restp.drop_first() =~~= rest.drop_first());
            } else {
                assert(restp[0] == rest[0]);
                assert(restp.drop_first() =~~= rest.drop_first().update(
                    rest.len() - 2,
                    rest.last().push(b),
                ));
            }
        }
    }
}

/// Splitting a text extended by a newline appends one empty row.
pub proof fn lemma_split_nl_push_nl(s: Seq<u8>)
    ensures
        split_nl(s.push(NL)) =~~= split_nl(s).push(Seq::<u8>::empty()),
    decreases s.len(),
{
    lemma_split_nl_bounds(s);
    if s.len() == 0 {
        reveal_with_fuel(split_nl, 2);
        assert(s.push(NL) =~= seq![NL]);
        assert(seq![NL].drop_first() =~= Seq::<u8>::empty());
        assert(split_nl(seq![NL]) =~~= seq![Seq::<u8>::empty(), Seq::<u8>::empty()]);
        assert(split_nl(s).push(Seq::<u8>::empty()) =~~= seq![
            Seq::<u8>::empty(),
            Seq::<u8>::empty(),
        ]);
    } else {
        let sp = s.push(NL);
        assert(sp[0] == s[0]);
        assert(sp.drop_first() =~= s.drop_first().push(NL));
        lemma_split_nl_push_nl(s.drop_first());
        lemma_split_nl_bounds(s.drop_first());
        if s[0] == NL {
        } else {
            let rest = split_nl(s.drop_first());
            let restp = split_nl(s.drop_first().push(NL));
            assert(restp[0] == rest[0]);
            assert(restp.drop_first() =~~= rest.drop_first().push(Seq::<u8>::empty()));
        }
    }
}

/// Whether `b` is ASCII whitespace.
fn is_ws_byte(b: u8) -> (r: bool)
    ensures
        r == is_ws(b),
{
    b == 32 || b == 9 || b == NL || b == CR
}

/// Trims surrounding ASCII whitespace from `text`.
fn trim(text: &[u8]) -> (out: &[u8])
    ensures
        out@ =~= trimmed(text@),
{
    let n = text.len();
    let mut a: usize = 0;
    while a < n && is_ws_byte(text[a])
        invariant
            n == text@.len(),
            a <= n,
            forall|i: int| 0 <= i < a ==> is_ws(text@[i]),
        decreases n - a,
    {
        a = a + 1;
    }
    proof {
        lemma_trim_front_skip(text@, a as int);
    }
    let mut e: usize = n;
    while e > a && is_ws_byte(text[e - 1])
        invariant
            n == text@.len(),
            a <= e <= n,
            forall|i: int| e <= i < n ==> is_ws(text@[i]),
            a < n ==> !is_ws(text@[a as int]),
        decreases e,
    {
        e = e - 1;
    }
    proof {
        lemma_trim_back_take(text@.subrange(a as int, n as int), (e - a) as int);
        assert(text@.subrange(a as int, n as int).subrange(0, (e - a) as int) =~= text@.subrange(
            a as int,
            e as int,
        ));
    }
    vstd::slice::slice_subrange(text, a, e)
}

/// `trim_front` drops exactly the leading whitespace.
proof fn lemma_trim_front_skip(s: Seq<u8>, a: int)
    requires
        0 <= a <= s.len(),
        forall|i: int| 0 <= i < a ==> is_ws(#[trigger] s[i]),
        a < s.len() ==> !is_ws(s[a]),
    ensures
        trim_front(s) =~= s.skip(a),
    decreases a,
{
    if a == 0 {
        if s.len() > 0 && is_ws(s[0]) {
            assert(false);
        }
        assert(s.skip(0) =~= s);
    } else {
        assert(is_ws(s[0]));
        let d = s.drop_first();
        assert(d =~= s.skip(1));
        lemma_trim_front_skip(d, a - 1);
        assert(d.skip(a - 1) =~= s.skip(a));
    }
}

/// `trim_back` drops exactly the trailing whitespace.
proof fn lemma_trim_back_take(s: Seq<u8>, e: int)
    requires
        0 <= e <= s.len(),
        forall|i: int| e <= i < s.len() ==> is_ws(#[trigger] s[i]),
        e > 0 ==> !is_ws(s[e - 1]),
    ensures
        trim_back(s) =~= s.take(e),
    decreases s.len(),
{
    if e == s.len() {
        if s.len() > 0 && is_ws(s.last()) {
            assert(false);
        }
        assert(s.take(e) =~= s);
    } else {
        assert(is_ws(s.last()));
        let d = s.drop_last();
        lemma_trim_back_take(d, e);
        assert(d.take(e) =~= s.take(e));
    }
}

/// Splits `t` at every newline.
fn split_rows(t: &[u8]) -> (rows: Vec<Vec<u8>>)
    ensures
        rows_view(rows@) =~~= split_nl(t@),
        rows@.len() >= 1,
{
    let n = t.len();
    let mut done: Vec<Vec<u8>> = Vec::new();
    let mut cur: Vec<u8> = Vec::new();
    let mut k: usize = 0;
    proof {
        assert(t@.take(0) =~= Seq::<u8>::empty());
        assert(rows_view(done@).push(cur@) =~~= split_nl(t@.take(0)));
    }
    while k < n
        invariant
            n == t@.len(),
            k <= n,
            rows_view(done@).push(cur@) =~~= split_nl(t@.take(k as int)),
        decreases n - k,
    {
        let b = t[k];
        let ghost done0 = rows_view(done@);
        let ghost cur0 = cur@;
        proof {
            assert(t@.take(k + 1) =~= t@.take(k as int).push(t@[k as int]));
            lemma_split_nl_bounds(t@.take(k as int));
        }
        if b == NL {
            done.push(cur);
            cur = Vec::new();
            proof {
                lemma_split_nl_push_nl(t@.take(k as int));
                assert(rows_view(done@) =~~= done0.push(cur0));
                assert(rows_view(done@).push(cur@) =~~= split_nl(t@.take(k + 1)));
            }
        } else {
            cur.push(b);
            proof {
                lemma_split_nl_push_byte(t@.take(k as int), b);
                let old_split = split_nl(t@.take(k as int));
                assert(old_split =~~= done0.push(cur0));
                assert(old_split.last() =~= cur0);
                assert(split_nl(t@.take(k + 1)) =~~= old_split.update(
                    old_split.len() - 1,
                    cur0.push(b),
                ));
                assert(rows_view(done@).push(cur@) =~~= old_split.update(
                    old_split.len() - 1,
                    cur0.push(b),
                ));
            }
        }
        k = k + 1;
    }
    proof {
        assert(t@.take(n as int) =~= t@);
    }
    done.push(cur);
    done
}

/// The built-in stage layout, used as a fallback when the stage resource
/// for the current index is absent.
pub fn default_map() -> (r: &'static str)
    ensures
        r@ == default_map_text(),
{
    "@............\n.###.#.#.##..\n.#...#.#.#.#.\n.###.#.#.#.#.\n.#...#.#.#.#.\n.###.###.##..\n............G"
}

/// What the built-in stage layout reads.
pub open spec fn default_map_text() -> Seq<char> {
    "@............\n.###.#.#.##..\n.#...#.#.#.#.\n.###.#.#.#.#.\n.#...#.#.#.#.\n.###.###.##..\n............G"@
}

/// A cell character is one of the five the map format recognizes.
pub open spec fn recognized(b: u8) -> bool {
    b == WALL_CH || b == PLAYER_CH || b == GOAL_CH || b == BAGGAGE_CH || b == FLOOR_CH
}

/// Every row has the width of the first one.
pub open spec fn rectangular(g: Seq<Seq<u8>>) -> bool {
    forall|i: int| 0 <= i < g.len() ==> (#[trigger] g[i]).len() == g[0].len()
}

/// The positions, left to right, of the cells of `row` (at grid row `y`)
/// that hold `ch`.
pub open spec fn row_positions(row: Seq<u8>, y: int, ch: u8) -> Seq<Grid2D>
    decreases row.len(),
{
    if row.len() == 0 {
        Seq::<Grid2D>::empty()
    } else {
        row_positions(row.drop_last(), y, ch) + (if row.last() == ch {
            seq![Grid2D { x: (row.len() - 1) as i32, y: y as i32 }]
        } else {
            Seq::<Grid2D>::empty()
        })
    }
}

/// The positions, in row-major order, of the cells of `g` that hold `ch`.
pub open spec fn grid_positions(g: Seq<Seq<u8>>, ch: u8) -> Seq<Grid2D>
    decreases g.len(),
{
    if g.len() == 0 {
        Seq::<Grid2D>::empty()
    } else {
        grid_positions(g.drop_last(), ch) + row_positions(g.last(), g.len() - 1, ch)
    }
}

/// The positions of the cells holding `ch` strictly before cell `(r, c)` in
/// row-major order.
pub open spec fn prefix_positions(g: Seq<Seq<u8>>, r: int, c: int, ch: u8) -> Seq<Grid2D> {
    grid_positions(g.take(r), ch) + row_positions(g[r].take(c), r, ch)
}

/// A scanned cell raises no error: its character is recognized, and a
/// player marker is the first one of the grid.
pub open spec fn cell_ok(g: Seq<Seq<u8>>, r: int, c: int) -> bool {
    &&& recognized(g[r][c])
    &&& g[r][c] == PLAYER_CH ==> prefix_positions(g, r, c, PLAYER_CH).len() == 0
}

/// Every cell strictly before `(r, c)` in row-major order is ok.
pub open spec fn cells_ok_before(g: Seq<Seq<u8>>, r: int, c: int) -> bool {
    forall|i: int, j: int|
        0 <= i < g.len() && 0 <= j < g[i].len() && (i < r || (i == r && j < c))
            ==> #[trigger] cell_ok(g, i, j)
}

/// Why a map text was rejected; positions are row/column indexes into the
/// trimmed text's character grid.
#[derive(Clone, Copy, Debug, PartialEq, Eq, Structural)]
pub enum MapParseError {
    /// The text is empty once surrounding whitespace is removed.
    EmptyMap,
    /// Row `row` differs in length from the first row.
    RaggedRow { row: usize },
    /// The cell holds a character the format does not know.
    UnrecognizedSymbol { row: usize, col: usize },
    /// A second player marker.
    DuplicatePlayer { row: usize, col: usize },
}

/// The entity placements a well-formed map text denotes.
#[derive(Debug)]
pub struct ParsedMap {
    /// Columns of the rectangle.
    pub width: usize,
    /// Rows of the rectangle.
    pub height: usize,
    /// The player start, if the map places one.
    pub player: Option<Grid2D>,
    /// Wall cells, in row-major order.
    pub walls: Vec<Grid2D>,
    /// Goal cells, in row-major order.
    pub goals: Vec<Grid2D>,
    /// Baggage cells, in row-major order.
    pub baggage: Vec<Grid2D>,
}

/// An option as a sequence of zero or one positions.
pub open spec fn opt_seq(o: Option<Grid2D>) -> Seq<Grid2D> {
    match o {
        Option::None => Seq::<Grid2D>::empty(),
        Option::Some(p) => seq![p],
    }
}

/// True when `p` lies inside the `w` by `h` rectangle.
pub open spec fn in_rect(p: Grid2D, w: int, h: int) -> bool {
    0 <= p.x < w && 0 <= p.y < h
}

impl ParsedMap {
    /// The placements that block or contest cells: the player, the walls
    /// and the baggage (goals do not block).
    pub open spec fn blocking_placements(self) -> Seq<Grid2D> {
        opt_seq(self.player) + self.walls@ + self.baggage@
    }

    /// A parsed map is well-formed: a non-degenerate rectangle whose
    /// dimensions leave room for an `i32` border, every placement inside
    /// the rectangle, and no two blocking placements on one cell.
    pub open spec fn wf(self) -> bool {
        &&& 1 <= self.width <= i32::MAX - 1
        &&& 1 <= self.height <= i32::MAX - 1
        &&& forall|k: int|
            0 <= k < self.blocking_placements().len() ==> in_rect(
                #[trigger] self.blocking_placements()[k],
                self.width as int,
                self.height as int,
            )
        &&& forall|k: int|
            0 <= k < self.goals@.len() ==> in_rect(
                #[trigger] self.goals@[k],
                self.width as int,
                self.height as int,
            )
        &&& forall|k1: int, k2: int|
            0 <= k1 < self.blocking_placements().len() && 0 <= k2
                < self.blocking_placements().len() && k1 != k2
                ==> self.blocking_placements()[k1] != self.blocking_placements()[k2]
    }
}

/// Elements of `row_positions` lie on row `y`, in the row's column range,
/// on cells that hold `ch`, with strictly increasing columns.
pub proof fn lemma_row_positions_props(row: Seq<u8>, y: int, ch: u8)
    requires
        row.len() <= i32::MAX,
        0 <= y <= i32::MAX,
    ensures
        forall|k: int|
            0 <= k < row_positions(row, y, ch).len() ==> {
                let p = #[trigger] row_positions(row, y, ch)[k];
                p.y == y && 0 <= p.x < row.len() && row[p.x as int] == ch
            },
        forall|k1: int, k2: int|
            0 <= k1 < k2 < row_positions(row, y, ch).len() ==> row_positions(row, y, ch)[k1].x
                < row_positions(row, y, ch)[k2].x,
    decreases row.len(),
{
    if row.len() > 0 {
        let d = row.drop_last();
        lemma_row_positions_props(d, y, ch);
        let rp = row_positions(row, y, ch);
        let dp = row_positions(d, y, ch);
        assert(forall|i: int| 0 <= i < d.len() ==> #[trigger] d[i] == row[i]);
        assert forall|k: int| 0 <= k < rp.len() implies {
            let p = #[trigger] rp[k];
            p.y == y && 0 <= p.x < row.len() && row[p.x as int] == ch
        } by {
            if k < dp.len() {
                assert(rp[k] == dp[k]);
            } else {
                assert(rp[k] == (Grid2D { x: (row.len() - 1) as i32, y: y as i32 }));
                assert(row.last() == ch);
            }
        }
        assert forall|k1: int, k2: int| 0 <= k1 < k2 < rp.len() implies rp[k1].x < rp[k2].x by {
            if k2 < dp.len() {
                assert(rp[k1] == dp[k1]);
                assert(rp[k2] == dp[k2]);
            } else {
                assert(rp[k1] == dp[k1]);
                assert(dp[k1].x < d.len());
            }
        }
    }
}

/// Elements of `grid_positions` lie in the grid, on cells that hold `ch`,
/// and are pairwise distinct.
pub proof fn lemma_grid_positions_props(g: Seq<Seq<u8>>, ch: u8)
    requires
        g.len() <= i32::MAX,
        forall|i: int| 0 <= i < g.len() ==> (#[trigger] g[i]).len() <= i32::MAX,
    ensures
        forall|k: int|
            0 <= k < grid_positions(g, ch).len() ==> {
                let p = #[trigger] grid_positions(g, ch)[k];
                0 <= p.y < g.len() && 0 <= p.x < g[p.y as int].len() && g[p.y as int][p.x as int]
                    == ch
            },
        forall|k1: int, k2: int|
            0 <= k1 < k2 < grid_positions(g, ch).len() ==> grid_positions(g, ch)[k1]
                != grid_positions(g, ch)[k2],
    decreases g.len(),
{
    if g.len() > 0 {
        let d = g.drop_last();
        assert(forall|i: int| 0 <= i < d.len() ==> d[i] == g[i]);
        lemma_grid_positions_props(d, ch);
        lemma_row_positions_props(g.last(), g.len() - 1, ch);
        let gp = grid_positions(g, ch);
        let dp = grid_positions(d, ch);
        let rp = row_positions(g.last(), g.len() - 1, ch);
        assert forall|k1: int, k2: int| 0 <= k1 < k2 < gp.len() implies gp[k1] != gp[k2] by {
            if k1 < dp.len() && k2 >= dp.len() {
                assert(gp[k1].y < g.len() - 1);
                assert(gp[k2].y == g.len() - 1);
            } else if k1 >= dp.len() {
                assert(rp[k1 - dp.len()].x < rp[k2 - dp.len()].x);
            }
        }
    }
}

/// A nonempty text not starting with a newline has a nonempty first row,
/// starting with the text's first byte.
proof fn lemma_split_first_row(s: Seq<u8>)
    requires
        s.len() > 0,
        s[0] != NL,
    ensures
        split_nl(s)[0].len() > 0,
        split_nl(s)[0][0] == s[0],
{
    lemma_split_nl_bounds(s.drop_first());
}

/// A nonempty front-trimmed text starts with non-whitespace.
proof fn lemma_trim_front_first(s: Seq<u8>)
    ensures
        trim_front(s).len() > 0 ==> !is_ws(trim_front(s)[0]),
    decreases s.len(),
{
    if s.len() > 0 && is_ws(s[0]) {
        lemma_trim_front_first(s.drop_first());
    }
}

/// Back-trimming keeps the first byte and never grows the text.
proof fn lemma_trim_back_prefix(s: Seq<u8>)
    ensures
        trim_back(s).len() <= s.len(),
        trim_back(s).len() > 0 ==> trim_back(s)[0] == s[0],
    decreases s.len(),
{
    if s.len() > 0 && is_ws(s.last()) {
        lemma_trim_back_prefix(s.drop_last());
    }
}

/// Front-trimming never grows the text.
proof fn lemma_trim_front_len(s: Seq<u8>)
    ensures
        trim_front(s).len() <= s.len(),
    decreases s.len(),
{
    if s.len() > 0 && is_ws(s[0]) {
        lemma_trim_front_len(s.drop_first());
    }
}

/// Parses a map text into its entity placements.
///
/// The text is trimmed of surrounding whitespace and split into rows at
/// newlines (a trailing carriage return per row is dropped); each remaining
/// cell must hold one of `#` `@` `G` `B` `.`.  Exactly the first offense is
/// reported: an empty map, then the first row whose length differs from the
/// first row's, then — scanning in row-major order — the first
/// unrecognized character or second player marker.  On success the
/// placements are exactly the marked cells, in row-major order, and the
/// resulting map is well-formed.
///
/// The length bound on `text` keeps every coordinate, and the border one
/// cell beyond the rectangle, representable in `i32`.
#[verifier::loop_isolation(false)]
#[verifier::rlimit(100)]
pub fn parse_map(text: &[u8]) -> (r: Result<ParsedMap, MapParseError>)
    requires
        text@.len() <= i32::MAX - 2,
    ensures
        ({
            let g = grid_of(text@);
            let h = g.len() as int;
            let w = g[0].len() as int;
            match r {
                Result::Ok(m) => {
                    &&& trimmed(text@).len() > 0
                    &&& rectangular(g)
                    &&& forall|i: int, j: int|
                        0 <= i < h && 0 <= j < g[i].len() ==> #[trigger] cell_ok(g, i, j)
                    &&& m.width == w
                    &&& m.height == h
                    &&& opt_seq(m.player) =~= grid_positions(g, PLAYER_CH)
                    &&& m.walls@ =~= grid_positions(g, WALL_CH)
                    &&& m.goals@ =~= grid_positions(g, GOAL_CH)
                    &&& m.baggage@ =~= grid_positions(g, BAGGAGE_CH)
                    &&& m.wf()
                },
                Result::Err(MapParseError::EmptyMap) => trimmed(text@).len() == 0,
                Result::Err(MapParseError::RaggedRow { row }) => {
                    &&& trimmed(text@).len() > 0
                    &&& 0 < row < h
                    &&& g[row as int].len() != w
                    &&& forall|i: int| 0 <= i < row ==> (#[trigger] g[i]).len() == w
                },
                Result::Err(MapParseError::UnrecognizedSymbol { row, col }) => {
                    &&& trimmed(text@).len() > 0
                    &&& rectangular(g)
                    &&& 0 <= row < h && 0 <= col < w
                    &&& !recognized(g[row as int][col as int])
                    &&& cells_ok_before(g, row as int, col as int)
                },
                Result::Err(MapParseError::DuplicatePlayer { row, col }) => {
                    &&& trimmed(text@).len() > 0
                    &&& rectangular(g)
                    &&& 0 <= row < h && 0 <= col < w
                    &&& g[row as int][col as int] == PLAYER_CH
                    &&& prefix_positions(g, row as int, col as int, PLAYER_CH).len() > 0
                    &&& cells_ok_before(g, row as int, col as int)
                },
            }
        }),
{
    let t = trim(text);
    if t.len() == 0 {
        return Result::Err(MapParseError::EmptyMap);
    }
    let ghost g = grid_of(text@);
    proof {
        lemma_trim_front_len(text@);
        lemma_trim_back_prefix(trim_front(text@));
        lemma_trim_front_first(text@);
        lemma_split_nl_bounds(t@);
        lemma_split_first_row(t@);
    }
    let rows = split_rows(t);
    let mut rest = rows;
    let mut grid: Vec<Vec<u8>> = Vec::new();
    let ghost orig = split_nl(t@);
    proof {
        assert(orig.take(0).map_values(|r: Seq<u8>| strip_cr(r)) =~~= Seq::<Seq<u8>>::empty());
        assert(rows_view(rest@) =~~= orig.skip(0));
    }
    while rest.len() > 0
        invariant
            rows_view(grid@) =~~= orig.take(grid@.len() as int).map_values(
                |r: Seq<u8>| strip_cr(r),
            ),
            rows_view(rest@) =~~= orig.skip(grid@.len() as int),
            grid@.len() + rest@.len() == orig.len(),
        decreases rest@.len(),
    {
        let ghost done = grid@.len() as int;
        let ghost rest0 = rest@;
        let mut row = rest.remove(0);
        let ghost row0 = row@;
        proof {
            assert(rows_view(rest0)[0] == rest0[0]@);
            assert(orig.skip(done)[0] == orig[done]);
            assert(row0 =~= orig[done]);
            assert forall|i: int| 0 <= i < rest@.len() implies rows_view(rest@)[i] == orig.skip(
                done + 1,
            )[i] by {
                assert(rest@[i] == rest0[i + 1]);
                assert(rows_view(rest0)[i + 1] == rest0[i + 1]@);
                assert(orig.skip(done)[i + 1] == orig[done + 1 + i]);
            }
            assert(rows_view(rest@) =~~= orig.skip(done + 1));
        }
        if row.len() > 0 && row[row.len() - 1] == CR {
            row.pop();
        }
        proof {
            assert(row@ =~= strip_cr(row0));
        }
        let ghost grid0 = grid@;
        grid.push(row);
        proof {
            let f = |r: Seq<u8>| strip_cr(r);
            assert forall|i: int| 0 <= i < done + 1 implies rows_view(grid@)[i] == orig.take(
                done + 1,
            ).map_values(f)[i] by {
                if i < done {
                    assert(rows_view(grid0)[i] == orig.take(done).map_values(f)[i]);
                    assert(rows_view(grid0)[i] == grid0[i]@);
                    assert(grid@[i] == grid0[i]);
                    assert(orig.take(done).map_values(f)[i] == f(orig[i]));
                    assert(orig.take(done + 1).map_values(f)[i] == f(orig[i]));
                } else {
                    assert(rows_view(grid@)[i] == row@);
                    assert(orig.take(done + 1).map_values(f)[i] == f(orig[done]));
                    assert(f(orig[done]) == strip_cr(row0));
                }
            }
            assert(rows_view(grid@) =~~= orig.take(done + 1).map_values(f));
        }
    }
    proof {
        assert(orig.take(orig.len() as int) =~~= orig);
        assert(rows_view(grid@) =~~= g);
    }
    let h = grid.len();
    let width = grid[0].len();
    proof {
        assert(g[0] =~= strip_cr(orig[0]));
        assert(orig[0][0] == t@[0]);
        assert(!is_ws(t@[0]));
        if orig[0].len() > 0 && orig[0].last() == CR {
            assert(orig[0].len() >= 2);
        }
        assert(g[0].len() >= 1);
        assert(g[0].len() <= t@.len());
        assert(h <= t@.len() + 1);
    }
    let mut r_i: usize = 1;
    while r_i < h
        invariant
            rows_view(grid@) =~~= g,
            h == grid@.len(),
            width == g[0].len(),
            1 <= r_i <= h,
            forall|i: int| 0 <= i < r_i ==> (#[trigger] g[i]).len() == width,
        decreases h - r_i,
    {
        if grid[r_i].len() != width {
            return Result::Err(MapParseError::RaggedRow { row: r_i });
        }
        r_i = r_i + 1;
    }
    assert(rectangular(g));
    let mut player: Option<Grid2D> = None;
    let mut walls: Vec<Grid2D> = Vec::new();
    let mut goals: Vec<Grid2D> = Vec::new();
    let mut baggage: Vec<Grid2D> = Vec::new();
    let mut r_i: usize = 0;
    proof {
        assert(g.take(0) =~~= Seq::<Seq<u8>>::empty());
    }
    while r_i < h
        invariant
            rows_view(grid@) =~~= g,
            h == grid@.len(),
            h >= 1,
            width == g[0].len(),
            1 <= width <= i32::MAX - 2,
            h <= i32::MAX - 1,
            rectangular(g),
            r_i <= h,
            opt_seq(player) =~= grid_positions(g.take(r_i as int), PLAYER_CH),
            walls@ =~= grid_positions(g.take(r_i as int), WALL_CH),
            goals@ =~= grid_positions(g.take(r_i as int), GOAL_CH),
            baggage@ =~= grid_positions(g.take(r_i as int), BAGGAGE_CH),
            cells_ok_before(g, r_i as int, 0),
        decreases h - r_i,
    {
        let mut c_i: usize = 0;
        while c_i < width
            invariant
                rows_view(grid@) =~~= g,
                h == grid@.len(),
                h >= 1,
                width == g[0].len(),
                1 <= width <= i32::MAX - 2,
                h <= i32::MAX - 1,
                rectangular(g),
                r_i < h,
                c_i <= width,
                opt_seq(player) =~= prefix_positions(g, r_i as int, c_i as int, PLAYER_CH),
                walls@ =~= prefix_positions(g, r_i as int, c_i as int, WALL_CH),
                goals@ =~= prefix_positions(g, r_i as int, c_i as int, GOAL_CH),
                baggage@ =~= prefix_positions(g, r_i as int, c_i as int, BAGGAGE_CH),
                cells_ok_before(g, r_i as int, c_i as int),
            decreases width - c_i,
        {
            let b = grid[r_i][c_i];
            proof {
                assert(b == g[r_i as int][c_i as int]);
            }
            let ghost row = g[r_i as int];
            let ghost pr = row.take(c_i as int);
            let ghost prn = row.take(c_i + 1);
            proof {
                assert(prn.drop_last() =~= pr);
                assert(prn.last() == row[c_i as int]);
                assert(prn.len() == c_i + 1);
            }
            let pos = Grid2D::new(c_i as i32, r_i as i32);
            if b == WALL_CH {
                walls.push(pos);
            } else if b == PLAYER_CH {
                if player.is_some() {
                    proof {
                        assert(prefix_positions(g, r_i as int, c_i as int, PLAYER_CH).len() > 0);
                    }
                    return Result::Err(MapParseError::DuplicatePlayer { row: r_i, col: c_i });
                }
                player = Some(pos);
            } else if b == GOAL_CH {
                goals.push(pos);
            } else if b == BAGGAGE_CH {
                baggage.push(pos);
            } else if b != FLOOR_CH {
                return Result::Err(MapParseError::UnrecognizedSymbol { row: r_i, col: c_i });
            }
            proof {
                assert(cell_ok(g, r_i as int, c_i as int));
                assert(row_positions(prn, r_i as int, WALL_CH) =~= row_positions(
                    pr,
                    r_i as int,
                    WALL_CH,
                ) + (if row[c_i as int] == WALL_CH {
                    seq![Grid2D { x: c_i as i32, y: r_i as i32 }]
                } else {
                    Seq::<Grid2D>::empty()
                }));
                assert(row_positions(prn, r_i as int, PLAYER_CH) =~= row_positions(
                    pr,
                    r_i as int,
                    PLAYER_CH,
                ) + (if row[c_i as int] == PLAYER_CH {
                    seq![Grid2D { x: c_i as i32, y: r_i as i32 }]
                } else {
                    Seq::<Grid2D>::empty()
                }));
                assert(row_positions(prn, r_i as int, GOAL_CH) =~= row_positions(
                    pr,
                    r_i as int,
                    GOAL_CH,
                ) + (if row[c_i as int] == GOAL_CH {
                    seq![Grid2D { x: c_i as i32, y: r_i as i32 }]
                } else {
                    Seq::<Grid2D>::empty()
                }));
                assert(row_positions(prn, r_i as int, BAGGAGE_CH) =~= row_positions(
                    pr,
                    r_i as int,
                    BAGGAGE_CH,
                ) + (if row[c_i as int] == BAGGAGE_CH {
                    seq![Grid2D { x: c_i as i32, y: r_i as i32 }]
                } else {
                    Seq::<Grid2D>::empty()
                }));
                assert forall|i: int, j: int|
                    0 <= i < g.len() && 0 <= j < g[i].len() && (i < r_i as int || (i == r_i as int
                        && j < c_i + 1)) implies #[trigger] cell_ok(g, i, j) by {
                    if i == r_i as int && j == c_i as int {
                    } else {
                        assert(cells_ok_before(g, r_i as int, c_i as int));
                    }
                }
            }
            c_i = c_i + 1;
        }
        proof {
            let r = r_i as int;
            assert(g[r].take(width as int) =~= g[r]);
            assert(g.take(r + 1).drop_last() =~~= g.take(r));
            assert(g.take(r + 1).last() =~= g[r]);
            assert(grid_positions(g.take(r + 1), WALL_CH) =~= grid_positions(g.take(r), WALL_CH)
                + row_positions(g[r], r, WALL_CH));
            assert(grid_positions(g.take(r + 1), PLAYER_CH) =~= grid_positions(
                g.take(r),
                PLAYER_CH,
            ) + row_positions(g[r], r, PLAYER_CH));
            assert(grid_positions(g.take(r + 1), GOAL_CH) =~= grid_positions(g.take(r), GOAL_CH)
                + row_positions(g[r], r, GOAL_CH));
            assert(grid_positions(g.take(r + 1), BAGGAGE_CH) =~= grid_positions(
                g.take(r),
                BAGGAGE_CH,
            ) + row_positions(g[r], r, BAGGAGE_CH));
            assert forall|i: int, j: int|
                0 <= i < g.len() && 0 <= j < g[i].len() && (i < r + 1 || (i == r + 1 && j
                    < 0)) implies #[trigger] cell_ok(g, i, j) by {
                assert(cells_ok_before(g, r, width as int));
                if i == r {
                    assert(g[i].len() == width);
                }
            }
        }
        r_i = r_i + 1;
    }
    proof {
        assert(g.take(h as int) =~~= g);
    }
    let m = ParsedMap { width, height: h, player, walls, goals, baggage };
    proof {
        assert(forall|i: int| 0 <= i < g.len() ==> (#[trigger] g[i]).len() <= i32::MAX);
        lemma_grid_positions_props(g, PLAYER_CH);
        lemma_grid_positions_props(g, WALL_CH);
        lemma_grid_positions_props(g, GOAL_CH);
        lemma_grid_positions_props(g, BAGGAGE_CH);
        let bp = m.blocking_placements();
        let np = opt_seq(m.player).len() as int;
        let nw = m.walls@.len() as int;
        assert forall|k: int| 0 <= k < bp.len() implies in_rect(
            #[trigger] bp[k],
            m.width as int,
            m.height as int,
        ) by {
            if k < np {
                assert(bp[k] == grid_positions(g, PLAYER_CH)[k]);
            } else if k < np + nw {
                assert(bp[k] == grid_positions(g, WALL_CH)[k - np]);
            } else {
                assert(bp[k] == grid_positions(g, BAGGAGE_CH)[k - np - nw]);
            }
        }
        assert forall|k: int| 0 <= k < m.goals@.len() implies in_rect(
            #[trigger] m.goals@[k],
            m.width as int,
            m.height as int,
        ) by {
            assert(m.goals@[k] == grid_positions(g, GOAL_CH)[k]);
        }
        assert forall|k1: int, k2: int|
            0 <= k1 < bp.len() && 0 <= k2 < bp.len() && k1 != k2 implies bp[k1] != bp[k2] by {
            let p1 = bp[k1];
            let p2 = bp[k2];
            let ch1 = if k1 < np {
                PLAYER_CH
            } else if k1 < np + nw {
                WALL_CH
            } else {
                BAGGAGE_CH
            };
            let ch2 = if k2 < np {
                PLAYER_CH
            } else if k2 < np + nw {
                WALL_CH
            } else {
                BAGGAGE_CH
            };
            assert(g[p1.y as int][p1.x as int] == ch1);
            assert(g[p2.y as int][p2.x as int] == ch2);
            if ch1 == ch2 {
                if k1 < np {
                    assert(np <= 1);
                } else if k1 < np + nw {
                    let q1 = k1 - np;
                    let q2 = k2 - np;
                    assert(grid_positions(g, WALL_CH)[q1] != grid_positions(g, WALL_CH)[q2]);
                } else {
                    let q1 = k1 - np - nw;
                    let q2 = k2 - np - nw;
                    assert(grid_positions(g, BAGGAGE_CH)[q1] != grid_positions(g, BAGGAGE_CH)[q2]);
                }
            }
        }
        assert(m.wf());
    }
    Result::Ok(m)
}

/// The `k`-th cell of the invisible border around a `w` by `h` rectangle:
/// first the row below (`y = -1`), then the row above (`y = h`), then the
/// column left (`x = -1`), then the column right (`x = w`).  Corners are
/// not included: cardinal movement cannot reach them.
pub open spec fn border_cell(w: int, h: int, k: int) -> Grid2D {
    if k < w {
        Grid2D { x: k as i32, y: -1i32 }
    } else if k < 2 * w {
        Grid2D { x: (k - w) as i32, y: h as i32 }
    } else if k < 2 * w + h {
        Grid2D { x: -1i32, y: (k - 2 * w) as i32 }
    } else {
        Grid2D { x: w as i32, y: (k - 2 * w - h) as i32 }
    }
}

/// The invisible border cells around a `w` by `h` rectangle.
pub open spec fn border_positions(w: int, h: int) -> Seq<Grid2D> {
    Seq::new((2 * w + 2 * h) as nat, |k: int| border_cell(w, h, k))
}

/// Border cells lie outside the rectangle and are pairwise distinct.
pub proof fn lemma_border_positions_props(w: int, h: int)
    requires
        1 <= w <= i32::MAX - 1,
        1 <= h <= i32::MAX - 1,
    ensures
        border_positions(w, h).len() == 2 * w + 2 * h,
        forall|k: int|
            0 <= k < 2 * w + 2 * h ==> !in_rect(#[trigger] border_positions(w, h)[k], w, h),
        forall|k1: int, k2: int|
            0 <= k1 < 2 * w + 2 * h && 0 <= k2 < 2 * w + 2 * h && k1 != k2
                ==> border_positions(w, h)[k1] != border_positions(w, h)[k2],
{
    assert forall|k1: int, k2: int|
        0 <= k1 < 2 * w + 2 * h && 0 <= k2 < 2 * w + 2 * h && k1 != k2 implies border_positions(
        w,
        h,
    )[k1] != border_positions(w, h)[k2] by {
        let p1 = border_cell(w, h, k1);
        let p2 = border_cell(w, h, k2);
        assert(border_positions(w, h)[k1] == p1);
        assert(border_positions(w, h)[k2] == p2);
    }
}

/// Positions paired with one tag set.
pub open spec fn tagged(ps: Seq<Grid2D>, tags: TagSet) -> Seq<Entity> {
    ps.map_values(|p: Grid2D| Entity { position: p, tags })
}

/// The entity table a parsed map denotes: the player (if any), the walls,
/// the goals, the baggage, then the invisible border.
pub open spec fn stage_entities_of(m: ParsedMap) -> Seq<Entity> {
    tagged(opt_seq(m.player), crate::basics::player_tags()) + tagged(
        m.walls@,
        crate::basics::wall_tags(),
    ) + tagged(m.goals@, crate::basics::goal_tags()) + tagged(
        m.baggage@,
        crate::basics::movable_tags(),
    ) + tagged(
        border_positions(m.width as int, m.height as int),
        crate::basics::border_tags(),
    )
}

/// Builds the stage a well-formed parsed map denotes: one entity per
/// placement, in row-major order, plus the invisible obstacle border one
/// cell beyond every edge of the rectangle.  The result is well-formed.
#[verifier::loop_isolation(false)]
#[verifier::rlimit(100)]
pub fn from_map(m: &ParsedMap) -> (s: Stage)
    requires
        m.wf(),
    ensures
        s.wf(),
        s.entities@ =~= stage_entities_of(*m),
{
    let w = m.width;
    let h = m.height;
    let ghost wi = w as int;
    let ghost hi = h as int;
    let mut ents: Vec<Entity> = Vec::new();
    let player_t = Player::tag_set();
    let wall_t = Wall::tag_set();
    let goal_t = Goal::tag_set();
    let movable_t = Movable::tag_set();
    let border_t = WallInvisible::tag_set();
    match m.player {
        Some(p) => {
            ents.push(Entity { position: p, tags: player_t });
        },
        None => {},
    }
    let ghost part0 = tagged(opt_seq(m.player), crate::basics::player_tags());
    proof {
        assert(ents@ =~= part0);
    }
    let mut k: usize = 0;
    while k < m.walls.len()
        invariant
            k <= m.walls@.len(),
            ents@ =~= part0 + tagged(m.walls@.take(k as int), crate::basics::wall_tags()),
        decreases m.walls@.len() - k,
    {
        ents.push(Entity { position: m.walls[k], tags: wall_t });
        k = k + 1;
        proof {
            assert(ents@ =~= part0 + tagged(m.walls@.take(k as int), crate::basics::wall_tags()));
        }
    }
    let ghost part1 = part0 + tagged(m.walls@, crate::basics::wall_tags());
    proof {
        assert(m.walls@.take(m.walls@.len() as int) =~= m.walls@);
        assert(ents@ =~= part1);
    }
    let mut k: usize = 0;
    while k < m.goals.len()
        invariant
            k <= m.goals@.len(),
            ents@ =~= part1 + tagged(m.goals@.take(k as int), crate::basics::goal_tags()),
        decreases m.goals@.len() - k,
    {
        ents.push(Entity { position: m.goals[k], tags: goal_t });
        k = k + 1;
        proof {
            assert(ents@ =~= part1 + tagged(m.goals@.take(k as int), crate::basics::goal_tags()));
        }
    }
    let ghost part2 = part1 + tagged(m.goals@, crate::basics::goal_tags());
    proof {
        assert(m.goals@.take(m.goals@.len() as int) =~= m.goals@);
        assert(ents@ =~= part2);
    }
    let mut k: usize = 0;
    while k < m.baggage.len()
        invariant
            k <= m.baggage@.len(),
            ents@ =~= part2 + tagged(m.baggage@.take(k as int), crate::basics::movable_tags()),
        decreases m.baggage@.len() - k,
    {
        ents.push(Entity { position: m.baggage[k], tags: movable_t });
        k = k + 1;
        proof {
            assert(ents@ =~= part2 + tagged(
                m.baggage@.take(k as int),
                crate::basics::movable_tags(),
            ));
        }
    }
    let ghost part3 = part2 + tagged(m.baggage@, crate::basics::movable_tags());
    proof {
        assert(m.baggage@.take(m.baggage@.len() as int) =~= m.baggage@);
        assert(ents@ =~= part3);
    }
    let ghost border = border_positions(wi, hi);
    let mut x: usize = 0;
    while x < w
        invariant
            x <= w,
            ents@ =~= part3 + tagged(border.take(x as int), crate::basics::border_tags()),
        decreases w - x,
    {
        proof {
            assert(border[x as int] == border_cell(wi, hi, x as int));
        }
        ents.push(Entity { position: Grid2D::new(x as i32, -1), tags: border_t });
        x = x + 1;
        proof {
            assert(ents@ =~= part3 + tagged(border.take(x as int), crate::basics::border_tags()));
        }
    }
    let mut x: usize = 0;
    while x < w
        invariant
            x <= w,
            ents@ =~= part3 + tagged(border.take(wi + x as int), crate::basics::border_tags()),
        decreases w - x,
    {
        proof {
            assert(border[wi + x as int] == border_cell(wi, hi, wi + x as int));
        }
        ents.push(Entity { position: Grid2D::new(x as i32, h as i32), tags: border_t });
        x = x + 1;
        proof {
            assert(ents@ =~= part3 + tagged(
                border.take(wi + x as int),
                crate::basics::border_tags(),
            ));
        }
    }
    let mut y: usize = 0;
    while y < h
        invariant
            y <= h,
            ents@ =~= part3 + tagged(
                border.take(2 * wi + y as int),
                crate::basics::border_tags(),
            ),
        decreases h - y,
    {
        proof {
            assert(border[2 * wi + y as int] == border_cell(wi, hi, 2 * wi + y as int));
        }
        ents.push(Entity { position: Grid2D::new(-1, y as i32), tags: border_t });
        y = y + 1;
        proof {
            assert(ents@ =~= part3 + tagged(
                border.take(2 * wi + y as int),
                crate::basics::border_tags(),
            ));
        }
    }
    let mut y: usize = 0;
    while y < h
        invariant
            y <= h,
            ents@ =~= part3 + tagged(
                border.take(2 * wi + hi + y as int),
                crate::basics::border_tags(),
            ),
        decreases h - y,
    {
        proof {
            assert(border[2 * wi + hi + y as int] == border_cell(wi, hi, 2 * wi + hi + y as int));
        }
        ents.push(Entity { position: Grid2D::new(w as i32, y as i32), tags: border_t });
        y = y + 1;
        proof {
            assert(ents@ =~= part3 + tagged(
                border.take(2 * wi + hi + y as int),
                crate::basics::border_tags(),
            ));
        }
    }
    let s = Stage { entities: ents };
    proof {
        assert(border.take(border.len() as int) =~= border);
        assert(s.entities@ =~= stage_entities_of(*m));
        lemma_border_positions_props(wi, hi);
        let bp = m.blocking_placements();
        let np = opt_seq(m.player).len() as int;
        let nw = m.walls@.len() as int;
        let ng = m.goals@.len() as int;
        let nb = m.baggage@.len() as int;
        let base = np + nw + ng + nb;
        let es = s.entities@;
        // which blocking placement (if any) an entity index stands for
        let pidx = |i: int|
            if i < np {
                i
            } else if i < np + nw {
                i
            } else if i < np + nw + ng {
                i
            } else if i < base {
                i - ng
            } else {
                i
            };
        assert forall|i: int, j: int| s.is_player_index(i) && s.is_player_index(j) implies i
            == j by {
            assert(i < np && j < np) by {
                if i >= np {
                    assert(!es[i].tags.player);
                }
                if j >= np {
                    assert(!es[j].tags.player);
                }
            }
        }
        assert forall|i: int, j: int|
            0 <= i < es.len() && 0 <= j < es.len() && i != j && (#[trigger] es[i].tags).blocking()
                && (#[trigger] es[j].tags).blocking() implies es[i].position
            != es[j].position by {
            if np + nw <= i < np + nw + ng || np + nw <= j < np + nw + ng {
                assert(!crate::basics::goal_tags().blocking());
            } else {
                if i < base && j < base {
                    assert(es[i].position == bp[pidx(i)]);
                    assert(es[j].position == bp[pidx(j)]);
                    assert(pidx(i) != pidx(j));
                } else if i >= base && j >= base {
                    assert(es[i].position == border_positions(wi, hi)[i - base]);
                    assert(es[j].position == border_positions(wi, hi)[j - base]);
                } else {
                    let ii = if i < base {
                        i
                    } else {
                        j
                    };
                    let bb = if i < base {
                        j
                    } else {
                        i
                    };
                    assert(es[ii].position == bp[pidx(ii)]);
                    assert(in_rect(bp[pidx(ii)], wi, hi));
                    assert(es[bb].position == border_positions(wi, hi)[bb - base]);
                    assert(!in_rect(border_positions(wi, hi)[bb - base], wi, hi));
                }
            }
        }
        assert(s.wf());
    }
    s
}

/// Filtering a uniformly-tagged run of entities keeps all of it or none of
/// it, depending on what the predicate makes of the shared tags.
proof fn lemma_filter_tagged(ps: Seq<Grid2D>, tags: TagSet, pred: spec_fn(Entity) -> bool, b: bool)
    requires
        forall|p: Grid2D| #[trigger] pred(Entity { position: p, tags }) == b,
    ensures
        tagged(ps, tags).filter(pred) =~= (if b {
            tagged(ps, tags)
        } else {
            Seq::<Entity>::empty()
        }),
    decreases ps.len(),
{
    reveal(Seq::filter);
    if ps.len() > 0 {
        lemma_filter_tagged(ps.drop_last(), tags, pred, b);
        assert(tagged(ps, tags).drop_last() =~= tagged(ps.drop_last(), tags));
        assert(tagged(ps, tags).last() == Entity { position: ps.last(), tags });
    }
}

/// The round trip from a parsed map to its loaded stage: the stage holds a
/// player exactly when the map places one, and at that cell; its baggage
/// and goal position sequences are the map's, in order; a cell is
/// obstructed exactly when it holds a wall or lies on the invisible
/// border; and the stage is won exactly when the map's baggage cells cover
/// its goal cells.
pub proof fn lemma_loaded_stage_contents(s: Stage, m: ParsedMap)
    requires
        m.wf(),
        s.entities@ =~= stage_entities_of(m),
    ensures
        s.has_player() <==> m.player is Some,
        m.player matches Some(p) ==> s.has_player() && s.player_position() == p,
        s.baggage_positions() =~= m.baggage@,
        s.goal_positions() =~= m.goals@,
        forall|p: Grid2D|
            #[trigger] s.obstacle_at(p) <==> (m.walls@.contains(p) || border_positions(
                m.width as int,
                m.height as int,
            ).contains(p)),
        won(s) == (m.baggage@.to_multiset() == m.goals@.to_multiset()),
{
    let pa = tagged(opt_seq(m.player), crate::basics::player_tags());
    let wa = tagged(m.walls@, crate::basics::wall_tags());
    let ga = tagged(m.goals@, crate::basics::goal_tags());
    let ba = tagged(m.baggage@, crate::basics::movable_tags());
    let bo = tagged(
        border_positions(m.width as int, m.height as int),
        crate::basics::border_tags(),
    );
    let np = pa.len() as int;
    let nw = wa.len() as int;
    let ng = ga.len() as int;
    let nb = ba.len() as int;
    let es = s.entities@;
    assert(es == pa + wa + ga + ba + bo);

    // the player exists exactly when the map places one, and sits first
    assert forall|i: int| s.is_player_index(i) implies i < np by {
        if i >= np {
            assert(!es[i].tags.player);
        }
    }
    if m.player is Some {
        assert(es[0].tags.player);
        assert(s.is_player_index(0));
        let i = choose|i: int| s.is_player_index(i);
        assert(i == 0);
        assert(s.player_position() == opt_seq(m.player)[0]);
    }

    // baggage and goals, via filtering the five uniformly-tagged runs
    let movp = |e: Entity| e.tags.movable;
    let goalp = |e: Entity| e.tags.goal;
    let posf = |e: Entity| e.position;
    Seq::filter_distributes_over_add(pa + wa + ga + ba, bo, movp);
    Seq::filter_distributes_over_add(pa + wa + ga, ba, movp);
    Seq::filter_distributes_over_add(pa + wa, ga, movp);
    Seq::filter_distributes_over_add(pa, wa, movp);
    lemma_filter_tagged(opt_seq(m.player), crate::basics::player_tags(), movp, false);
    lemma_filter_tagged(m.walls@, crate::basics::wall_tags(), movp, false);
    lemma_filter_tagged(m.goals@, crate::basics::goal_tags(), movp, false);
    lemma_filter_tagged(m.baggage@, crate::basics::movable_tags(), movp, true);
    lemma_filter_tagged(
        border_positions(m.width as int, m.height as int),
        crate::basics::border_tags(),
        movp,
        false,
    );
    assert(es.filter(movp) =~= ba);
    assert((|e: Entity| e.tags.movable) =~= movp);
    assert(ba.map_values(posf) =~= m.baggage@);
    assert((|e: Entity| e.position) =~= posf);
    assert(s.baggage_positions() =~= m.baggage@);

    Seq::filter_distributes_over_add(pa + wa + ga + ba, bo, goalp);
    Seq::filter_distributes_over_add(pa + wa + ga, ba, goalp);
    Seq::filter_distributes_over_add(pa + wa, ga, goalp);
    Seq::filter_distributes_over_add(pa, wa, goalp);
    lemma_filter_tagged(opt_seq(m.player), crate::basics::player_tags(), goalp, false);
    lemma_filter_tagged(m.walls@, crate::basics::wall_tags(), goalp, false);
    lemma_filter_tagged(m.goals@, crate::basics::goal_tags(), goalp, true);
    lemma_filter_tagged(m.baggage@, crate::basics::movable_tags(), goalp, false);
    lemma_filter_tagged(
        border_positions(m.width as int, m.height as int),
        crate::basics::border_tags(),
        goalp,
        false,
    );
    assert(es.filter(goalp) =~= ga);
    assert((|e: Entity| e.tags.goal) =~= goalp);
    assert(ga.map_values(posf) =~= m.goals@);
    assert(s.goal_positions() =~= m.goals@);

    // a cell is obstructed exactly by a wall or a border cell
    assert forall|p: Grid2D|
        #[trigger] s.obstacle_at(p) <==> (m.walls@.contains(p) || border_positions(
            m.width as int,
            m.height as int,
        ).contains(p)) by {
        let bw = border_positions(m.width as int, m.height as int);
        if s.obstacle_at(p) {
            let i = choose|i: int|
                0 <= i < es.len() && #[trigger] es[i].tags.obstacle && es[i].position == p;
            if i < np {
                assert(!es[i].tags.obstacle);
            } else if i < np + nw {
                assert(es[i].position == m.walls@[i - np]);
                assert(m.walls@.contains(p));
            } else if i < np + nw + ng {
                assert(!es[i].tags.obstacle);
            } else if i < np + nw + ng + nb {
                assert(!es[i].tags.obstacle);
            } else {
                assert(es[i].position == bw[i - np - nw - ng - nb]);
                assert(bw.contains(p));
            }
        }
        if m.walls@.contains(p) {
            let k = choose|k: int| 0 <= k < m.walls@.len() && m.walls@[k] == p;
            assert(es[np + k].tags.obstacle && es[np + k].position == p);
            assert(s.obstacle_at(p));
        }
        if bw.contains(p) {
            let k = choose|k: int| 0 <= k < bw.len() && bw[k] == p;
            assert(es[np + nw + ng + nb + k].tags.obstacle && es[np + nw + ng + nb
                + k].position == p);
            assert(s.obstacle_at(p));
        }
    }
}

} // verus!
