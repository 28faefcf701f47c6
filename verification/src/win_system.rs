//! The win-condition evaluator.
//!
//! A stage is won exactly when the baggage items cover the goal cells: the
//! positions of all `Movable` entities and the positions of all `Goal`
//! entities, each sorted ascending by `(x, y)`, are equal element for
//! element (which forces the counts to match too).  Sorting normalizes the
//! comparison, so the verdict depends only on the two multisets of
//! positions, never on enumeration order.
//!
//! Degenerate case, chosen deliberately: a stage with zero baggage and zero
//! goals has two empty position sequences, which are trivially equal, so
//! such a "no puzzle" stage counts as won immediately.

use vstd::prelude::*;

use vstd::relations::{sorted_by, total_ordering};
use vstd::seq_lib::lemma_sorted_unique;

use crate::grid2d::Grid2D;
use crate::resources::{CurrentStageData, GameState};
use crate::stage::{Entity, Stage};

verus! {

/// Ascending lexicographic order on positions: by `x`, then by `y`.
pub open spec fn lex_leq(a: Grid2D, b: Grid2D) -> bool {
    a.x < b.x || (a.x == b.x && a.y <= b.y)
}

/// [`lex_leq`] as a first-class relation.
pub open spec fn lex_order() -> spec_fn(Grid2D, Grid2D) -> bool {
    |a: Grid2D, b: Grid2D| lex_leq(a, b)
}

/// The lexicographic order on positions is a total order.
pub proof fn lemma_lex_total()
    ensures
        total_ordering(lex_order()),
{
    let r = lex_order();
    assert forall|a: Grid2D, b: Grid2D| #[trigger] r(a, b) && #[trigger] r(b, a) implies a
        == b by {
        assert(a.x == b.x && a.y == b.y);
    }
}

/// True when the stage is won: the baggage items exactly cover the goals.
pub open spec fn won(s: Stage) -> bool {
    s.baggage_positions().to_multiset() == s.goal_positions().to_multiset()
}

/// Whether the win verdict holds depends only on the multisets of baggage
/// and goal positions: stages that enumerate the same placements in any
/// permuted order receive the same verdict.
pub proof fn lemma_win_permutation(s1: Stage, s2: Stage)
    requires
        s1.baggage_positions().to_multiset() == s2.baggage_positions().to_multiset(),
        s1.goal_positions().to_multiset() == s2.goal_positions().to_multiset(),
    ensures
        won(s1) == won(s2),
{
}

/// The index of a least element of `v` under [`lex_leq`].
fn min_index(v: &Vec<Grid2D>) -> (mi: usize)
    requires
        v@.len() > 0,
    ensures
        mi < v@.len(),
        forall|k: int| 0 <= k < v@.len() ==> lex_leq(v@[mi as int], #[trigger] v@[k]),
{
    let n = v.len();
    let mut mi: usize = 0;
    let mut k: usize = 1;
    while k < n
        invariant
            n == v@.len(),
            mi < k <= n,
            forall|j: int| 0 <= j < k ==> lex_leq(v@[mi as int], #[trigger] v@[j]),
        decreases n - k,
    {
        let c = v[k];
        let m = v[mi];
        if c.x < m.x || (c.x == m.x && c.y <= m.y) {
            mi = k;
        }
        k = k + 1;
    }
    mi
}

/// Sorts positions ascending by `(x, y)`, keeping exactly the same
/// collection of values (as a multiset).
pub fn sort_positions(src: Vec<Grid2D>) -> (out: Vec<Grid2D>)
    ensures
        sorted_by(out@, lex_order()),
        out@.to_multiset() == src@.to_multiset(),
{
    broadcast use vstd::seq_lib::group_to_multiset_ensures;
    broadcast use vstd::multiset::group_multiset_axioms;

    let mut rest = src;
    let ghost all = rest@;
    let mut out: Vec<Grid2D> = Vec::new();
    proof {
        assert(out@.to_multiset().add(rest@.to_multiset()) =~= all.to_multiset());
    }
    while rest.len() > 0
        invariant
            sorted_by(out@, lex_order()),
            out@.to_multiset().add(rest@.to_multiset()) == all.to_multiset(),
            forall|a: Grid2D, b: Grid2D|
                out@.contains(a) && rest@.contains(b) ==> lex_leq(a, b),
        decreases rest@.len(),
    {
        broadcast use vstd::seq_lib::group_to_multiset_ensures;
        broadcast use vstd::multiset::group_multiset_axioms;

        let mi = min_index(&rest);
        let ghost rest0 = rest@;
        let ghost out0 = out@;
        let x = rest.remove(mi);
        out.push(x);
        proof {
            assert(rest0.contains(x));
            assert(rest@.to_multiset() =~= rest0.to_multiset().remove(x));
            assert(out@.to_multiset() =~= out0.to_multiset().insert(x));
            assert(out@.to_multiset().add(rest@.to_multiset()) =~= all.to_multiset());
            assert forall|b: Grid2D| rest@.contains(b) implies rest0.contains(b) by {
                let k = choose|k: int| 0 <= k < rest@.len() && rest@[k] == b;
                if k < mi {
                    assert(rest0[k] == b);
                } else {
                    assert(rest0[k + 1] == b);
                }
            }
            assert forall|a: Grid2D, b: Grid2D|
                out@.contains(a) && rest@.contains(b) implies lex_leq(a, b) by {
                let i = choose|i: int| 0 <= i < out@.len() && out@[i] == a;
                assert(rest0.contains(b));
                let k = choose|k: int| 0 <= k < rest0.len() && rest0[k] == b;
                if i < out0.len() {
                    assert(out0.contains(a));
                } else {
                    assert(a == x);
                    assert(lex_leq(rest0[mi as int], rest0[k]));
                }
            }
            assert forall|i: int, j: int| 0 <= i < j < out@.len() implies lex_order()(
                out@[i],
                out@[j],
            ) by {
                if j == out@.len() - 1 {
                    assert(out0.contains(out0[i]));
                    assert(lex_leq(out0[i], x));
                } else {
                    assert(sorted_by(out0, lex_order()));
                    assert(lex_order()(out0[i], out0[j]));
                }
            }
        }
    }
    proof {
        assert(rest@.to_multiset().len() == 0);
        assert(out@.to_multiset().add(rest@.to_multiset()) =~= out@.to_multiset());
    }
    out
}

/// Compares two position vectors element for element.
fn positions_equal(a: &Vec<Grid2D>, b: &Vec<Grid2D>) -> (r: bool)
    ensures
        r <==> a@ =~= b@,
{
    let n = a.len();
    if n != b.len() {
        return false;
    }
    let mut k: usize = 0;
    while k < n
        invariant
            n == a@.len() == b@.len(),
            k <= n,
            forall|i: int| 0 <= i < k ==> a@[i] == b@[i],
        decreases n - k,
    {
        let pa = a[k];
        let pb = b[k];
        if pa.x != pb.x || pa.y != pb.y {
            return false;
        }
        k = k + 1;
    }
    true
}

/// The win evaluator; stateless, invoked once per tick after movement.
#[derive(Clone, Copy, Debug, PartialEq, Eq, Structural)]
pub struct WinSystem;

impl Default for WinSystem {
    fn default() -> (s: Self)
        ensures
            s == WinSystem,
    {
        WinSystem
    }
}

impl WinSystem {
    /// Collects the positions of all entities accepted by `movable`
    /// (`true`: baggage; `false`: goals), in table order.
    fn collect_positions(stage: &Stage, movable: bool) -> (out: Vec<Grid2D>)
        ensures
            movable ==> out@ =~= stage.baggage_positions(),
            !movable ==> out@ =~= stage.goal_positions(),
    {
        let n = stage.len();
        let mut out: Vec<Grid2D> = Vec::new();
        let ghost pred = if movable {
            |e: Entity| e.tags.movable
        } else {
            |e: Entity| e.tags.goal
        };
        let mut k: usize = 0;
        proof {
            reveal(Seq::filter);
            assert(stage.entities@.take(0).filter(pred) =~= Seq::<Entity>::empty());
        }
        while k < n
            invariant
                n == stage.entities@.len(),
                k <= n,
                pred == (if movable {
                    |e: Entity| e.tags.movable
                } else {
                    |e: Entity| e.tags.goal
                }),
                out@ =~= stage.entities@.take(k as int).filter(pred).map_values(
                    |e: Entity| e.position,
                ),
            decreases n - k,
        {
            let e = stage.entity(k);
            let take_it = if movable {
                e.tags.movable
            } else {
                e.tags.goal
            };
            let ghost out0 = out@;
            if take_it {
                out.push(e.position);
            }
            proof {
                reveal(Seq::filter);
                let pre = stage.entities@.take(k as int);
                let cur = stage.entities@.take(k + 1);
                assert(cur.drop_last() =~= pre);
                assert(cur.last() == stage.entities@[k as int]);
                if pred(stage.entities@[k as int]) {
                    assert(cur.filter(pred) =~= pre.filter(pred).push(stage.entities@[k as int]));
                    assert(cur.filter(pred).map_values(|e: Entity| e.position) =~= out0.push(
                        e.position,
                    ));
                } else {
                    assert(cur.filter(pred) =~= pre.filter(pred));
                }
            }
            k = k + 1;
        }
        proof {
            assert(stage.entities@.take(n as int) =~= stage.entities@);
        }
        out
    }

    /// Evaluates the win condition: sorts the baggage positions and the goal
    /// positions ascending by `(x, y)` and compares them element for
    /// element.  Returns `true` exactly when the stage is won; in
    /// particular, a stage with zero baggage and zero goals is won.
    pub fn evaluate(stage: &Stage) -> (r: bool)
        ensures
            r == won(*stage),
    {
        let baggage = Self::collect_positions(stage, true);
        let goals = Self::collect_positions(stage, false);
        let ghost bm = baggage@.to_multiset();
        let ghost gm = goals@.to_multiset();
        let sorted_baggage = sort_positions(baggage);
        let sorted_goals = sort_positions(goals);
        let r = positions_equal(&sorted_baggage, &sorted_goals);
        proof {
            lemma_lex_total();
            if r {
                assert(bm == gm);
            } else {
                if bm == gm {
                    lemma_sorted_unique(sorted_baggage@, sorted_goals@, lex_order());
                }
            }
        }
        r
    }

    /// Runs the evaluator for one tick.  While the stage is still being
    /// played and is won, the session state moves to `Win`; once already
    /// `Win` (or not yet won) nothing changes.  The stage counter is never
    /// touched.
    pub fn run(&self, stage: &Stage, data: &mut CurrentStageData)
        ensures
            final(data).stage == old(data).stage,
            final(data).state == (if old(data).state == GameState::Play && won(*stage) {
                GameState::Win
            } else {
                old(data).state
            }),
    {
        if data.state == GameState::Play {
            if Self::evaluate(stage) {
                data.state = GameState::Win;
            }
        }
    }
}

} // verus!
