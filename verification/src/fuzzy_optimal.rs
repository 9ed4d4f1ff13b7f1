//! The optimal aligner: a dynamic program over the window, one cell for each
//! needle character and haystack position, and the way back through the cells.
use vstd::prelude::*;
use crate::chars::Char;
use crate::chars::codes;
use crate::config::MatcherConfig;
use crate::exact::contiguous_match;
use crate::fuzzy_greedy::lemma_greedy_leftmost;
use crate::matrix::Cell;
use crate::matrix::MatrixSlab;
use crate::matrix::Step;
use crate::matrix::blank_cell;
use crate::prefilter::lemma_prev_match;
use crate::prefilter::lemma_window_holds_placement;
use crate::prefilter::window_end;
use crate::prefilter::window_greedy_end;
use crate::prefilter::window_start;
use crate::score::as_indices;
use crate::score::charge;
use crate::score::clamp_score;
use crate::score::consecutive_bonus;
use crate::score::lemma_placement_spread;
use crate::score::may_match;
use crate::score::position_bonus;
use crate::score::to_score;
use crate::fuzzy_greedy::greedy_placement;
use crate::fuzzy_greedy::greedy_pos;
use crate::fuzzy_greedy::greedy_succeeds;
use crate::fuzzy_greedy::lemma_greedy_is_placement;
use crate::fuzzy_greedy::lemma_greedy_pos;
use crate::fuzzy_greedy::lemma_greedy_prefix;
use crate::fuzzy_greedy::lemma_matchable_iff_greedy;
use crate::fuzzy_greedy::lemma_next_match;
use crate::score::bonus_at;
use crate::score::eligible;
use crate::score::gap_penalty;
use crate::score::is_placement;
use crate::score::lemma_bonus_bounds;
use crate::score::lemma_gap_penalty_one;
use crate::score::lemma_gap_penalty_step;
use crate::score::lemma_run_bonus_bounds;
use crate::score::lemma_run_bonus_monotone;
use crate::score::lemma_sat_sub_twice;
use crate::score::lemma_score_prefix;
use crate::score::matchable;
use crate::score::placement_score;
use crate::score::run_bonus;
use crate::score::run_len;
use crate::score::sat_sub;
use crate::score::score_upto;
use crate::score::step_max;

verus! {

/// What a cell holds: the running total of the best alignment that ends in it,
/// the length of the run that ends in it, and the column of the cell one row up
/// that it was reached from (-1 in the first row).
pub struct Node {
    pub score: int,
    pub run: int,
    pub prev: int,
}

/// The best total that a row offers to a column across a gap, with the penalty
/// for the gap paid, and the column that it comes from.
pub struct Lead {
    pub score: int,
    pub from: int,
}

/// The cell reached from `d`, one row up and one column to the left.
pub open spec fn extend(config: MatcherConfig, haystack: Seq<u32>, d: Node, j: int) -> Node {
    Node {
        score: d.score + run_bonus(config, d.run + 1) + bonus_at(config, haystack, j),
        run: d.run + 1,
        prev: j - 1,
    }
}

/// The cell reached across the gap that `g` stands for.
pub open spec fn resume(config: MatcherConfig, haystack: Seq<u32>, g: Lead, j: int) -> Node {
    Node { score: g.score + bonus_at(config, haystack, j), run: 1, prev: g.from }
}

/// The better of the two ways into a cell in column `j`; the way that extends a
/// run where both are worth the same.
pub open spec fn join(
    config: MatcherConfig,
    haystack: Seq<u32>,
    j: int,
    d: Option<Node>,
    g: Option<Lead>,
) -> Option<Node> {
    match (d, g) {
        (None, None) => None,
        (Some(d), None) => Some(extend(config, haystack, d, j)),
        (None, Some(g)) => Some(resume(config, haystack, g, j)),
        (Some(d), Some(g)) => if d.score + run_bonus(config, d.run + 1) >= g.score {
            Some(extend(config, haystack, d, j))
        } else {
            Some(resume(config, haystack, g, j))
        },
    }
}

/// What a row offers to column `j` across a gap, from what it offered to column
/// `j - 1` and from the cell in column `j - 2`; the nearer where both are worth
/// the same.
pub open spec fn carry(
    config: MatcherConfig,
    j: int,
    older: Option<Lead>,
    fresh: Option<Node>,
) -> Option<Lead> {
    match (older, fresh) {
        (None, None) => None,
        (Some(o), None) => Some(
            Lead { score: sat_sub(o.score, config.penalty_gap_extension as int), from: o.from },
        ),
        (None, Some(f)) => Some(
            Lead { score: sat_sub(f.score, config.penalty_gap_start as int), from: j - 2 },
        ),
        (Some(o), Some(f)) => if sat_sub(f.score, config.penalty_gap_start as int) >= sat_sub(
            o.score,
            config.penalty_gap_extension as int,
        ) {
            Some(Lead { score: sat_sub(f.score, config.penalty_gap_start as int), from: j - 2 })
        } else {
            Some(
                Lead {
                    score: sat_sub(o.score, config.penalty_gap_extension as int),
                    from: o.from,
                },
            )
        },
    }
}

/// The cell for needle character `i` matched at haystack position `j`: `None`
/// where no alignment of the characters `0..=i` ends with that match.
pub open spec fn cell(
    config: MatcherConfig,
    haystack: Seq<u32>,
    needle: Seq<u32>,
    i: int,
    j: int,
) -> Option<Node>
    decreases i, j, 1int,
{
    if !eligible(config, haystack, needle, i, j) {
        None
    } else if i == 0 {
        Some(Node { score: bonus_at(config, haystack, j), run: 1, prev: -1 })
    } else {
        join(
            config,
            haystack,
            j,
            cell(config, haystack, needle, i - 1, j - 1),
            gap(config, haystack, needle, i - 1, j),
        )
    }
}

/// What row `i` offers to column `j` across a gap: the best of its cells in the
/// columns up to `j - 2`, each less the penalty for the columns skipped.
pub open spec fn gap(
    config: MatcherConfig,
    haystack: Seq<u32>,
    needle: Seq<u32>,
    i: int,
    j: int,
) -> Option<Lead>
    decreases i, j, 0int,
{
    if i < 0 || j < 2 {
        None
    } else {
        carry(
            config,
            j,
            gap(config, haystack, needle, i, j - 1),
            cell(config, haystack, needle, i, j - 2),
        )
    }
}

/// The column of the best cell of the last row among the columns below `upto`,
/// the leftmost of the best; `None` where that part of the row is empty.
pub open spec fn best_end(
    config: MatcherConfig,
    haystack: Seq<u32>,
    needle: Seq<u32>,
    upto: int,
) -> Option<int>
    decreases upto,
{
    if upto <= 0 {
        None
    } else {
        let j = upto - 1;
        let last = needle.len() - 1;
        match (
            best_end(config, haystack, needle, upto - 1),
            cell(config, haystack, needle, last, j),
        ) {
            (None, None) => None,
            (None, Some(_)) => Some(j),
            (Some(b), None) => Some(b),
            (Some(b), Some(c)) => if c.score > cell(config, haystack, needle, last, b)->0.score {
                Some(j)
            } else {
                Some(b)
            },
        }
    }
}

/// Where the optimal alignment ends.
pub open spec fn optimal_end(
    config: MatcherConfig,
    haystack: Seq<u32>,
    needle: Seq<u32>,
) -> Option<int> {
    best_end(config, haystack, needle, haystack.len() as int)
}

/// The total of the optimal alignment; `None` where there is no alignment.
pub open spec fn optimal_score(
    config: MatcherConfig,
    haystack: Seq<u32>,
    needle: Seq<u32>,
) -> Option<int> {
    match optimal_end(config, haystack, needle) {
        Some(b) => Some(cell(config, haystack, needle, needle.len() - 1, b)->0.score),
        None => None,
    }
}

/// The positions of the best alignment that ends in the cell for needle
/// character `i` at haystack position `j`.
pub open spec fn path(
    config: MatcherConfig,
    haystack: Seq<u32>,
    needle: Seq<u32>,
    i: int,
    j: int,
) -> Seq<int>
    decreases i,
{
    if i <= 0 {
        seq![j]
    } else {
        match cell(config, haystack, needle, i, j) {
            Some(c) => path(config, haystack, needle, i - 1, c.prev).push(j),
            None => seq![j],
        }
    }
}

/// The positions of the optimal alignment.
pub open spec fn optimal_placement(
    config: MatcherConfig,
    haystack: Seq<u32>,
    needle: Seq<u32>,
) -> Seq<int> {
    path(
        config,
        haystack,
        needle,
        needle.len() - 1,
        optimal_end(config, haystack, needle)->0,
    )
}

/// What a row offers across a gap comes from one of its cells, and is the best
/// that any of its cells far enough to the left can offer.
pub proof fn lemma_gap(
    config: MatcherConfig,
    haystack: Seq<u32>,
    needle: Seq<u32>,
    i: int,
    j: int,
)
    ensures
        gap(config, haystack, needle, i, j) is Some ==> {
            let g = gap(config, haystack, needle, i, j)->0;
            &&& 0 <= g.from <= j - 2
            &&& cell(config, haystack, needle, i, g.from) is Some
            &&& g.score == sat_sub(
                cell(config, haystack, needle, i, g.from)->0.score,
                gap_penalty(config, j - 1 - g.from),
            )
        },
        forall|k: int|
            0 <= k <= j - 2 && (#[trigger] cell(config, haystack, needle, i, k)) is Some ==> {
                &&& gap(config, haystack, needle, i, j) is Some
                &&& gap(config, haystack, needle, i, j)->0.score >= sat_sub(
                    cell(config, haystack, needle, i, k)->0.score,
                    gap_penalty(config, j - 1 - k),
                )
            },
    decreases j,
{
    if i < 0 {
        assert forall|k: int| 0 <= k <= j - 2 implies (#[trigger] cell(
            config,
            haystack,
            needle,
            i,
            k,
        )) is None by {}
    } else if j >= 2 {
        lemma_gap(config, haystack, needle, i, j - 1);
        let older = gap(config, haystack, needle, i, j - 1);
        let fresh = cell(config, haystack, needle, i, j - 2);
        let ext = config.penalty_gap_extension as int;
        lemma_gap_penalty_one(config);
        if older is Some {
            let o = older->0;
            lemma_gap_penalty_step(config, j - 2 - o.from);
            lemma_sat_sub_twice(
                cell(config, haystack, needle, i, o.from)->0.score,
                gap_penalty(config, j - 2 - o.from),
                ext,
            );
        }
        assert forall|k: int|
            0 <= k <= j - 2 && (#[trigger] cell(config, haystack, needle, i, k)) is Some implies {
            &&& gap(config, haystack, needle, i, j) is Some
            &&& gap(config, haystack, needle, i, j)->0.score >= sat_sub(
                cell(config, haystack, needle, i, k)->0.score,
                gap_penalty(config, j - 1 - k),
            )
        } by {
            if k < j - 2 {
                lemma_gap_penalty_step(config, j - 2 - k);
                lemma_sat_sub_twice(
                    cell(config, haystack, needle, i, k)->0.score,
                    gap_penalty(config, j - 2 - k),
                    ext,
                );
            }
        }
    }
}

/// How a cell's content comes from the cell that it was reached from.
pub proof fn lemma_cell(
    config: MatcherConfig,
    haystack: Seq<u32>,
    needle: Seq<u32>,
    i: int,
    j: int,
)
    requires
        cell(config, haystack, needle, i, j) is Some,
    ensures
        eligible(config, haystack, needle, i, j),
        i == 0 ==> cell(config, haystack, needle, i, j)->0 == (Node {
            score: bonus_at(config, haystack, j),
            run: 1,
            prev: -1,
        }),
        i > 0 ==> {
            let c = cell(config, haystack, needle, i, j)->0;
            let p = cell(config, haystack, needle, i - 1, c.prev)->0;
            &&& 0 <= c.prev < j
            &&& cell(config, haystack, needle, i - 1, c.prev) is Some
            &&& c.prev == j - 1 ==> c.run == p.run + 1 && c.score == p.score + run_bonus(
                config,
                c.run,
            ) + bonus_at(config, haystack, j)
            &&& c.prev != j - 1 ==> c.run == 1 && c.score == sat_sub(
                p.score,
                gap_penalty(config, j - 1 - c.prev),
            ) + bonus_at(config, haystack, j)
        },
{
    if i > 0 {
        lemma_gap(config, haystack, needle, i - 1, j);
        if cell(config, haystack, needle, i - 1, j - 1) is Some {
            assert(eligible(config, haystack, needle, i - 1, j - 1));
        }
    }
}

/// A cell's total is never negative and grows by a bounded amount from row to
/// row; its run is no longer than the number of its row.
pub proof fn lemma_cell_bounds(
    config: MatcherConfig,
    haystack: Seq<u32>,
    needle: Seq<u32>,
    i: int,
    j: int,
)
    requires
        cell(config, haystack, needle, i, j) is Some,
    ensures
        0 <= cell(config, haystack, needle, i, j)->0.score <= (i + 1) * step_max(),
        1 <= cell(config, haystack, needle, i, j)->0.run <= i + 1,
    decreases i,
{
    let c = cell(config, haystack, needle, i, j)->0;
    lemma_cell(config, haystack, needle, i, j);
    lemma_bonus_bounds(config, haystack, j);
    if i > 0 {
        lemma_cell_bounds(config, haystack, needle, i - 1, c.prev);
        lemma_run_bonus_bounds(config, c.run);
        assert((i + 1) * step_max() == i * step_max() + step_max()) by (nonlinear_arith);
    }
}

/// No cell lies to the left of the greedy position of its needle character.
pub proof fn lemma_cell_after_greedy(
    config: MatcherConfig,
    haystack: Seq<u32>,
    needle: Seq<u32>,
    i: int,
    j: int,
)
    requires
        cell(config, haystack, needle, i, j) is Some,
    ensures
        greedy_pos(config, haystack, needle, i) <= j,
        greedy_pos(config, haystack, needle, 0) <= j,
    decreases i,
{
    let c = cell(config, haystack, needle, i, j)->0;
    lemma_cell(config, haystack, needle, i, j);
    if i == 0 {
        lemma_next_match(config, haystack, needle, 0, 0);
    } else {
        lemma_cell_after_greedy(config, haystack, needle, i - 1, c.prev);
        lemma_greedy_pos(config, haystack, needle, i - 1);
        lemma_next_match(
            config,
            haystack,
            needle,
            i,
            greedy_pos(config, haystack, needle, i - 1) + 1,
        );
    }
}

/// The way back from a cell is an alignment of the needle characters up to the
/// cell's own, and the cell holds its total and the length of its last run.
pub proof fn lemma_path(
    config: MatcherConfig,
    haystack: Seq<u32>,
    needle: Seq<u32>,
    i: int,
    j: int,
)
    requires
        cell(config, haystack, needle, i, j) is Some,
    ensures
        path(config, haystack, needle, i, j).len() == i + 1,
        path(config, haystack, needle, i, j)[i] == j,
        i > 0 ==> path(config, haystack, needle, i, j).take(i) == path(
            config,
            haystack,
            needle,
            i - 1,
            cell(config, haystack, needle, i, j)->0.prev,
        ),
        forall|k: int|
            0 <= k <= i ==> eligible(
                config,
                haystack,
                needle,
                k,
                #[trigger] path(config, haystack, needle, i, j)[k],
            ),
        forall|k: int|
            0 < k <= i ==> path(config, haystack, needle, i, j)[k - 1] < #[trigger] path(
                config,
                haystack,
                needle,
                i,
                j,
            )[k],
        score_upto(config, haystack, path(config, haystack, needle, i, j), i) == cell(
            config,
            haystack,
            needle,
            i,
            j,
        )->0.score,
        run_len(path(config, haystack, needle, i, j), i) == cell(
            config,
            haystack,
            needle,
            i,
            j,
        )->0.run,
    decreases i,
{
    let c = cell(config, haystack, needle, i, j)->0;
    let p = path(config, haystack, needle, i, j);
    lemma_cell(config, haystack, needle, i, j);
    if i > 0 {
        let q = path(config, haystack, needle, i - 1, c.prev);
        lemma_path(config, haystack, needle, i - 1, c.prev);
        assert(p == q.push(j));
        assert(p.take(i) =~= q);
        assert forall|k: int| 0 <= k <= i implies eligible(
            config,
            haystack,
            needle,
            k,
            #[trigger] p[k],
        ) by {
            if k < i {
                assert(p[k] == q[k]);
            }
        }
        assert forall|k: int| 0 < k <= i implies p[k - 1] < #[trigger] p[k] by {
            if k < i {
                assert(p[k] == q[k]);
                assert(p[k - 1] == q[k - 1]);
            }
        }
        lemma_score_prefix(config, haystack, p, q, i - 1);
        assert(p[i - 1] == c.prev);
    }
}

/// The best cell of a part of the last row is a cell of that part, no other
/// cell of the part holds more, and none to its left holds as much.
pub proof fn lemma_best_end(
    config: MatcherConfig,
    haystack: Seq<u32>,
    needle: Seq<u32>,
    upto: int,
)
    ensures
        best_end(config, haystack, needle, upto) is Some ==> {
            let b = best_end(config, haystack, needle, upto)->0;
            &&& 0 <= b < upto
            &&& cell(config, haystack, needle, needle.len() - 1, b) is Some
        },
        forall|j: int|
            0 <= j < upto && (#[trigger] cell(config, haystack, needle, needle.len() - 1, j))
                is Some ==> {
                let b = best_end(config, haystack, needle, upto)->0;
                let top = cell(config, haystack, needle, needle.len() - 1, b)->0.score;
                let here = cell(config, haystack, needle, needle.len() - 1, j)->0.score;
                &&& best_end(config, haystack, needle, upto) is Some
                &&& here <= top
                &&& here == top ==> b <= j
            },
    decreases upto,
{
    if upto > 0 {
        lemma_best_end(config, haystack, needle, upto - 1);
    }
}

/// Columns in which the last row is empty do not move its best cell.
pub proof fn lemma_best_end_stable(
    config: MatcherConfig,
    haystack: Seq<u32>,
    needle: Seq<u32>,
    from: int,
    upto: int,
)
    requires
        from <= upto,
        forall|j: int|
            from <= j < upto ==> (#[trigger] cell(config, haystack, needle, needle.len() - 1, j))
                is None,
    ensures
        best_end(config, haystack, needle, upto) == best_end(config, haystack, needle, from),
    decreases upto - from,
{
    if from < upto {
        lemma_best_end_stable(config, haystack, needle, from, upto - 1);
        assert(cell(config, haystack, needle, needle.len() - 1, upto - 1) is None);
    }
}

/// The cell at the greedy position of a needle character holds at least the
/// greedy total, in a run at least as long as the greedy one.
pub proof fn lemma_greedy_cell(
    config: MatcherConfig,
    haystack: Seq<u32>,
    needle: Seq<u32>,
    i: int,
)
    requires
        greedy_succeeds(config, haystack, needle),
        0 <= i < needle.len(),
    ensures
        cell(config, haystack, needle, i, greedy_pos(config, haystack, needle, i)) is Some,
        cell(config, haystack, needle, i, greedy_pos(config, haystack, needle, i))->0.score
            >= score_upto(config, haystack, greedy_placement(config, haystack, needle), i),
        cell(config, haystack, needle, i, greedy_pos(config, haystack, needle, i))->0.run
            >= run_len(greedy_placement(config, haystack, needle), i),
    decreases i,
{
    let gp = greedy_placement(config, haystack, needle);
    let j = greedy_pos(config, haystack, needle, i);
    lemma_greedy_prefix(config, haystack, needle, i, needle.len() - 1);
    lemma_greedy_pos(config, haystack, needle, i);
    assert(gp[i] == j);
    if i > 0 {
        let jp = greedy_pos(config, haystack, needle, i - 1);
        assert(gp[i - 1] == jp);
        lemma_greedy_cell(config, haystack, needle, i - 1);
        let pc = cell(config, haystack, needle, i - 1, jp)->0;
        let d = cell(config, haystack, needle, i - 1, j - 1);
        let g = gap(config, haystack, needle, i - 1, j);
        lemma_gap(config, haystack, needle, i - 1, j);
        if j == jp + 1 {
            if g is Some {
                lemma_cell_after_greedy(config, haystack, needle, i - 1, g->0.from);
            }
            lemma_run_bonus_monotone(config, run_len(gp, i - 1) + 1, pc.run + 1);
        } else {
            assert(cell(config, haystack, needle, i - 1, jp) is Some);
            assert(g is Some);
            if d is Some {
                lemma_cell_bounds(config, haystack, needle, i - 1, j - 1);
            }
        }
    }
}

/// The optimal total is no less than the greedy total.
pub proof fn lemma_optimal_bounds_greedy(
    config: MatcherConfig,
    haystack: Seq<u32>,
    needle: Seq<u32>,
)
    requires
        greedy_succeeds(config, haystack, needle),
    ensures
        optimal_score(config, haystack, needle) is Some,
        optimal_score(config, haystack, needle)->0 >= placement_score(
            config,
            haystack,
            greedy_placement(config, haystack, needle),
        ),
{
    let last = needle.len() - 1;
    lemma_greedy_cell(config, haystack, needle, last);
    lemma_greedy_pos(config, haystack, needle, last);
    lemma_best_end(config, haystack, needle, haystack.len() as int);
    assert(cell(config, haystack, needle, last, greedy_pos(config, haystack, needle, last))
        is Some);
}

/// Where there is an optimal alignment, its positions are a placement and its
/// total is the score of that placement.
pub proof fn lemma_optimal_is_placement(
    config: MatcherConfig,
    haystack: Seq<u32>,
    needle: Seq<u32>,
)
    requires
        optimal_end(config, haystack, needle) is Some,
    ensures
        is_placement(config, haystack, needle, optimal_placement(config, haystack, needle)),
        optimal_score(config, haystack, needle) == Some(
            placement_score(config, haystack, optimal_placement(config, haystack, needle)),
        ),
{
    let last = needle.len() - 1;
    let b = optimal_end(config, haystack, needle)->0;
    lemma_best_end(config, haystack, needle, haystack.len() as int);
    lemma_cell(config, haystack, needle, last, b);
    lemma_path(config, haystack, needle, last, b);
}

/// There is an optimal alignment exactly where the needle occurs in the haystack.
pub proof fn lemma_optimal_iff_matchable(
    config: MatcherConfig,
    haystack: Seq<u32>,
    needle: Seq<u32>,
)
    ensures
        optimal_end(config, haystack, needle) is Some <==> matchable(config, haystack, needle),
        optimal_score(config, haystack, needle) is Some <==> matchable(config, haystack, needle),
{
    lemma_matchable_iff_greedy(config, haystack, needle);
    if greedy_succeeds(config, haystack, needle) {
        lemma_optimal_bounds_greedy(config, haystack, needle);
    }
    if optimal_end(config, haystack, needle) is Some {
        lemma_optimal_is_placement(config, haystack, needle);
    }
}

/// Whether a stored cell says what the model says of the cell in column `j`.
pub open spec fn holds(stored: Cell, model: Option<Node>, j: int) -> bool {
    match model {
        None => stored.step is Unreached,
        Some(node) => {
            &&& stored.score == node.score
            &&& stored.run == node.run
            &&& match stored.step {
                Step::Unreached => false,
                Step::First => node.prev == -1,
                Step::Extend => node.prev == j - 1,
                Step::Skip(skipped) => skipped >= 1 && node.prev == j - 1 - skipped,
            }
        },
    }
}

/// Whether a stored offer says what the model says.
pub open spec fn lead_holds(stored: Option<(u64, usize)>, model: Option<Lead>) -> bool {
    match (stored, model) {
        (None, None) => true,
        (Some(pair), Some(lead)) => pair.0 == lead.score && pair.1 == lead.from,
        _ => false,
    }
}

/// Whether the first `rows` rows of the grid hold, in their first `cols`
/// columns, the cells of the window that starts at `start`.
pub open spec fn filled(
    slab: &MatrixSlab,
    config: MatcherConfig,
    haystack: Seq<u32>,
    needle: Seq<u32>,
    start: int,
    rows: int,
    cols: int,
) -> bool {
    forall|r: int, c: int|
        0 <= r < rows && 0 <= c < cols ==> holds(
            #[trigger] slab.at(r, c),
            cell(config, haystack, needle, r, start + c),
            start + c,
        )
}

/// No total of a haystack of at most 2^32 - 1 characters is above this.
pub open spec fn total_max() -> int {
    0x2_0000_0000_0000
}

/// The totals of the rows that a grid can have stay far inside 64 bits.
pub proof fn lemma_total_max(rows: int)
    requires
        0 <= rows <= 0x1_0000_0000,
    ensures
        rows * step_max() <= total_max(),
{
    assert(rows * step_max() <= 0x1_0000_0000 * step_max()) by (nonlinear_arith)
        requires
            rows <= 0x1_0000_0000,
    ;
}

/// The cell in column `j` from the cell `d` up and to the left of it and from
/// what the row above offers across a gap.
fn join_cells<H: Char>(
    config: &MatcherConfig,
    haystack: &[H],
    j: usize,
    d: Cell,
    lead: Option<(u64, usize)>,
    Ghost(dm): Ghost<Option<Node>>,
    Ghost(gm): Ghost<Option<Lead>>,
) -> (stored: Cell)
    requires
        j < haystack@.len() <= u32::MAX,
        holds(d, dm, j - 1),
        lead_holds(lead, gm),
        dm is Some ==> 0 <= dm->0.score <= total_max() && 1 <= dm->0.run < u32::MAX,
        gm is Some ==> 0 <= gm->0.score <= total_max() && 0 <= gm->0.from <= j - 2,
    ensures
        holds(stored, join(*config, codes(haystack@), j as int, dm, gm), j as int),
{
    let bonus: u64 = position_bonus(config, haystack, j) as u64;
    let reached: bool = !matches!(d.step, Step::Unreached);
    if reached {
        let run: u32 = d.run + 1;
        let extended: u64 = d.score + consecutive_bonus(config, run) as u64;
        match lead {
            Some((offered, from)) if offered > extended => Cell {
                score: offered + bonus,
                run: 1,
                step: Step::Skip((j - 1 - from) as u32),
            },
            _ => Cell { score: extended + bonus, run, step: Step::Extend },
        }
    } else {
        match lead {
            Some((offered, from)) => Cell {
                score: offered + bonus,
                run: 1,
                step: Step::Skip((j - 1 - from) as u32),
            },
            None => blank_cell(),
        }
    }
}

/// What the row offers to column `j + 1` across a gap, from what it offered to
/// column `j` and from its cell `d` in column `j - 1`.
fn carry_lead(
    config: &MatcherConfig,
    j: usize,
    lead: Option<(u64, usize)>,
    d: Cell,
    Ghost(om): Ghost<Option<Lead>>,
    Ghost(fm): Ghost<Option<Node>>,
) -> (next: Option<(u64, usize)>)
    requires
        lead_holds(lead, om),
        holds(d, fm, j - 1),
        fm is Some ==> j >= 1 && 0 <= fm->0.score <= total_max(),
    ensures
        lead_holds(next, carry(*config, j + 1, om, fm)),
{
    let reached: bool = !matches!(d.step, Step::Unreached);
    let older: Option<(u64, usize)> = match lead {
        Some((offered, from)) => Some((charge(offered, config.penalty_gap_extension as u64), from)),
        None => None,
    };
    if reached {
        let fresh: u64 = charge(d.score, config.penalty_gap_start as u64);
        match older {
            Some((offered, _)) if offered > fresh => older,
            _ => Some((fresh, j - 1)),
        }
    } else {
        older
    }
}

/// Fills row `i` of the grid from the row above it.
fn fill_row<H: Char, N: Char>(
    slab: &mut MatrixSlab,
    config: &MatcherConfig,
    haystack: &[H],
    needle: &[N],
    start: usize,
    end: usize,
    i: usize,
)
    requires
        i < needle@.len() <= haystack@.len() <= u32::MAX,
        start <= end <= haystack@.len(),
        start <= greedy_pos(*config, codes(haystack@), codes(needle@), 0),
        old(slab).spans(needle@.len() as int, end - start),
        filled(old(slab), *config, codes(haystack@), codes(needle@), start as int, i as int, end - start),
    ensures
        final(slab).spans(needle@.len() as int, end - start),
        final(slab).same_shape(old(slab)),
        filled(final(slab), *config, codes(haystack@), codes(needle@), start as int, i + 1, end - start),
{
    let ghost hs = codes(haystack@);
    let ghost ns = codes(needle@);
    let nc: N = needle[i];
    let cols: usize = end - start;
    let mut lead: Option<(u64, usize)> = None;
    let mut c: usize = 0;
    proof {
        if i > 0 && gap(*config, hs, ns, i - 1, start as int) is Some {
            lemma_gap(*config, hs, ns, i - 1, start as int);
            lemma_cell_after_greedy(
                *config,
                hs,
                ns,
                i - 1,
                gap(*config, hs, ns, i - 1, start as int)->0.from,
            );
        }
    }
    while c < cols
        invariant
            c <= cols,
            cols == end - start,
            i < needle@.len() <= haystack@.len() <= u32::MAX,
            start <= end <= haystack@.len(),
            start <= greedy_pos(*config, hs, ns, 0),
            hs == codes(haystack@),
            ns == codes(needle@),
            nc == needle@[i as int],
            slab.spans(needle@.len() as int, end - start),
            slab.same_shape(old(slab)),
            filled(slab, *config, hs, ns, start as int, i as int, end - start),
            forall|k: int|
                0 <= k < c ==> holds(
                    #[trigger] slab.at(i as int, k),
                    cell(*config, hs, ns, i as int, start + k),
                    start + k,
                ),
            lead_holds(lead, gap(*config, hs, ns, i - 1, start + c)),
        decreases cols - c,
    {
        let j: usize = start + c;
        let ghost dm = cell(*config, hs, ns, i - 1, j - 1);
        let ghost gm = gap(*config, hs, ns, i - 1, j as int);
        let d: Cell = if i > 0 && c > 0 {
            slab.get(i - 1, c - 1)
        } else {
            blank_cell()
        };
        proof {
            if dm is Some {
                lemma_cell_after_greedy(*config, hs, ns, i - 1, j - 1);
                lemma_cell_bounds(*config, hs, ns, i - 1, j - 1);
                lemma_total_max(i as int);
                assert(holds(slab.at(i - 1, c - 1), dm, j - 1));
            } else if i > 0 && c > 0 {
                assert(holds(slab.at(i - 1, c - 1), dm, j - 1));
            }
            if gm is Some {
                lemma_gap(*config, hs, ns, i - 1, j as int);
                lemma_cell_bounds(*config, hs, ns, i - 1, gm->0.from);
                lemma_total_max(i as int);
            }
        }
        let stored: Cell = if !may_match(config.case_matching, haystack[j], nc) {
            blank_cell()
        } else if i == 0 {
            Cell { score: position_bonus(config, haystack, j) as u64, run: 1, step: Step::First }
        } else {
            join_cells(config, haystack, j, d, lead, Ghost(dm), Ghost(gm))
        };
        assert(holds(stored, cell(*config, hs, ns, i as int, j as int), j as int));
        let ghost before = *slab;
        slab.set(i, c, stored);
        if i > 0 {
            lead = carry_lead(config, j, lead, d, Ghost(gm), Ghost(dm));
        }
        proof {
            assert forall|r: int, k: int| 0 <= r < i && 0 <= k < cols implies holds(
                #[trigger] slab.at(r, k),
                cell(*config, hs, ns, r, start + k),
                start + k,
            ) by {
                assert(slab.at(r, k) == before.at(r, k));
            }
            assert forall|k: int| 0 <= k < c + 1 implies holds(
                #[trigger] slab.at(i as int, k),
                cell(*config, hs, ns, i as int, start + k),
                start + k,
            ) by {
                if k < c {
                    assert(slab.at(i as int, k) == before.at(i as int, k));
                }
            }
        }
        c = c + 1;
    }
    proof {
        assert forall|r: int, k: int| 0 <= r < i + 1 && 0 <= k < cols implies holds(
            #[trigger] slab.at(r, k),
            cell(*config, hs, ns, r, start + k),
            start + k,
        ) by {}
    }
}

/// The column of the best cell of the last row.
fn find_best(
    slab: &MatrixSlab,
    Ghost(config): Ghost<MatcherConfig>,
    Ghost(hs): Ghost<Seq<u32>>,
    Ghost(ns): Ghost<Seq<u32>>,
    rows: usize,
    start: usize,
    greedy_end: usize,
    end: usize,
) -> (best: usize)
    requires
        rows == ns.len(),
        rows > 0,
        start < greedy_end <= end <= hs.len(),
        slab.spans(rows as int, end - start),
        filled(slab, config, hs, ns, start as int, rows as int, end - start),
        best_end(config, hs, ns, greedy_end - 1) is None,
        best_end(config, hs, ns, end as int) is Some,
    ensures
        Some(best as int) == best_end(config, hs, ns, end as int),
        start <= best < end,
        slab.at(rows - 1, best - start).score == cell(
            config,
            hs,
            ns,
            rows - 1,
            best as int,
        )->0.score,
{
    let last: usize = rows - 1;
    let mut found: bool = false;
    let mut best: usize = 0;
    let mut top: u64 = 0;
    let mut j: usize = greedy_end - 1;
    while j < end
        invariant
            greedy_end - 1 <= j <= end,
            last == rows - 1,
            rows == ns.len(),
            start < greedy_end <= end <= hs.len(),
            slab.spans(rows as int, end - start),
            filled(slab, config, hs, ns, start as int, rows as int, end - start),
            found == (best_end(config, hs, ns, j as int) is Some),
            found ==> best == best_end(config, hs, ns, j as int)->0 && start <= best < j && top
                == cell(config, hs, ns, last as int, best as int)->0.score && cell(
                config,
                hs,
                ns,
                last as int,
                best as int,
            ) is Some,
        decreases end - j,
    {
        let here: Cell = slab.get(last, j - start);
        assert(holds(
            slab.at(last as int, j - start),
            cell(config, hs, ns, last as int, start + (j - start)),
            start + (j - start),
        ));
        if !matches!(here.step, Step::Unreached) {
            if !found || here.score > top {
                found = true;
                best = j;
                top = here.score;
            }
        }
        j = j + 1;
    }
    assert(holds(
        slab.at(last as int, best - start),
        cell(config, hs, ns, last as int, start + (best - start)),
        start + (best - start),
    ));
    best
}

/// One step of the way back: the cell in row `i` and column `j` lies on the
/// way `full`, and so does the cell that it was reached from.
proof fn lemma_trace_step(
    config: MatcherConfig,
    haystack: Seq<u32>,
    needle: Seq<u32>,
    full: Seq<int>,
    i: int,
    j: int,
)
    requires
        0 <= i < full.len(),
        cell(config, haystack, needle, i, j) is Some,
        full.take(i + 1) == path(config, haystack, needle, i, j),
    ensures
        full[i] == j,
        i > 0 ==> {
            let prev = cell(config, haystack, needle, i, j)->0.prev;
            &&& greedy_pos(config, haystack, needle, 0) <= prev < j
            &&& cell(config, haystack, needle, i - 1, prev) is Some
            &&& full.take(i) == path(config, haystack, needle, i - 1, prev)
        },
{
    lemma_path(config, haystack, needle, i, j);
    lemma_cell(config, haystack, needle, i, j);
    assert(full[i] == full.take(i + 1)[i]);
    if i > 0 {
        let prev = cell(config, haystack, needle, i, j)->0.prev;
        lemma_cell_after_greedy(config, haystack, needle, i - 1, prev);
        assert(full.take(i) =~= full.take(i + 1).take(i));
    }
}

/// Walks back from the cell in the last row and column `best`, and appends the
/// columns met, in rising order, to `indices`.
fn trace_back(
    slab: &MatrixSlab,
    Ghost(config): Ghost<MatcherConfig>,
    Ghost(hs): Ghost<Seq<u32>>,
    Ghost(ns): Ghost<Seq<u32>>,
    rows: usize,
    start: usize,
    end: usize,
    best: usize,
    indices: &mut Vec<u32>,
)
    requires
        rows == ns.len(),
        rows > 0,
        start <= best < end <= hs.len() <= u32::MAX,
        start <= greedy_pos(config, hs, ns, 0),
        slab.spans(rows as int, end - start),
        filled(slab, config, hs, ns, start as int, rows as int, end - start),
        cell(config, hs, ns, rows - 1, best as int) is Some,
    ensures
        final(indices)@ == old(indices)@ + as_indices(
            path(config, hs, ns, rows - 1, best as int),
        ),
{
    let ghost full = path(config, hs, ns, rows - 1, best as int);
    let base: usize = indices.len();
    let mut k: usize = 0;
    while k < rows
        invariant
            k <= rows,
            base == old(indices)@.len(),
            indices@.len() == base + k,
            indices@.subrange(0, base as int) == old(indices)@,
        decreases rows - k,
    {
        indices.push(0);
        assert(indices@.subrange(0, base as int) =~= old(indices)@);
        k = k + 1;
    }
    proof {
        assert(indices.len() == base + rows);
        lemma_path(config, hs, ns, rows - 1, best as int);
        assert(full.take(rows as int) =~= full);
        lemma_cell_after_greedy(config, hs, ns, rows - 1, best as int);
    }
    let mut i: usize = rows - 1;
    let mut j: usize = best;
    loop
        invariant
            i < rows,
            rows == ns.len(),
            start <= j < end <= hs.len() <= u32::MAX,
            start <= greedy_pos(config, hs, ns, 0),
            slab.spans(rows as int, end - start),
            filled(slab, config, hs, ns, start as int, rows as int, end - start),
            cell(config, hs, ns, i as int, j as int) is Some,
            full.len() == rows,
            full.take(i + 1) == path(config, hs, ns, i as int, j as int),
            base == old(indices)@.len(),
            base + rows <= usize::MAX,
            indices@.len() == base + rows,
            indices@.subrange(0, base as int) == old(indices)@,
            forall|t: int| i < t < rows ==> indices@[base + t] == as_indices(full)[t],
        ensures
            indices@.len() == base + rows,
            indices@.subrange(0, base as int) == old(indices)@,
            forall|t: int| 0 <= t < rows ==> indices@[base + t] == as_indices(full)[t],
        decreases i,
    {
        let ghost before = indices@;
        indices[base + i] = j as u32;
        proof {
            lemma_trace_step(config, hs, ns, full, i as int, j as int);
            assert(indices@.subrange(0, base as int) =~= before.subrange(0, base as int));
        }
        if i == 0 {
            break ;
        }
        let here: Cell = slab.get(i, j - start);
        assert(holds(
            slab.at(i as int, j - start),
            cell(config, hs, ns, i as int, start + (j - start)),
            start + (j - start),
        ));
        let back: usize = match here.step {
            Step::Skip(skipped) => skipped as usize + 1,
            _ => 1,
        };
        j = j - back;
        i = i - 1;
    }
    proof {
        assert(indices@ =~= old(indices)@ + as_indices(full));
    }
}

/// Matches `needle` inside the window `start..end` and returns the score of the
/// optimal alignment; where `INDICES` is set, its positions are appended to
/// `indices`. The grid in `slab` is grown to the window where it is smaller.
pub fn fuzzy_match_optimal<const INDICES: bool, H: Char, N: Char>(
    slab: &mut MatrixSlab,
    config: &MatcherConfig,
    haystack: &[H],
    needle: &[N],
    start: usize,
    greedy_end: usize,
    end: usize,
    indices: &mut Vec<u32>,
) -> (score: Option<u16>)
    requires
        haystack@.len() <= u32::MAX,
        matchable(*config, codes(haystack@), codes(needle@)),
        start == window_start(*config, codes(haystack@), codes(needle@)),
        greedy_end == window_greedy_end(*config, codes(haystack@), codes(needle@)),
        end == window_end(*config, codes(haystack@), codes(needle@)),
    ensures
        optimal_score(*config, codes(haystack@), codes(needle@)) is Some,
        score == Some(clamp_score(optimal_score(*config, codes(haystack@), codes(needle@))->0)),
        final(indices)@ == if INDICES {
            old(indices)@ + as_indices(
                optimal_placement(*config, codes(haystack@), codes(needle@)),
            )
        } else {
            old(indices)@
        },
        final(slab).covers(old(slab)),
{
    let ghost hs = codes(haystack@);
    let ghost ns = codes(needle@);
    let rows: usize = needle.len();
    let len: usize = haystack.len();
    proof {
        lemma_optimal_iff_matchable(*config, hs, ns);
        lemma_matchable_iff_greedy(*config, hs, ns);
        lemma_greedy_is_placement(*config, hs, ns);
        lemma_placement_spread(*config, hs, ns, greedy_placement(*config, hs, ns), 0);
        lemma_window_holds_placement(*config, hs, ns, greedy_placement(*config, hs, ns), 0);
        lemma_prev_match(*config, hs, ns, rows - 1, len as int);
        lemma_greedy_prefix(*config, hs, ns, 0, rows - 1);
        lemma_greedy_leftmost(*config, hs, ns, greedy_placement(*config, hs, ns), rows - 1);
        lemma_greedy_pos(*config, hs, ns, rows - 1);
        assert(greedy_placement(*config, hs, ns)[rows - 1] == greedy_pos(*config, hs, ns, rows - 1));
    }
    if end - start == rows {
        let total: u16 = contiguous_match::<INDICES, H, N>(config, haystack, needle, start, indices);
        return Some(total);
    }
    let cols: usize = end - start;
    slab.reserve(rows, cols);
    let mut i: usize = 0;
    while i < rows
        invariant
            i <= rows,
            rows == needle@.len(),
            rows <= haystack@.len() <= u32::MAX,
            cols == end - start,
            start <= end <= haystack@.len(),
            start <= greedy_pos(*config, hs, ns, 0),
            hs == codes(haystack@),
            ns == codes(needle@),
            slab.spans(rows as int, cols as int),
            slab.covers(old(slab)),
            filled(slab, *config, hs, ns, start as int, i as int, cols as int),
        decreases rows - i,
    {
        fill_row(slab, config, haystack, needle, start, end, i);
        i = i + 1;
    }
    proof {
        assert forall|j: int| 0 <= j < greedy_end - 1 implies (#[trigger] cell(
            *config,
            hs,
            ns,
            rows - 1,
            j,
        )) is None by {
            if cell(*config, hs, ns, rows - 1, j) is Some {
                lemma_cell_after_greedy(*config, hs, ns, rows - 1, j);
            }
        }
        lemma_best_end_stable(*config, hs, ns, 0, greedy_end - 1);
        assert forall|j: int| end <= j < len implies (#[trigger] cell(
            *config,
            hs,
            ns,
            rows - 1,
            j,
        )) is None by {}
        lemma_best_end_stable(*config, hs, ns, end as int, len as int);
    }
    let best: usize = find_best(
        slab,
        Ghost(*config),
        Ghost(hs),
        Ghost(ns),
        rows,
        start,
        greedy_end,
        end,
    );
    let total: u64 = slab.get(rows - 1, best - start).score;
    if INDICES {
        proof {
            lemma_best_end(*config, hs, ns, end as int);
        }
        trace_back(slab, Ghost(*config), Ghost(hs), Ghost(ns), rows, start, end, best, indices);
    }
    Some(to_score(total))
}

} // verus!
