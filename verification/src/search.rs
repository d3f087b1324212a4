//! Depth-bounded adversarial search: minimax with alpha-beta pruning.

use vstd::prelude::*;
use crate::cache::DistanceCache;
use crate::cells::{cells_of, Cell};
use crate::eval::{value, value_ceiling, value_floor, FINAL_WEIGHT, SCORE_WEIGHT};
use crate::oracle::remembers;
use crate::snapshot::{seen, Snapshot};
use crate::state::{
    advance, destinations, has_headroom, lemma_advance_headroom, lemma_advance_well_formed,
    lemma_destinations, terminal, well_formed, GameState, StateView,
};

verus! {

/// The depth to which the agent searches before it moves.
pub const SEARCH_DEPTH: i32 = 9;

/// The value that a side starts from before it has found any move: the
/// lowest for the maximising side, the highest for the minimising side.
pub open spec fn worst(maximise: bool) -> int {
    if maximise {
        i128::MIN as int
    } else {
        i128::MAX as int
    }
}

/// The one of two values that a side prefers.
pub open spec fn better(maximise: bool, a: int, b: int) -> int {
    if maximise {
        if a >= b { a } else { b }
    } else {
        if a <= b { a } else { b }
    }
}

/// The value of a state under exhaustive search to the given depth: the
/// evaluation at depth 0 and at the end of a match, else the best of the
/// successors' values for the side to move.
pub open spec fn minimax(v: StateView, depth: nat) -> int
    decreases depth, destinations(v).len() + 1,
{
    if depth == 0 || terminal(v) {
        value(v)
    } else {
        best_among(v, depth, destinations(v).len())
    }
}

/// The best, for the side to move, of the values of the first `k`
/// successors, each searched to one ply less than `depth`.
pub open spec fn best_among(v: StateView, depth: nat, k: nat) -> int
    decreases depth, k,
{
    if k == 0 || depth == 0 {
        worst(v.is_max_player)
    } else {
        better(
            v.is_max_player,
            best_among(v, depth, (k - 1) as nat),
            minimax(advance(v, destinations(v)[k - 1]), (depth - 1) as nat),
        )
    }
}

/// The value that alpha-beta search finds for a state within the window
/// from `alpha` to `beta`: the evaluation at depth 0 and at the end of a
/// match, else what the walk over the successors arrives at.
pub open spec fn pruned(v: StateView, depth: nat, alpha: int, beta: int) -> int
    decreases depth, destinations(v).len() + 1,
{
    if depth == 0 || terminal(v) {
        value(v)
    } else {
        pruned_from(v, depth, alpha, beta, 0, worst(v.is_max_player))
    }
}

/// What the walk over the successors arrives at, from the `i`-th on, with
/// `best` the best value found so far. Each successor is searched within the
/// window as it then stands; the side to move keeps the better value and
/// narrows the window by it, and stops as soon as the value is outside.
pub open spec fn pruned_from(v: StateView, depth: nat, alpha: int, beta: int, i: nat, best: int) -> int
    decreases depth, destinations(v).len() - i,
{
    if depth == 0 || i >= destinations(v).len() {
        best
    } else {
        let found = pruned(advance(v, destinations(v)[i as int]), (depth - 1) as nat, alpha, beta);
        let best = better(v.is_max_player, best, found);
        if v.is_max_player {
            if best >= beta {
                best
            } else {
                pruned_from(v, depth, better(true, alpha, best), beta, i + 1, best)
            }
        } else {
            if best <= alpha {
                best
            } else {
                pruned_from(v, depth, alpha, better(false, beta, best), i + 1, best)
            }
        }
    }
}

/// What a search within the window from `alpha` to `beta` tells of the true
/// value `m`: a result inside the window is the true value; a result at or
/// below `alpha` bounds it from above, one at or above `beta` from below.
pub open spec fn settles(r: int, alpha: int, beta: int, m: int) -> bool {
    &&& r <= alpha ==> m <= r
    &&& r >= beta ==> m >= r
    &&& alpha < r < beta ==> r == m
}

/// The value, under exhaustive search, of the move to the `k`-th legal
/// destination, where `depth` plies are searched from the state before it.
pub open spec fn reply_value(v: StateView, depth: nat, k: int) -> int {
    minimax(advance(v, destinations(v)[k]), (depth - 1) as nat)
}

/// The value of the best move from a state under exhaustive search.
pub open spec fn root_value(v: StateView, depth: nat) -> int {
    best_among(v, depth, destinations(v).len())
}

/// Whether the `k`-th legal destination is the move to make: its value is
/// that of the best move, and no destination before it is as good.
pub open spec fn is_choice(v: StateView, depth: nat, k: int) -> bool {
    &&& 0 <= k < destinations(v).len()
    &&& reply_value(v, depth, k) == root_value(v, depth)
    &&& forall|j: int| 0 <= j < k ==> reply_value(v, depth, j) != root_value(v, depth)
}

/// Whether the walk over the successors of `v` stands right before the
/// `i`-th: `best` is below the cut-off, `bound` is the window's edge as
/// narrowed by `best`, and `best` tells of the first `i` successors what a
/// search tells of a state.
spec fn on_track(v: StateView, depth: nat, alpha: int, beta: int, bound: int, i: nat, best: int) -> bool {
    let so_far = best_among(v, depth, i);
    if v.is_max_player {
        &&& bound == better(true, alpha, best)
        &&& best < beta
        &&& best <= alpha ==> so_far <= best
        &&& alpha < best ==> so_far == best
    } else {
        &&& bound == better(false, beta, best)
        &&& best > alpha
        &&& best >= beta ==> so_far >= best
        &&& best < beta ==> so_far == best
    }
}

/// The best of the first `k` successors is no worse than any one of them,
/// and than the best of fewer.
proof fn lemma_best_among_covers(v: StateView, depth: nat, k: nat, j: nat)
    requires
        depth > 0,
        j < k,
    ensures
        better(
            v.is_max_player,
            best_among(v, depth, k),
            minimax(advance(v, destinations(v)[j as int]), (depth - 1) as nat),
        ) == best_among(v, depth, k),
        better(v.is_max_player, best_among(v, depth, k), best_among(v, depth, j)) == best_among(
            v,
            depth,
            k,
        ),
    decreases k,
{
    if j + 1 < k {
        lemma_best_among_covers(v, depth, (k - 1) as nat, j);
    } else {
        if j > 0 {
            lemma_best_among_covers(v, depth, j, (j - 1) as nat);
        }
    }
}

/// The rest of a walk that is on track ends with a result that tells of
/// all successors what a search tells of a state.
proof fn lemma_walk_is_sound(v: StateView, depth: nat, alpha: int, beta: int, bound: int, i: nat, best: int)
    requires
        depth > 0,
        i128::MIN <= alpha < beta <= i128::MAX,
        i <= destinations(v).len(),
        on_track(v, depth, alpha, beta, bound, i, best),
    ensures
        settles(
            if v.is_max_player {
                pruned_from(v, depth, bound, beta, i, best)
            } else {
                pruned_from(v, depth, alpha, bound, i, best)
            },
            alpha,
            beta,
            best_among(v, depth, destinations(v).len()),
        ),
    decreases depth, destinations(v).len() - i,
{
    let n = destinations(v).len();
    if i < n {
        let child = advance(v, destinations(v)[i as int]);
        let below = (depth - 1) as nat;
        assert(best_among(v, depth, i + 1) == better(
            v.is_max_player,
            best_among(v, depth, i),
            minimax(child, below),
        ));
        if v.is_max_player {
            law_pruning_is_sound(child, below, bound, beta);
            let found = pruned(child, below, bound, beta);
            let next = better(true, best, found);
            if next >= beta {
                lemma_best_among_covers(v, depth, n, i);
            } else {
                lemma_walk_is_sound(v, depth, alpha, beta, better(true, alpha, next), i + 1, next);
            }
        } else {
            law_pruning_is_sound(child, below, alpha, bound);
            let found = pruned(child, below, alpha, bound);
            let next = better(false, best, found);
            if next <= alpha {
                lemma_best_among_covers(v, depth, n, i);
            } else {
                lemma_walk_is_sound(v, depth, alpha, beta, better(false, beta, next), i + 1, next);
            }
        }
    }
}

/// The evaluation of any state that the machine can hold lies strictly
/// between the two starting values of the search.
pub proof fn lemma_value_range()
    ensures
        i128::MIN < value_floor(),
        value_ceiling() < i128::MAX,
{
    assert(FINAL_WEIGHT * SCORE_WEIGHT == 300_000);
}

/// Pruning is sound: within a window that is not empty, alpha-beta search
/// finds the value of exhaustive search where that lies inside the window,
/// and a bound on it on the right side where it does not.
pub proof fn law_pruning_is_sound(v: StateView, depth: nat, alpha: int, beta: int)
    requires
        i128::MIN <= alpha < beta <= i128::MAX,
    ensures
        settles(pruned(v, depth, alpha, beta), alpha, beta, minimax(v, depth)),
    decreases depth, destinations(v).len() + 1,
{
    if depth == 0 || terminal(v) {
    } else if v.is_max_player {
        lemma_walk_is_sound(v, depth, alpha, beta, alpha, 0, worst(true));
    } else {
        lemma_walk_is_sound(v, depth, alpha, beta, beta, 0, worst(false));
    }
}

/// The move that the search picks is worth what exhaustive search says the
/// state is worth, and no other move is better for the side to move.
pub proof fn law_choice_is_minimax(v: StateView, depth: nat, k: int)
    requires
        depth >= 1,
        is_choice(v, depth, k),
    ensures
        !terminal(v) ==> reply_value(v, depth, k) == minimax(v, depth),
        forall|j: int|
            0 <= j < destinations(v).len() ==> better(
                v.is_max_player,
                reply_value(v, depth, k),
                #[trigger] reply_value(v, depth, j),
            ) == reply_value(v, depth, k),
{
    assert forall|j: int| 0 <= j < destinations(v).len() implies better(
        v.is_max_player,
        reply_value(v, depth, k),
        #[trigger] reply_value(v, depth, j),
    ) == reply_value(v, depth, k) by {
        lemma_best_among_covers(v, depth, destinations(v).len(), j as nat);
    }
}

/// The value of `state` under search to `depth` plies within the window from
/// `alpha` to `beta`, the values that the maximising and the minimising side
/// can already be sure of elsewhere. Moves that cannot change the outcome
/// are not looked at. With the widest window the result is the value of
/// exhaustive search.
pub fn alpha_beta(state: &GameState, depth: i32, alpha: i128, beta: i128, cache: &mut DistanceCache) -> (r: i128)
    requires
        well_formed(state@),
        depth >= 0,
        has_headroom(state@, depth as int),
        remembers(old(cache)@, state@.walls, state.shape),
    ensures
        r == pruned(state@, depth as nat, alpha as int, beta as int),
        alpha < beta ==> settles(r as int, alpha as int, beta as int, minimax(state@, depth as nat)),
        alpha == i128::MIN && beta == i128::MAX ==> r == minimax(state@, depth as nat),
        value_floor() <= r <= value_ceiling(),
        remembers(final(cache)@, state@.walls, state.shape),
        final(cache).limit() == old(cache).limit(),
    decreases depth,
{
    proof {
        lemma_value_range();
        if alpha < beta {
            law_pruning_is_sound(state@, depth as nat, alpha as int, beta as int);
        }
    }
    if depth == 0 || state.is_terminal() {
        return state.evaluate(cache);
    }
    proof {
        lemma_destinations(state@);
    }
    let ghost v = state@;
    let ghost d = depth as nat;
    let cells = state.get_neighbors();
    let n = cells.len();
    let mut i: usize = 0;
    if state.is_max_player {
        let mut value: i128 = i128::MIN;
        let mut lower: i128 = alpha;
        while i < n
            invariant
                i <= n,
                cells@ == destinations(v),
                n == destinations(v).len(),
                v == state@,
                d == depth as nat,
                depth > 0,
                v.is_max_player,
                well_formed(v),
                has_headroom(v, depth as int),
                remembers(cache@, v.walls, v.shape),
                cache.limit() == old(cache).limit(),
                i == 0 ==> value == i128::MIN,
                i > 0 ==> value_floor() <= value <= value_ceiling(),
                pruned(v, d, alpha as int, beta as int) == pruned_from(
                    v,
                    d,
                    lower as int,
                    beta as int,
                    i as nat,
                    value as int,
                ),
            decreases n - i,
        {
            proof {
                lemma_destinations(v);
                lemma_advance_well_formed(v, destinations(v)[i as int]);
                lemma_advance_headroom(v, destinations(v)[i as int], depth as int);
            }
            let successor = state.move_bot(cells[i]);
            let found = alpha_beta(&successor, depth - 1, lower, beta, cache);
            if found > value {
                value = found;
            }
            if value >= beta {
                proof {
                    if alpha < beta {
                        law_pruning_is_sound(v, d, alpha as int, beta as int);
                    }
                }
                return value;
            }
            if value > lower {
                lower = value;
            }
            i += 1;
        }
        value
    } else {
        let mut value: i128 = i128::MAX;
        let mut upper: i128 = beta;
        while i < n
            invariant
                i <= n,
                cells@ == destinations(v),
                n == destinations(v).len(),
                v == state@,
                d == depth as nat,
                depth > 0,
                !v.is_max_player,
                well_formed(v),
                has_headroom(v, depth as int),
                remembers(cache@, v.walls, v.shape),
                cache.limit() == old(cache).limit(),
                i == 0 ==> value == i128::MAX,
                i > 0 ==> value_floor() <= value <= value_ceiling(),
                pruned(v, d, alpha as int, beta as int) == pruned_from(
                    v,
                    d,
                    alpha as int,
                    upper as int,
                    i as nat,
                    value as int,
                ),
            decreases n - i,
        {
            proof {
                lemma_destinations(v);
                lemma_advance_well_formed(v, destinations(v)[i as int]);
                lemma_advance_headroom(v, destinations(v)[i as int], depth as int);
            }
            let successor = state.move_bot(cells[i]);
            let found = alpha_beta(&successor, depth - 1, alpha, upper, cache);
            if found < value {
                value = found;
            }
            if value <= alpha {
                proof {
                    if alpha < beta {
                        law_pruning_is_sound(v, d, alpha as int, beta as int);
                    }
                }
                return value;
            }
            if value < upper {
                upper = value;
            }
            i += 1;
        }
        value
    }
}

/// The best move for the side to move in `state`, with the state it leads
/// to: the first of the legal destinations whose value, under search to
/// `depth` plies, is the best.
pub fn find_best_move(state: &GameState, depth: i32, cache: &mut DistanceCache) -> (best: (Cell, GameState))
    requires
        well_formed(state@),
        depth >= 1,
        has_headroom(state@, depth as int),
        remembers(old(cache)@, state@.walls, state.shape),
    ensures
        exists|k: int| #[trigger]
            is_choice(state@, depth as nat, k) && best.0 == destinations(state@)[k] && best.1@
                == advance(state@, best.0),
        remembers(final(cache)@, state@.walls, state.shape),
        final(cache).limit() == old(cache).limit(),
{
    proof {
        lemma_destinations(state@);
        lemma_value_range();
    }
    let ghost v = state@;
    let ghost d = depth as nat;
    let maximise = state.is_max_player;
    let cells = state.get_neighbors();
    let n = cells.len();
    let mut best_value: i128 = if maximise { i128::MIN } else { i128::MAX };
    let mut best_move: usize = 0;
    let mut i: usize = 0;
    while i < n
        invariant
            i <= n,
            cells@ == destinations(v),
            1 <= n == destinations(v).len(),
            v == state@,
            d == depth as nat,
            depth >= 1,
            maximise == v.is_max_player,
            well_formed(v),
            has_headroom(v, depth as int),
            remembers(cache@, v.walls, v.shape),
            cache.limit() == old(cache).limit(),
            best_value == best_among(v, d, i as nat),
            i > 0 ==> value_floor() <= best_value <= value_ceiling(),
            i > 0 ==> best_move < i && reply_value(v, d, best_move as int) == best_value,
            forall|j: int| 0 <= j < best_move ==> reply_value(v, d, j) != best_value,
        decreases n - i,
    {
        proof {
            lemma_destinations(v);
            lemma_advance_well_formed(v, destinations(v)[i as int]);
            lemma_advance_headroom(v, destinations(v)[i as int], depth as int);
            if i > 0 {
                assert forall|j: int| 0 <= j < i implies better(
                    maximise,
                    best_value as int,
                    reply_value(v, d, j),
                ) == best_value by {
                    lemma_best_among_covers(v, d, i as nat, j as nat);
                }
            }
        }
        let successor = state.move_bot(cells[i]);
        let found = alpha_beta(&successor, depth - 1, i128::MIN, i128::MAX, cache);
        if (maximise && found > best_value) || (!maximise && found < best_value) {
            best_value = found;
            best_move = i;
        }
        i += 1;
    }
    assert(is_choice(v, d, best_move as int));
    let dest = cells[best_move];
    (dest, state.move_bot(dest))
}

/// The cell to which the bot that the snapshot asks should move: one of its
/// legal destinations, and the first of them whose value is the best under
/// search to [`SEARCH_DEPTH`] plies.
pub fn mymove(bot: &Snapshot, cache: &mut DistanceCache) -> (r: Cell)
    requires
        bot.turn <= 1,
        well_formed(seen(*bot)),
        has_headroom(seen(*bot), SEARCH_DEPTH as int),
        remembers(old(cache)@, cells_of(bot.walls), bot.shape),
    ensures
        destinations(seen(*bot)).contains(r),
        exists|k: int| #[trigger]
            is_choice(seen(*bot), SEARCH_DEPTH as nat, k) && r == destinations(seen(*bot))[k],
        remembers(final(cache)@, cells_of(bot.walls), bot.shape),
        final(cache).limit() == old(cache).limit(),
{
    let gs = GameState::from_bot(bot);
    let best_move = find_best_move(&gs, SEARCH_DEPTH, cache);
    best_move.0
}

} // verus!
