//! The heuristic value of a state for the team whose side is taken.

use vstd::prelude::*;
use crate::cache::DistanceCache;
use crate::cells::{set_to_vec, Cell, Shape};
use crate::grid::{grid_distance, grid_fits};
use crate::oracle::remembers;
use crate::state::{terminal, GameState, StateView};

verus! {

/// The distance that stands for "no walk leads there".
pub const FAR: u32 = u32::MAX;

/// The weight of one point of score difference.
pub const SCORE_WEIGHT: i128 = 100;

/// The factor by which the score difference counts more once the match is
/// over.
pub const FINAL_WEIGHT: i128 = 3000;

/// The distance from `a` to `b` as the evaluation counts it: the grid
/// distance, and [`FAR`] where no walk exists.
pub open spec fn reach(walls: Set<Cell>, shape: Shape, a: Cell, b: Cell) -> int {
    match grid_distance(walls, shape, a, b) {
        Some(d) => d as int,
        None => FAR as int,
    }
}

/// Whether `d` is the least distance from `from` to a cell of `food`, or
/// [`FAR`] where there is no food.
pub open spec fn is_nearest(walls: Set<Cell>, shape: Shape, from: Cell, food: Set<Cell>, d: int) -> bool {
    &&& forall|f: Cell| food.contains(f) ==> d <= #[trigger] reach(walls, shape, from, f)
    &&& d <= FAR
    &&& d == FAR || exists|f: Cell| food.contains(f) && #[trigger] reach(walls, shape, from, f) == d
}

/// The least distance from `from` to a cell of `food`; [`FAR`] where there
/// is no food or no walk to any of it.
pub open spec fn nearest(walls: Set<Cell>, shape: Shape, from: Cell, food: Set<Cell>) -> int {
    choose|d: int| is_nearest(walls, shape, from, food, d)
}

/// The score difference in favour of the team, weighted, and weighted again
/// once the match is over.
pub open spec fn standing(v: StateView) -> int {
    let lead = SCORE_WEIGHT * (v.score[v.team_id] - v.score[1 - v.team_id]);
    if terminal(v) {
        FINAL_WEIGHT * lead
    } else {
        lead
    }
}

/// The sum of the distances from each of the team's bots to each bot of the
/// other team.
pub open spec fn pursuit(v: StateView) -> int {
    let t = v.team_id;
    reach(v.walls, v.shape, v.bots[t], v.bots[1 - t]) + reach(v.walls, v.shape, v.bots[t], v.bots[3 - t])
        + reach(v.walls, v.shape, v.bots[t + 2], v.bots[1 - t]) + reach(
        v.walls,
        v.shape,
        v.bots[t + 2],
        v.bots[3 - t],
    )
}

/// The sum, over the team's bots, of the distance to the nearest food that
/// the team can eat.
pub open spec fn forage(v: StateView) -> int {
    let t = v.team_id;
    nearest(v.walls, v.shape, v.bots[t], v.food[1 - t]) + nearest(
        v.walls,
        v.shape,
        v.bots[t + 2],
        v.food[1 - t],
    )
}

/// The value of a state for its team.
pub open spec fn value(v: StateView) -> int {
    standing(v) - pursuit(v) + forage(v)
}

/// No state is worth less than this.
pub open spec fn value_floor() -> int {
    -(FINAL_WEIGHT * SCORE_WEIGHT * usize::MAX) - 4 * FAR
}

/// No state is worth more than this.
pub open spec fn value_ceiling() -> int {
    FINAL_WEIGHT * SCORE_WEIGHT * usize::MAX + 2 * FAR
}

/// There is only one nearest distance.
pub proof fn lemma_nearest_is_unique(walls: Set<Cell>, shape: Shape, from: Cell, food: Set<Cell>, d: int)
    requires
        is_nearest(walls, shape, from, food, d),
    ensures
        nearest(walls, shape, from, food) == d,
{
    let e = nearest(walls, shape, from, food);
    assert(is_nearest(walls, shape, from, food, e));
    if e != FAR {
        let f = choose|f: Cell| food.contains(f) && #[trigger] reach(walls, shape, from, f) == e;
        assert(d <= reach(walls, shape, from, f));
    }
    if d != FAR {
        let f = choose|f: Cell| food.contains(f) && #[trigger] reach(walls, shape, from, f) == d;
        assert(e <= reach(walls, shape, from, f));
    }
}

impl GameState {
    /// The distance from `a` to `b` as the evaluation counts it.
    pub fn reach_c(&self, a: &Cell, b: &Cell, cache: &mut DistanceCache) -> (r: u32)
        requires
            grid_fits(self.shape),
            remembers(old(cache)@, self@.walls, self.shape),
        ensures
            r == reach(self@.walls, self.shape, *a, *b),
            remembers(final(cache)@, self@.walls, self.shape),
            final(cache).limit() == old(cache).limit(),
    {
        match self.distance_c(a, b, cache) {
            Some(d) => d,
            None => FAR,
        }
    }

    /// The least distance from `from` to one of the given food cells.
    pub fn nearest_food(&self, from: &Cell, cells: &Vec<Cell>, cache: &mut DistanceCache) -> (r: u32)
        requires
            grid_fits(self.shape),
            remembers(old(cache)@, self@.walls, self.shape),
        ensures
            r == nearest(self@.walls, self.shape, *from, cells@.to_set()),
            remembers(final(cache)@, self@.walls, self.shape),
            final(cache).limit() == old(cache).limit(),
    {
        let ghost walls = self@.walls;
        let mut best: u32 = FAR;
        let mut i: usize = 0;
        while i < cells.len()
            invariant
                i <= cells.len(),
                grid_fits(self.shape),
                walls == self@.walls,
                remembers(cache@, walls, self.shape),
                cache.limit() == old(cache).limit(),
                forall|j: int| 0 <= j < i ==> best <= reach(walls, self.shape, *from, #[trigger] cells@[j]),
                best == FAR || exists|j: int|
                    0 <= j < i && reach(walls, self.shape, *from, #[trigger] cells@[j]) == best,
            decreases cells.len() - i,
        {
            let d = self.reach_c(from, &cells[i], cache);
            if d < best {
                best = d;
            }
            i += 1;
        }
        proof {
            let food = cells@.to_set();
            assert forall|f: Cell| food.contains(f) implies best <= #[trigger] reach(
                walls,
                self.shape,
                *from,
                f,
            ) by {
                let j = choose|j: int| 0 <= j < cells@.len() && cells@[j] == f;
                assert(best <= reach(walls, self.shape, *from, cells@[j]));
            }
            if best != FAR {
                let j = choose|j: int|
                    0 <= j < cells@.len() && reach(walls, self.shape, *from, #[trigger] cells@[j]) == best;
                assert(food.contains(cells@[j]));
            }
            lemma_nearest_is_unique(walls, self.shape, *from, food, best as int);
        }
        best
    }

    /// The value of this state for its team: the weighted score difference,
    /// less the distances between the team's bots and the other team's, plus
    /// the distances from the team's bots to the nearest food they can eat.
    pub fn evaluate(&self, cache: &mut DistanceCache) -> (r: i128)
        requires
            self.team_id < 2,
            grid_fits(self.shape),
            remembers(old(cache)@, self@.walls, self.shape),
        ensures
            r == value(self@),
            value_floor() <= r <= value_ceiling(),
            remembers(final(cache)@, self@.walls, self.shape),
            final(cache).limit() == old(cache).limit(),
    {
        let team = self.team_id;
        let others = 1 - team;
        let mut score: i128 = SCORE_WEIGHT * (self.score[team] as i128 - self.score[others] as i128);
        if self.is_terminal() {
            score = FINAL_WEIGHT * score;
        }
        let ours: [usize; 2] = [team, team + 2];
        let theirs: [usize; 2] = [others, others + 2];

        let d00 = self.reach_c(&self.bots[ours[0]], &self.bots[theirs[0]], cache);
        let d01 = self.reach_c(&self.bots[ours[0]], &self.bots[theirs[1]], cache);
        let d10 = self.reach_c(&self.bots[ours[1]], &self.bots[theirs[0]], cache);
        let d11 = self.reach_c(&self.bots[ours[1]], &self.bots[theirs[1]], cache);
        score = score - d00 as i128 - d01 as i128 - d10 as i128 - d11 as i128;

        let food = set_to_vec(&self.food[others]);
        let f0 = self.nearest_food(&self.bots[ours[0]], &food, cache);
        let f1 = self.nearest_food(&self.bots[ours[1]], &food, cache);
        score = score + f0 as i128 + f1 as i128;
        score
    }
}

} // verus!
