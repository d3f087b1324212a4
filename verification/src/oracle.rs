//! Shortest-path distances on the maze, computed by A* search and remembered
//! in a bounded cache.

use vstd::prelude::*;
use crate::cache::{admitted, has_query, promoted, DistanceCache, Entry, Query};
use crate::cells::{cells_of, set_contains, Cell};
use crate::grid::{
    connected, grid_fits, is_distance, is_shortest, legal_from, lemma_blocked_end,
    lemma_distance_to_self, lemma_shortest_is_distance, manhattan_cost, on_grid, same_cell,
};
use crate::state::GameState;

verus! {

/// Whether every entry holds the grid distance of its query on the maze with
/// these walls and this shape.
pub open spec fn remembers(entries: Seq<Entry>, walls: Set<Cell>, shape: (usize, usize)) -> bool {
    forall|i: int|
        0 <= i < entries.len() ==> is_distance(
            walls,
            shape,
            (#[trigger] entries[i]).0.0,
            entries[i].0.1,
            entries[i].1,
        )
}

/// `pathfinding::directed::astar::astar`, run from `start` on the graph whose
/// edges lead from a cell to its legal destinations at cost 1 each, towards
/// `end`, with the Manhattan distance to `end` as the estimate. It returns
/// the cost of a shortest walk, and nothing where no walk exists. The grid
/// must be small enough for 32-bit costs and `end` must lie on it, so that no
/// cost and no estimate can overflow.
#[verifier::external_body]
fn astar_cost(state: &GameState, start: Cell, end: Cell) -> (r: Option<u32>)
    requires
        grid_fits(state.shape),
        on_grid(state.shape, end),
    ensures
        match r {
            Some(d) => is_shortest(cells_of(state.walls), state.shape, start, end, d as nat),
            None => !connected(cells_of(state.walls), state.shape, start, end),
        },
{
    pathfinding::directed::astar::astar(
        &start,
        |p| state.get_neighbors_cost(p),
        |p| manhattan_cost(*p, end),
        |p| same_cell(*p, end),
    ).map(|found| found.1)
}

impl GameState {
    /// The legal destinations from `pos`, each with the cost of the step to
    /// it, which is 1.
    pub fn get_neighbors_cost(&self, pos: &Cell) -> (r: Vec<(Cell, u32)>)
        ensures
            r@ == legal_from(self@.walls, self.shape, *pos).map_values(|c: Cell| (c, 1u32)),
    {
        let cells = self.get_neighbors_for(pos);
        let mut r: Vec<(Cell, u32)> = Vec::new();
        let mut i: usize = 0;
        while i < cells.len()
            invariant
                i <= cells.len(),
                r@ == cells@.take(i as int).map_values(|c: Cell| (c, 1u32)),
            decreases cells.len() - i,
        {
            r.push((cells[i], 1));
            assert(cells@.take(i + 1).map_values(|c: Cell| (c, 1u32)) =~= cells@.take(
                i as int,
            ).map_values(|c: Cell| (c, 1u32)).push((cells@[i as int], 1u32)));
            i += 1;
        }
        assert(cells@.take(cells.len() as int) =~= cells@);
        r
    }

    /// The number of steps of a shortest walk from `start` to `end`, or
    /// `None` where no walk leads there.
    pub fn distance(&self, start: &Cell, end: &Cell) -> (r: Option<u32>)
        requires
            grid_fits(self.shape),
        ensures
            is_distance(self@.walls, self.shape, *start, *end, r),
    {
        if same_cell(*start, *end) {
            proof {
                lemma_distance_to_self(self@.walls, self.shape, *start);
            }
            Some(0)
        } else if !(end.0 < self.shape.0 && end.1 < self.shape.1) || set_contains(&self.walls, *end) {
            proof {
                lemma_blocked_end(self@.walls, self.shape, *start, *end);
            }
            None
        } else {
            let r = astar_cost(self, *start, *end);
            proof {
                match r {
                    Some(d) => {
                        lemma_shortest_is_distance(self@.walls, self.shape, *start, *end, d as nat);
                    },
                    None => {},
                }
            }
            r
        }
    }

    /// The same distance as [`GameState::distance`], taken from the cache
    /// where it holds the query, and computed and stored where it does not.
    /// Either way the query's entry is then the most recently used; a new
    /// entry pushes the least recently used one out of a full cache.
    pub fn distance_c(&self, start: &Cell, end: &Cell, cache: &mut DistanceCache) -> (r: Option<u32>)
        requires
            grid_fits(self.shape),
            remembers(old(cache)@, self@.walls, self.shape),
        ensures
            is_distance(self@.walls, self.shape, *start, *end, r),
            remembers(final(cache)@, self@.walls, self.shape),
            final(cache).limit() == old(cache).limit(),
            forall|i: int|
                0 <= i < old(cache)@.len() && (#[trigger] old(cache)@[i]).0 == (*start, *end)
                    ==> final(cache)@ == promoted(old(cache)@, i),
            !has_query(old(cache)@, (*start, *end)) ==> final(cache)@ == admitted(
                old(cache)@,
                old(cache).limit(),
                ((*start, *end), r),
            ),
    {
        let q: Query = (*start, *end);
        let ghost before = cache@;
        match cache.lookup(q) {
            Some(d) => {
                proof {
                    assert(has_query(before, q));
                    let i = choose|i: int| 0 <= i < before.len() && (#[trigger] before[i]).0 == q;
                    assert(cache@ == promoted(before, i));
                    lemma_promoted_remembers(before, i, self@.walls, self.shape);
                }
                d
            },
            None => {
                let d = self.distance(start, end);
                cache.store(q, d);
                proof {
                    assert(!has_query(before, q));
                    lemma_admitted_remembers(before, cache.limit(), (q, d), self@.walls, self.shape);
                }
                d
            },
        }
    }
}

/// Moving an entry to the front keeps every entry true.
proof fn lemma_promoted_remembers(entries: Seq<Entry>, i: int, walls: Set<Cell>, shape: (usize, usize))
    requires
        0 <= i < entries.len(),
        remembers(entries, walls, shape),
    ensures
        remembers(promoted(entries, i), walls, shape),
{
    let after = promoted(entries, i);
    assert forall|j: int| 0 <= j < after.len() implies is_distance(
        walls,
        shape,
        (#[trigger] after[j]).0.0,
        after[j].0.1,
        after[j].1,
    ) by {
        if j == 0 {
            assert(after[j] == entries[i]);
        } else if j - 1 < i {
            assert(after[j] == entries[j - 1]);
        } else {
            assert(after[j] == entries[j]);
        }
    }
}

/// Putting a true entry in keeps every entry true.
proof fn lemma_admitted_remembers(
    entries: Seq<Entry>,
    limit: nat,
    e: Entry,
    walls: Set<Cell>,
    shape: (usize, usize),
)
    requires
        remembers(entries, walls, shape),
        is_distance(walls, shape, e.0.0, e.0.1, e.1),
    ensures
        remembers(admitted(entries, limit, e), walls, shape),
{
    let after = admitted(entries, limit, e);
    assert forall|j: int| 0 <= j < after.len() implies is_distance(
        walls,
        shape,
        (#[trigger] after[j]).0.0,
        after[j].0.1,
        after[j].1,
    ) by {
        if j == 0 {
            assert(after[j] == e);
        } else {
            assert(after[j] == entries[j - 1]);
        }
    }
}

} // verus!
