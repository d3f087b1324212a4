//! The agent of one match: it owns the distance cache, keeps it to the maze
//! that its distances belong to, and answers the host's call for a move.

use vstd::prelude::*;
use crate::cache::DistanceCache;
use crate::cells::{cells_of, set_clone, set_equal, Cell, Shape};
use crate::oracle::remembers;
use crate::search::{is_choice, mymove, SEARCH_DEPTH};
use crate::snapshot::{seen, Snapshot};
use crate::state::{destinations, has_headroom, well_formed, GameState};

verus! {

/// Whether a snapshot shows a state that can be searched: it asks the first
/// or the second bot of a team, the state is well formed, and the counters
/// leave room for the search.
pub open spec fn playable(bot: Snapshot) -> bool {
    bot.turn <= 1 && well_formed(seen(bot)) && has_headroom(seen(bot), SEARCH_DEPTH as int)
}

/// A distance cache together with the maze it was filled on.
pub struct Agent {
    walls: im::HashSet<Cell>,
    shape: Shape,
    cache: DistanceCache,
}

impl Agent {
    /// Whether every entry of the cache is a true distance on the agent's
    /// maze.
    pub closed spec fn well_formed(&self) -> bool {
        remembers(self.cache@, cells_of(self.walls), self.shape)
    }

    /// The walls of the maze that the cache belongs to.
    pub closed spec fn walls(&self) -> Set<Cell> {
        cells_of(self.walls)
    }

    /// The shape of the maze that the cache belongs to.
    pub closed spec fn shape(&self) -> Shape {
        self.shape
    }

    /// An agent for the maze of the snapshot, with nothing cached yet.
    pub fn new(bot: &Snapshot) -> (agent: Self)
        ensures
            agent.well_formed(),
            agent.walls() == cells_of(bot.walls),
            agent.shape() == bot.shape,
    {
        Agent { walls: set_clone(&bot.walls), shape: bot.shape, cache: DistanceCache::new() }
    }

    /// Whether the cache belongs to the maze of the snapshot.
    pub fn knows(&self, bot: &Snapshot) -> (r: bool)
        ensures
            r == (self.walls() =~= cells_of(bot.walls) && self.shape() == bot.shape),
    {
        self.shape.0 == bot.shape.0 && self.shape.1 == bot.shape.1 && set_equal(&self.walls, &bot.walls)
    }

    /// The move for the bot that the snapshot asks, or `None` where the
    /// snapshot shows no state that can be searched. A snapshot of another
    /// maze than the one before starts a new cache.
    pub fn next_move(&mut self, bot: &Snapshot) -> (r: Option<Cell>)
        requires
            old(self).well_formed(),
        ensures
            final(self).well_formed(),
            r is Some <==> playable(*bot),
            r matches Some(c) ==> destinations(seen(*bot)).contains(c) && exists|k: int| #[trigger]
                is_choice(seen(*bot), SEARCH_DEPTH as nat, k) && c == destinations(seen(*bot))[k],
            final(self).walls() =~= cells_of(bot.walls),
            final(self).shape() == bot.shape,
    {
        if !self.knows(bot) {
            self.cache = DistanceCache::new();
            self.walls = set_clone(&bot.walls);
            self.shape = bot.shape;
        }
        if bot.turn > 1 {
            return None;
        }
        let state = GameState::from_bot(bot);
        if !state.is_well_formed() || !state.has_room_for(SEARCH_DEPTH) {
            return None;
        }
        Some(mymove(bot, &mut self.cache))
    }
}

} // verus!
