//! What the host shows of a match when it asks the agent for a move, and the
//! game state that is made of it.

use vstd::prelude::*;
use crate::cells::{cells_of, set_clone, Cell, Shape};
use crate::state::{GameState, StateView};

verus! {

/// The match as the host shows it to one bot of the agent's team.
#[derive(Debug)]
pub struct Snapshot {
    /// Whether the agent plays team 0.
    pub is_blue: bool,
    /// Which of its team's two bots is asked: 0 for the first, 1 for the second.
    pub turn: usize,
    /// Where the bot that is asked stands.
    pub position: Cell,
    /// Where the other bot of the team stands.
    pub other: Cell,
    /// Where the two bots of the other team stand.
    pub enemy: [Cell; 2],
    /// The wall cells.
    pub walls: im::HashSet<Cell>,
    /// The food on the team's own half.
    pub food: im::HashSet<Cell>,
    /// The food on the other team's half.
    pub enemy_food: im::HashSet<Cell>,
    /// Width and height of the maze.
    pub shape: Shape,
    /// The team's points.
    pub score: usize,
    /// The other team's points.
    pub enemy_score: usize,
    /// The number of rounds played.
    pub round: usize,
}

/// The state that a snapshot shows. The agent's team takes the slots of its
/// colour, the bot that is asked moves next, and the agent's side is the one
/// that maximises.
pub open spec fn seen(s: Snapshot) -> StateView {
    let team: int = if s.is_blue { 0 } else { 1 };
    let me: int = 2 * s.turn + team;
    let mate: int = 2 * (1 - s.turn) + team;
    StateView {
        is_max_player: true,
        team_id: team,
        me_id: me,
        bots: Seq::new(
            4,
            |slot: int|
                if slot == me {
                    s.position
                } else if slot == mate {
                    s.other
                } else if slot == 1 - team {
                    s.enemy[0]
                } else {
                    s.enemy[1]
                },
        ),
        walls: cells_of(s.walls),
        food: Seq::new(2, |t: int| if t == team { cells_of(s.food) } else { cells_of(s.enemy_food) }),
        shape: s.shape,
        turn: me,
        score: Seq::new(2, |t: int| if t == team { s.score as int } else { s.enemy_score as int }),
        round: s.round as int,
    }
}

impl GameState {
    /// The state that the snapshot shows.
    pub fn from_bot(bot: &Snapshot) -> (state: Self)
        requires
            bot.turn <= 1,
        ensures
            state@ == seen(*bot),
    {
        let state = if bot.is_blue {
            let bots = if bot.turn == 0 {
                [bot.position, bot.enemy[0], bot.other, bot.enemy[1]]
            } else {
                [bot.other, bot.enemy[0], bot.position, bot.enemy[1]]
            };
            let turn: usize = if bot.turn == 0 { 0 } else { 2 };
            GameState {
                is_max_player: true,
                team_id: 0,
                me_id: bot.turn * 2,
                bots,
                walls: set_clone(&bot.walls),
                food: [set_clone(&bot.food), set_clone(&bot.enemy_food)],
                shape: bot.shape,
                turn,
                score: [bot.score, bot.enemy_score],
                round: bot.round,
            }
        } else {
            let bots = if bot.turn == 0 {
                [bot.enemy[0], bot.position, bot.enemy[1], bot.other]
            } else {
                [bot.enemy[0], bot.other, bot.enemy[1], bot.position]
            };
            let turn: usize = if bot.turn == 0 { 1 } else { 3 };
            GameState {
                is_max_player: true,
                team_id: 1,
                me_id: bot.turn * 2 + 1,
                bots,
                walls: set_clone(&bot.walls),
                food: [set_clone(&bot.enemy_food), set_clone(&bot.food)],
                shape: bot.shape,
                turn,
                score: [bot.enemy_score, bot.score],
                round: bot.round,
            }
        };
        proof {
            let w = seen(*bot);
            assert(state@.bots =~= w.bots);
            assert(state@.food =~= w.food);
            assert(state@.score =~= w.score);
        }
        state
    }
}

} // verus!
