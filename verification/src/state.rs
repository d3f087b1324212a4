//! The game state and its transitions.

use vstd::prelude::*;
use crate::cells::{
    cells_of, set_clone, set_contains, set_is_empty, set_to_vec, set_without, Cell, Shape,
};
use crate::grid::{
    candidate, grid_fits, is_free, legal_from, legal_upto, lemma_legal_from, same_cell, shape_fits,
};

verus! {

/// The round at which a match ends.
pub const LAST_ROUND: usize = 300;

/// The points that a team gets for a food cell.
pub const FOOD_POINTS: usize = 1;

/// The points that a team gets for a captured bot.
pub const BOT_POINTS: usize = 5;

/// The most that one move can add to a team's score: one food cell and both
/// bots of the other team.
pub const MOVE_POINTS: usize = 11;

/// One snapshot of a match. Bots 0 and 2 belong to team 0, bots 1 and 3 to
/// team 1; `food[t]` lies on team `t`'s half and is eaten by the other team.
#[derive(Debug)]
pub struct GameState {
    /// Whether the side to move is the one that maximises the evaluation.
    pub is_max_player: bool,
    /// The team from whose side a state is evaluated.
    pub team_id: usize,
    /// The bot that the agent controls.
    pub me_id: usize,
    /// Where each of the four bots stands.
    pub bots: [Cell; 4],
    /// The wall cells, the same for a whole match.
    pub walls: im::HashSet<Cell>,
    /// The food that is left on each team's half.
    pub food: [im::HashSet<Cell>; 2],
    /// Width and height of the maze.
    pub shape: Shape,
    /// The bot that moves next.
    pub turn: usize,
    /// The points of each team.
    pub score: [usize; 2],
    /// The number of rounds played.
    pub round: usize,
}

/// What a game state holds, as mathematical values: the same fields, with
/// sets for the cells and integers without bound for the counters.
pub struct StateView {
    /// Whether the side to move is the one that maximises the evaluation.
    pub is_max_player: bool,
    /// The team from whose side a state is evaluated.
    pub team_id: int,
    /// The bot that the agent controls.
    pub me_id: int,
    /// Where each of the four bots stands.
    pub bots: Seq<Cell>,
    /// The wall cells.
    pub walls: Set<Cell>,
    /// The food that is left on each team's half.
    pub food: Seq<Set<Cell>>,
    /// Width and height of the maze.
    pub shape: Shape,
    /// The bot that moves next.
    pub turn: int,
    /// The points of each team.
    pub score: Seq<int>,
    /// The number of rounds played.
    pub round: int,
}

impl View for GameState {
    type V = StateView;

    open spec fn view(&self) -> StateView {
        StateView {
            is_max_player: self.is_max_player,
            team_id: self.team_id as int,
            me_id: self.me_id as int,
            bots: self.bots@,
            walls: cells_of(self.walls),
            food: seq![cells_of(self.food[0]), cells_of(self.food[1])],
            shape: self.shape,
            turn: self.turn as int,
            score: seq![self.score[0] as int, self.score[1] as int],
            round: self.round as int,
        }
    }
}

impl Clone for GameState {
    /// A state that holds the same values.
    fn clone(&self) -> (s: Self)
        ensures
            s@ == self@,
    {
        let s = Self {
            is_max_player: self.is_max_player,
            team_id: self.team_id,
            me_id: self.me_id,
            bots: self.bots,
            walls: set_clone(&self.walls),
            food: [set_clone(&self.food[0]), set_clone(&self.food[1])],
            shape: self.shape,
            turn: self.turn,
            score: self.score,
            round: self.round,
        };
        assert(s@.food =~= self@.food);
        assert(s@.score =~= self@.score);
        s
    }
}

/// A match is over at the last round, or when either half has no food left.
pub open spec fn terminal(v: StateView) -> bool {
    v.round == LAST_ROUND || v.food[0] =~= Set::<Cell>::empty() || v.food[1] =~= Set::<Cell>::empty()
}

/// The legal destinations of the bot that moves next.
pub open spec fn destinations(v: StateView) -> Seq<Cell> {
    legal_from(v.walls, v.shape, v.bots[v.turn])
}

/// The cell to which a captured bot returns.
pub open spec fn home(shape: Shape, slot: int) -> Cell {
    if slot == 1 {
        ((shape.0 - 2) as usize, 2usize)
    } else if slot == 3 {
        ((shape.0 - 2) as usize, 3usize)
    } else {
        (1usize, (shape.1 - 3) as usize)
    }
}

/// The team of the bot that moves next.
pub open spec fn acting_team(v: StateView) -> int {
    v.turn % 2
}

/// Whether the bot that moves to `dest` eats a food cell there: food on the
/// other team's half.
pub open spec fn eats(v: StateView, dest: Cell) -> bool {
    v.food[1 - acting_team(v)].contains(dest)
}

/// Whether `dest` lies on the acting team's own half, where it captures:
/// team 0 holds the columns left of the middle, team 1 the middle column and
/// those right of it.
pub open spec fn may_capture(v: StateView, dest: Cell) -> bool {
    if acting_team(v) == 0 {
        dest.0 < v.shape.0 / 2
    } else {
        dest.0 >= v.shape.0 / 2
    }
}

/// Whether the move to `dest` captures the bot in `slot`: a bot of the other
/// team that stands on `dest`, on the acting team's half.
pub open spec fn captures(v: StateView, dest: Cell, slot: int) -> bool {
    slot % 2 != acting_team(v) && may_capture(v, dest) && v.bots[slot] == dest
}

/// The number of bots that the move to `dest` captures.
pub open spec fn captured_count(v: StateView, dest: Cell) -> int {
    let t = acting_team(v);
    (if captures(v, dest, 1 - t) { 1int } else { 0int })
        + (if captures(v, dest, 3 - t) { 1int } else { 0int })
}

/// The points that the move to `dest` brings the acting team.
pub open spec fn gain(v: StateView, dest: Cell) -> int {
    (if eats(v, dest) { FOOD_POINTS as int } else { 0int }) + BOT_POINTS * captured_count(v, dest)
}

/// Where the bot in `slot` stands after the move to `dest`.
pub open spec fn bot_after(v: StateView, dest: Cell, slot: int) -> Cell {
    if slot == v.turn {
        dest
    } else if captures(v, dest, slot) {
        home(v.shape, slot)
    } else {
        v.bots[slot]
    }
}

/// The state after the bot that moves next has moved to `dest`.
pub open spec fn advance(v: StateView, dest: Cell) -> StateView {
    StateView {
        is_max_player: !v.is_max_player,
        team_id: v.team_id,
        me_id: v.me_id,
        bots: Seq::new(4, |slot: int| bot_after(v, dest, slot)),
        walls: v.walls,
        food: Seq::new(
            2,
            |t: int| if t == 1 - acting_team(v) { v.food[t].remove(dest) } else { v.food[t] },
        ),
        shape: v.shape,
        turn: (v.turn + 1) % 4,
        score: Seq::new(
            2,
            |t: int| if t == acting_team(v) { v.score[t] + gain(v, dest) } else { v.score[t] },
        ),
        round: if v.turn == 3 { v.round + 1 } else { v.round },
    }
}

/// Whether the counters leave room for `plies` more moves: no score and no
/// round count can then pass the largest machine integer.
pub open spec fn has_headroom(v: StateView, plies: int) -> bool {
    &&& v.score[0] + MOVE_POINTS * plies <= usize::MAX
    &&& v.score[1] + MOVE_POINTS * plies <= usize::MAX
    &&& v.round + plies <= usize::MAX
}

/// What makes a state a state of a match: indices in range, a grid that
/// holds the home cells and is small enough for path costs, every bot and
/// every home cell on a free cell, and finitely many food cells, none of
/// them on both halves.
pub open spec fn well_formed(v: StateView) -> bool {
    &&& 0 <= v.turn < 4
    &&& 0 <= v.team_id < 2
    &&& 0 <= v.me_id < 4
    &&& v.bots.len() == 4
    &&& v.food.len() == 2
    &&& v.score.len() == 2
    &&& v.score[0] >= 0
    &&& v.score[1] >= 0
    &&& v.round >= 0
    &&& v.shape.0 >= 2
    &&& v.shape.1 >= 4
    &&& grid_fits(v.shape)
    &&& forall|slot: int| 0 <= slot < 4 ==> is_free(v.walls, v.shape, #[trigger] v.bots[slot])
    &&& forall|slot: int| 0 <= slot < 4 ==> is_free(v.walls, v.shape, #[trigger] home(v.shape, slot))
    &&& v.food[0].finite()
    &&& v.food[1].finite()
    &&& v.food[0].disjoint(v.food[1])
}

/// The successors of a state: each legal destination with the state that
/// the move to it leads to, in the order of the destinations.
pub open spec fn successors(v: StateView) -> Seq<(Cell, StateView)> {
    Seq::new(destinations(v).len(), |i: int| (destinations(v)[i], advance(v, destinations(v)[i])))
}

/// A move to a free cell leads from a well-formed state to a well-formed
/// state.
pub proof fn lemma_advance_well_formed(v: StateView, dest: Cell)
    requires
        well_formed(v),
        is_free(v.walls, v.shape, dest),
    ensures
        well_formed(advance(v, dest)),
{
    let w = advance(v, dest);
    assert forall|slot: int| 0 <= slot < 4 implies is_free(w.walls, w.shape, #[trigger] w.bots[slot]) by {
        assert(is_free(v.walls, v.shape, v.bots[slot]));
        assert(is_free(v.walls, v.shape, home(v.shape, slot)));
    }
    assert forall|slot: int| 0 <= slot < 4 implies is_free(
        w.walls,
        w.shape,
        #[trigger] home(w.shape, slot),
    ) by {
        assert(is_free(v.walls, v.shape, home(v.shape, slot)));
    }
}

/// A move uses up the room of one move: what is left suffices for one move
/// less.
pub proof fn lemma_advance_headroom(v: StateView, dest: Cell, plies: int)
    requires
        0 <= v.turn < 4,
        v.score.len() == 2,
        plies >= 1,
        has_headroom(v, plies),
    ensures
        has_headroom(advance(v, dest), plies - 1),
        0 <= gain(v, dest) <= MOVE_POINTS,
{
}

/// In a well-formed state the bot that moves next can stay where it is, and
/// every legal destination is a free cell.
pub proof fn lemma_destinations(v: StateView)
    requires
        well_formed(v),
    ensures
        1 <= destinations(v).len() <= 5,
        destinations(v)[0] == v.bots[v.turn],
        forall|i: int|
            0 <= i < destinations(v).len() ==> is_free(v.walls, v.shape, #[trigger] destinations(v)[i]),
{
    let here = v.bots[v.turn];
    lemma_legal_from(v.walls, v.shape, here);
    assert(is_free(v.walls, v.shape, here));
    assert forall|i: int| 0 <= i < destinations(v).len() implies is_free(
        v.walls,
        v.shape,
        #[trigger] destinations(v)[i],
    ) by {
        assert(destinations(v).contains(destinations(v)[i]));
    }
}

/// A legal move never puts the moving bot on a wall: after it the bot
/// stands on its destination, which is a free cell, and the walls are the
/// same.
pub proof fn law_mover_stays_off_walls(v: StateView, dest: Cell)
    requires
        0 <= v.turn < 4,
        destinations(v).contains(dest),
    ensures
        advance(v, dest).bots[v.turn] == dest,
        advance(v, dest).walls == v.walls,
        !advance(v, dest).walls.contains(advance(v, dest).bots[v.turn]),
        is_free(v.walls, v.shape, dest),
{
    lemma_legal_from(v.walls, v.shape, v.bots[v.turn]);
}

/// Four moves in a row bring the turn back to the bot that moved first and
/// add exactly one round, wherever the bots move.
pub proof fn law_four_moves_make_a_round(v: StateView, d1: Cell, d2: Cell, d3: Cell, d4: Cell)
    requires
        0 <= v.turn < 4,
    ensures
        advance(advance(advance(advance(v, d1), d2), d3), d4).turn == v.turn,
        advance(advance(advance(advance(v, d1), d2), d3), d4).round == v.round + 1,
{
}

/// A move takes at most one food cell away, from the half of the other
/// team, and the acting team's score grows by one point for that cell and
/// five for each captured bot, while the other team's score stays.
pub proof fn law_food_pays_points(v: StateView, dest: Cell)
    requires
        well_formed(v),
    ensures
        ({
            let w = advance(v, dest);
            let t = acting_team(v);
            let eaten = v.food[1 - t].len() - w.food[1 - t].len();
            &&& w.food[t] == v.food[t]
            &&& w.food[1 - t].subset_of(v.food[1 - t])
            &&& 0 <= eaten <= 1
            &&& eaten == 1 <==> eats(v, dest)
            &&& w.score[t] == v.score[t] + FOOD_POINTS * eaten + BOT_POINTS * captured_count(v, dest)
            &&& w.score[1 - t] == v.score[1 - t]
            &&& w.score[0] >= v.score[0]
            &&& w.score[1] >= v.score[1]
        }),
{
    let t = acting_team(v);
    let before = v.food[1 - t];
    if before.contains(dest) {
        assert(before.remove(dest).len() == before.len() - 1);
    } else {
        assert(before.remove(dest) =~= before);
    }
}

/// No move lowers a score or the round count, and the round count grows by
/// one at most.
pub proof fn law_counters_never_fall(v: StateView, dest: Cell)
    requires
        0 <= v.turn < 4,
        v.score.len() == 2,
    ensures
        advance(v, dest).score[0] >= v.score[0],
        advance(v, dest).score[1] >= v.score[1],
        v.round <= advance(v, dest).round <= v.round + 1,
{
}

/// A move changes the place of the bot that moves and of the bots it
/// captures, and of no other bot.
pub proof fn law_other_bots_stay(v: StateView, dest: Cell, slot: int)
    requires
        0 <= slot < 4,
        slot != v.turn,
        !captures(v, dest, slot),
    ensures
        advance(v, dest).bots[slot] == v.bots[slot],
{
}

/// A captured bot returns to the home cell of its slot, and each capture
/// brings the acting team exactly five points.
pub proof fn law_capture_pays_five(v: StateView, dest: Cell, slot: int)
    requires
        0 <= v.turn < 4,
        0 <= slot < 4,
        v.score.len() == 2,
        captures(v, dest, slot),
    ensures
        advance(v, dest).bots[slot] == home(v.shape, slot),
        1 <= captured_count(v, dest) <= 2,
        advance(v, dest).score[acting_team(v)] == v.score[acting_team(v)] + (if eats(v, dest) {
            FOOD_POINTS as int
        } else {
            0
        }) + BOT_POINTS * captured_count(v, dest),
{
}

/// Whether a match is over depends on the round and the food alone: it is
/// over at the last round and whenever a half has no food, whatever the
/// other fields hold.
pub proof fn law_terminal_by_round_and_food(v: StateView, w: StateView)
    requires
        v.round == w.round,
        v.food == w.food,
    ensures
        terminal(v) == terminal(w),
        v.round == LAST_ROUND ==> terminal(v),
        v.food[0] =~= Set::<Cell>::empty() ==> terminal(v),
        v.food[1] =~= Set::<Cell>::empty() ==> terminal(v),
{
}

impl GameState {
    /// A state with the given fields.
    pub fn new(
        is_max_player: bool,
        team_id: usize,
        me_id: usize,
        bots: [Cell; 4],
        walls: im::HashSet<Cell>,
        food: [im::HashSet<Cell>; 2],
        shape: Shape,
        turn: usize,
        score: [usize; 2],
        round: usize,
    ) -> (s: Self)
        ensures
            s.is_max_player == is_max_player,
            s.team_id == team_id,
            s.me_id == me_id,
            s.bots == bots,
            s.walls == walls,
            s.food == food,
            s.shape == shape,
            s.turn == turn,
            s.score == score,
            s.round == round,
    {
        Self { is_max_player, team_id, me_id, bots, walls, food, shape, turn, score, round }
    }

    /// Whether the match is over in this state.
    pub fn is_terminal(&self) -> (r: bool)
        ensures
            r == terminal(self@),
    {
        self.round == LAST_ROUND || set_is_empty(&self.food[0]) || set_is_empty(&self.food[1])
    }

    /// The cells that a bot at `pos` can move to: staying, then one step
    /// down, right, up and left, each where that cell is free.
    pub fn get_neighbors_for(&self, pos: &Cell) -> (allowed: Vec<Cell>)
        ensures
            allowed@ == legal_from(self@.walls, self.shape, *pos),
    {
        let mut allowed: Vec<Cell> = Vec::with_capacity(5);
        let mut k: usize = 0;
        while k < 5
            invariant
                k <= 5,
                allowed@ == legal_upto(cells_of(self.walls), self.shape, *pos, k as nat),
            decreases 5 - k,
        {
            match candidate(*pos, k) {
                Some(c) => {
                    if c.0 < self.shape.0 && c.1 < self.shape.1 && !set_contains(&self.walls, c) {
                        allowed.push(c);
                    }
                },
                None => {},
            }
            k += 1;
        }
        allowed
    }

    /// The legal destinations of the bot that moves next.
    pub fn get_neighbors(&self) -> (allowed: Vec<Cell>)
        requires
            self.turn < 4,
        ensures
            allowed@ == destinations(self@),
    {
        let pos = self.bots[self.turn];
        self.get_neighbors_for(&pos)
    }

    /// The cell to which the bot in slot `idx` returns when it is captured.
    pub fn get_initial_pos(&self, idx: usize) -> (r: Cell)
        requires
            idx < 4,
            self.shape.0 >= 2,
            self.shape.1 >= 3,
        ensures
            r == home(self.shape, idx as int),
    {
        let shape = self.shape;
        if idx == 1 {
            (shape.0 - 2, 2)
        } else if idx == 3 {
            (shape.0 - 2, 3)
        } else {
            (1, shape.1 - 3)
        }
    }

    /// Resets the bot in `slot` to its home cell and pays for it, if the move
    /// of the bot in `mover` to `pos` captures it.
    fn capture(&self, bots: &mut [Cell; 4], points: &mut usize, mover: usize, slot: usize, pos: Cell)
        requires
            mover < 4,
            slot < 4,
            slot != mover,
            self.shape.0 >= 2,
            self.shape.1 >= 3,
            *old(points) + BOT_POINTS <= usize::MAX,
        ensures
            final(bots)@ == old(bots)@.update(
                slot as int,
                if old(bots)[slot as int] == pos { home(self.shape, slot as int) } else { old(bots)[slot as int] },
            ),
            *final(points) == *old(points) + if old(bots)[slot as int] == pos { BOT_POINTS as int } else { 0 },
    {
        if same_cell(bots[slot], pos) {
            bots[slot] = self.get_initial_pos(slot);
            *points = *points + BOT_POINTS;
        }
        assert(bots@ =~= old(bots)@.update(
            slot as int,
            if old(bots)[slot as int] == pos { home(self.shape, slot as int) } else { old(bots)[slot as int] },
        ));
    }

    /// Moves the bot whose turn it is to `pos` and returns the state in which
    /// the next bot moves: food on `pos` is eaten, bots of the other team on
    /// `pos` are captured, the turn passes on.
    pub fn move_bot(&self, pos: Cell) -> (next: GameState)
        requires
            self.turn < 4,
            self.shape.0 >= 2,
            self.shape.1 >= 3,
            has_headroom(self@, 1),
        ensures
            next@ == advance(self@, pos),
    {
        let mut score = self.score;
        let team_id = self.turn % 2;
        let mut bots = self.bots;
        let mut points: usize = score[team_id];

        let food = if team_id == 0 && set_contains(&self.food[1], pos) {
            points = points + FOOD_POINTS;
            [set_clone(&self.food[0]), set_without(&self.food[1], pos)]
        } else if team_id == 1 && set_contains(&self.food[0], pos) {
            points = points + FOOD_POINTS;
            [set_without(&self.food[0], pos), set_clone(&self.food[1])]
        } else {
            [set_clone(&self.food[0]), set_clone(&self.food[1])]
        };

        bots[self.turn] = pos;

        if team_id == 0 && pos.0 < self.shape.0 / 2 {
            self.capture(&mut bots, &mut points, self.turn, 1, pos);
            self.capture(&mut bots, &mut points, self.turn, 3, pos);
        } else if team_id == 1 && pos.0 >= self.shape.0 / 2 {
            self.capture(&mut bots, &mut points, self.turn, 0, pos);
            self.capture(&mut bots, &mut points, self.turn, 2, pos);
        }
        score[team_id] = points;

        let mut next_turn = self.turn + 1;
        let mut next_round = self.round;
        if next_turn == 4 {
            next_turn = 0;
            next_round = next_round + 1;
        }

        let next = GameState {
            team_id: self.team_id,
            me_id: self.me_id,
            bots,
            food,
            score,
            is_max_player: !self.is_max_player,
            walls: set_clone(&self.walls),
            shape: self.shape,
            turn: next_turn,
            round: next_round,
        };
        proof {
            let v = self@;
            let w = advance(v, pos);
            assert(next@.bots =~= w.bots);
            assert(next@.food[0] =~= w.food[0]);
            assert(next@.food[1] =~= w.food[1]);
            assert(next@.food =~= w.food);
            assert(next@.score =~= w.score);
        }
        next
    }

    /// Every legal destination of the bot that moves next, each with the
    /// state that the move to it leads to: staying first, then the four
    /// directions.
    pub fn get_successors(&self) -> (r: Vec<(Cell, GameState)>)
        requires
            self.turn < 4,
            self.shape.0 >= 2,
            self.shape.1 >= 3,
            has_headroom(self@, 1),
        ensures
            r@.len() == successors(self@).len(),
            forall|i: int|
                0 <= i < r@.len() ==> (#[trigger] r@[i]).0 == successors(self@)[i].0 && r@[i].1@
                    == successors(self@)[i].1,
    {
        let cells = self.get_neighbors();
        let mut r: Vec<(Cell, GameState)> = Vec::new();
        let mut i: usize = 0;
        while i < cells.len()
            invariant
                i <= cells.len(),
                self.turn < 4,
                self.shape.0 >= 2,
                self.shape.1 >= 3,
                has_headroom(self@, 1),
                cells@ == destinations(self@),
                r@.len() == i,
                forall|j: int|
                    0 <= j < i ==> (#[trigger] r@[j]).0 == cells@[j] && r@[j].1@ == advance(
                        self@,
                        cells@[j],
                    ),
            decreases cells.len() - i,
        {
            let pos = cells[i];
            let succ = self.move_bot(pos);
            r.push((pos, succ));
            i += 1;
        }
        r
    }

    /// Whether `c` is a free cell of this state's maze.
    pub fn is_free_cell(&self, c: Cell) -> (r: bool)
        ensures
            r == is_free(self@.walls, self.shape, c),
    {
        c.0 < self.shape.0 && c.1 < self.shape.1 && !set_contains(&self.walls, c)
    }

    /// Whether no food cell lies on both halves.
    fn food_is_split(&self) -> (r: bool)
        ensures
            r == self@.food[0].disjoint(self@.food[1]),
            self@.food[0].finite(),
            self@.food[1].finite(),
    {
        let left = set_to_vec(&self.food[0]);
        let right = set_to_vec(&self.food[1]);
        broadcast use vstd::seq_lib::seq_to_set_is_finite;
        assert(left@.to_set().finite());
        assert(right@.to_set().finite());
        let mut i: usize = 0;
        while i < left.len()
            invariant
                i <= left.len(),
                left@.to_set() == cells_of(self.food[0]),
                self@.food[0].finite(),
                self@.food[1].finite(),
                forall|j: int| 0 <= j < i ==> !cells_of(self.food[1]).contains(#[trigger] left@[j]),
            decreases left.len() - i,
        {
            if set_contains(&self.food[1], left[i]) {
                assert(left@.to_set().contains(left@[i as int]));
                return false;
            }
            i += 1;
        }
        assert forall|c: Cell| self@.food[0].contains(c) implies !self@.food[1].contains(c) by {
            let j = choose|j: int| 0 <= j < left@.len() && left@[j] == c;
            assert(!cells_of(self.food[1]).contains(left@[j]));
        }
        true
    }

    /// Whether the counters leave room for `plies` more moves.
    pub fn has_room_for(&self, plies: i32) -> (r: bool)
        requires
            plies >= 0,
        ensures
            r == has_headroom(self@, plies as int),
    {
        let plies: u64 = plies as u64;
        assert(MOVE_POINTS as u64 * plies == 11 * plies) by (nonlinear_arith)
            requires
                MOVE_POINTS == 11,
        ;
        let points: u64 = MOVE_POINTS as u64 * plies;
        let top: u64 = usize::MAX as u64;
        points <= top && self.score[0] as u64 <= top - points && self.score[1] as u64 <= top - points
            && self.round as u64 <= top - plies
    }

    /// Whether this state is well formed: only such a state can be searched.
    pub fn is_well_formed(&self) -> (r: bool)
        ensures
            r == well_formed(self@),
    {
        if !(self.turn < 4 && self.team_id < 2 && self.me_id < 4) {
            return false;
        }
        if !(self.shape.0 >= 2 && self.shape.1 >= 4 && shape_fits(self.shape)) {
            return false;
        }
        let mut slot: usize = 0;
        while slot < 4
            invariant
                slot <= 4,
                self.shape.0 >= 2,
                self.shape.1 >= 4,
                forall|k: int| 0 <= k < slot ==> is_free(self@.walls, self.shape, #[trigger] self@.bots[k]),
                forall|k: int|
                    0 <= k < slot ==> is_free(self@.walls, self.shape, #[trigger] home(self.shape, k)),
            decreases 4 - slot,
        {
            if !self.is_free_cell(self.bots[slot]) {
                return false;
            }
            if !self.is_free_cell(self.get_initial_pos(slot)) {
                return false;
            }
            slot += 1;
        }
        self.food_is_split()
    }
}

} // verus!
