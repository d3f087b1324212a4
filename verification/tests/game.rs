use crustybots::agent::Agent;
use crustybots::cache::DistanceCache;
use crustybots::grid::{candidate, manhattan_cost, same_cell, shape_fits};
use crustybots::search::{alpha_beta, find_best_move, mymove, SEARCH_DEPTH};
use crustybots::snapshot::Snapshot;
use crustybots::state::GameState;
use im::HashSet;

type Pos = (usize, usize);

struct Layout {
    shape: Pos,
    walls: HashSet<Pos>,
    food: Vec<Pos>,
    bots: [Pos; 4],
}

/// Reads a maze drawn with `#` for walls, `.` for food, `a` and `b` for the
/// bots of team 0 and `x` and `y` for those of team 1.
fn read_layout(text: &str) -> Layout {
    let rows: Vec<&str> = text.lines().map(|l| l.trim()).filter(|l| !l.is_empty()).collect();
    let mut walls = HashSet::new();
    let mut food = Vec::new();
    let mut bots = [(0, 0); 4];
    for (y, row) in rows.iter().enumerate() {
        for (x, ch) in row.chars().enumerate() {
            match ch {
                '#' => {
                    walls.insert((x, y));
                }
                '.' => food.push((x, y)),
                'a' => bots[0] = (x, y),
                'x' => bots[1] = (x, y),
                'b' => bots[2] = (x, y),
                'y' => bots[3] = (x, y),
                _ => {}
            }
        }
    }
    Layout { shape: (rows[0].len(), rows.len()), walls, food, bots }
}

fn split_food(layout: &Layout) -> [HashSet<Pos>; 2] {
    let mut split_food = [HashSet::new(), HashSet::new()];
    for food in &layout.food {
        if food.0 < layout.shape.0 / 2 {
            split_food[0] = split_food[0].update(*food)
        } else {
            split_food[1] = split_food[1].update(*food)
        }
    }
    split_food
}

fn state_of(text: &str) -> GameState {
    let layout = read_layout(text);
    let food = split_food(&layout);
    GameState::new(true, 0, 0, layout.bots, layout.walls.clone(), food, layout.shape, 0, [0, 0], 0)
}

const FIRST_MAZE: &str = "
        ################
        #. #.     .. .y#
        # .  #.## ####x#
        # .#      #..  #
        #  ..#     a#. #
        # #### ##.#  . #
        #b. ..     .# .#
        ################
        ";

const SECOND_MAZE: &str = "
            ################
            #. #. .   . . y#
            #..# #     .## #
            # b    ##   #..#
            #..#x# ##      #
            # ##      # #..#
            #  .a.   . .# .#
            ################
        ";

#[test]
fn test_succ() {
    let gs = state_of(FIRST_MAZE);
    assert!(gs.is_well_formed());
    println!("{:?}", gs.get_neighbors());
    println!("{:?}", gs);

    assert_eq!(gs.distance(&gs.bots[1], &gs.bots[3]), Some(1));
    assert_eq!(gs.distance(&gs.bots[0], &gs.bots[2]), Some(12));

    let depth = 4;
    let mut cache = DistanceCache::new();
    let best_move = find_best_move(&gs, depth, &mut cache);
    println!("Best move: {:?} {:?}", best_move.0, best_move.1);
    assert!(gs.get_neighbors().contains(&best_move.0));

    let new_gs = gs.move_bot((11, 3));
    println!("{:?}", new_gs);
    assert_eq!(new_gs.bots[0], (11, 3));
    assert_eq!(new_gs.score, [1, 0]);
    assert_eq!(new_gs.turn, 1);
    let new_gs = new_gs.move_bot((14, 3));
    println!("{:?}", new_gs);
    assert_eq!(new_gs.bots[1], (14, 3));
    assert_eq!(new_gs.score, [1, 0]);
    assert_eq!(new_gs.turn, 2);
}

#[test]
fn test_kill() {
    let gs = state_of(SECOND_MAZE);
    assert!(gs.is_well_formed());
    println!("{:?}", gs.get_neighbors());
    println!("{:?}", gs);

    let depth = 17;
    let mut cache = DistanceCache::new();
    let best_move = find_best_move(&gs, depth, &mut cache);
    println!("Best kill move: {:?}", best_move);
    assert!(gs.get_neighbors().contains(&best_move.0));
}

#[test]
fn it_works() {
    let layout = read_layout(FIRST_MAZE);
    let food = split_food(&layout);
    let bot = snapshot_of(&layout, &food, true, 0);
    let mut cache = DistanceCache::new();
    let chosen = mymove(&bot, &mut cache);
    let gs = GameState::from_bot(&bot);
    assert!(gs.get_neighbors().contains(&chosen));
    let mut fresh = DistanceCache::new();
    assert_eq!(chosen, find_best_move(&gs, SEARCH_DEPTH, &mut fresh).0);
}

fn snapshot_of(layout: &Layout, food: &[HashSet<Pos>; 2], is_blue: bool, turn: usize) -> Snapshot {
    let team = if is_blue { 0 } else { 1 };
    Snapshot {
        is_blue,
        turn,
        position: layout.bots[2 * turn + team],
        other: layout.bots[2 * (1 - turn) + team],
        enemy: [layout.bots[1 - team], layout.bots[3 - team]],
        walls: layout.walls.clone(),
        food: food[team].clone(),
        enemy_food: food[1 - team].clone(),
        shape: layout.shape,
        score: 7,
        enemy_score: 4,
        round: 12,
    }
}

/// An open room: bots in the corners, two food cells on each half.
const ROOM: &str = "
    ########
    #a .  x#
    # .    #
    #     .#
    #b  . y#
    ########
    ";

/// Two corridors with no way between them; the upper one is cut in two.
const CORRIDORS: &str = "
    #########
    #a  #  x#
    #########
    #b     y#
    #########
    ";

fn cells(set: &HashSet<Pos>) -> Vec<Pos> {
    let mut v: Vec<Pos> = set.iter().copied().collect();
    v.sort();
    v
}

/// Exhaustive minimax, written with the library's public operations only.
fn exhaustive(gs: &GameState, depth: i32, cache: &mut DistanceCache) -> i128 {
    if depth == 0 || gs.is_terminal() {
        return gs.evaluate(cache);
    }
    let values: Vec<i128> =
        gs.get_successors().iter().map(|(_, next)| exhaustive(next, depth - 1, cache)).collect();
    if gs.is_max_player {
        *values.iter().max().unwrap()
    } else {
        *values.iter().min().unwrap()
    }
}

#[test]
fn from_bot_fills_the_slots_of_each_colour() {
    let layout = read_layout(ROOM);
    let food = split_food(&layout);
    for (is_blue, turn, slot) in [(true, 0, 0), (true, 1, 2), (false, 0, 1), (false, 1, 3)] {
        let gs = GameState::from_bot(&snapshot_of(&layout, &food, is_blue, turn));
        let team = if is_blue { 0 } else { 1 };
        assert_eq!(gs.bots, layout.bots);
        assert_eq!(gs.turn, slot);
        assert_eq!(gs.me_id, slot);
        assert_eq!(gs.team_id, team);
        assert!(gs.is_max_player);
        assert_eq!(gs.score[team], 7);
        assert_eq!(gs.score[1 - team], 4);
        assert_eq!(gs.round, 12);
        assert_eq!(gs.shape, (8, 6));
        assert_eq!(cells(&gs.food[0]), vec![(2, 2), (3, 1)]);
        assert_eq!(cells(&gs.food[1]), vec![(4, 4), (6, 3)]);
        assert_eq!(gs.walls, layout.walls);
        assert!(gs.is_well_formed());
    }
}

#[test]
fn new_keeps_every_field() {
    let layout = read_layout(ROOM);
    let food = split_food(&layout);
    let gs = GameState::new(
        false,
        1,
        3,
        layout.bots,
        layout.walls.clone(),
        food.clone(),
        layout.shape,
        2,
        [5, 9],
        41,
    );
    assert!(!gs.is_max_player);
    assert_eq!((gs.team_id, gs.me_id, gs.turn, gs.round), (1, 3, 2, 41));
    assert_eq!(gs.bots, [(1, 1), (6, 1), (1, 4), (6, 4)]);
    assert_eq!(gs.score, [5, 9]);
    assert_eq!(gs.walls, layout.walls);
    assert_eq!(gs.food, food);
    let twin = gs.clone();
    assert_eq!(twin.bots, gs.bots);
    assert_eq!(twin.food, gs.food);
    assert_eq!(twin.walls, gs.walls);
    assert_eq!((twin.turn, twin.round, twin.score), (2, 41, [5, 9]));
}

#[test]
fn legal_destinations_come_in_fixed_order_and_skip_walls() {
    let gs = state_of(ROOM);
    // bot 0 in the upper left corner: stay, down, right; up and left are walls
    assert_eq!(gs.get_neighbors(), vec![(1, 1), (1, 2), (2, 1)]);
    assert_eq!(gs.get_neighbors_for(&(3, 2)), vec![(3, 2), (3, 3), (4, 2), (3, 1), (2, 2)]);
    assert_eq!(gs.get_neighbors_for(&(6, 4)), vec![(6, 4), (6, 3), (5, 4)]);
    assert_eq!(
        gs.get_neighbors_cost(&(1, 1)),
        vec![((1, 1), 1), ((1, 2), 1), ((2, 1), 1)]
    );
}

#[test]
fn cells_off_the_grid_are_no_destinations() {
    let gs = GameState::new(
        true,
        0,
        0,
        [(0, 0), (2, 2), (0, 2), (2, 0)],
        HashSet::new(),
        [HashSet::new(), HashSet::new()],
        (3, 3),
        0,
        [0, 0],
        0,
    );
    assert_eq!(gs.get_neighbors_for(&(0, 0)), vec![(0, 0), (0, 1), (1, 0)]);
    assert_eq!(gs.get_neighbors_for(&(2, 2)), vec![(2, 2), (2, 1), (1, 2)]);
    assert_eq!(gs.get_neighbors_for(&(3, 1)), vec![(2, 1)]);
    assert_eq!(gs.get_neighbors_for(&(7, 7)), Vec::<Pos>::new());
    assert_eq!(candidate((0, 0), 3), None);
    assert_eq!(candidate((0, 0), 4), None);
    assert_eq!(candidate((usize::MAX, usize::MAX), 1), None);
    assert_eq!(candidate((usize::MAX, usize::MAX), 2), None);
    assert_eq!(candidate((4, 9), 0), Some((4, 9)));
    assert_eq!(candidate((4, 9), 1), Some((4, 10)));
    assert_eq!(candidate((4, 9), 2), Some((5, 9)));
    assert_eq!(candidate((4, 9), 3), Some((4, 8)));
    assert_eq!(candidate((4, 9), 4), Some((3, 9)));
}

#[test]
fn staying_is_always_legal() {
    for maze in [FIRST_MAZE, SECOND_MAZE, ROOM] {
        let mut gs = state_of(maze);
        for _ in 0..8 {
            let here = gs.bots[gs.turn];
            let moves = gs.get_neighbors();
            assert_eq!(moves[0], here);
            gs = gs.move_bot(*moves.last().unwrap());
        }
    }
}

#[test]
fn legal_moves_keep_the_mover_off_walls() {
    let mut frontier = vec![state_of(FIRST_MAZE)];
    for _ in 0..4 {
        let mut next = Vec::new();
        for gs in &frontier {
            for (dest, after) in gs.get_successors() {
                assert!(!gs.walls.contains(&dest));
                assert_eq!(after.bots[gs.turn], dest);
                assert!(!after.walls.contains(&after.bots[gs.turn]));
                assert_eq!(after.walls, gs.walls);
                assert!(after.is_well_formed());
                next.push(after);
            }
        }
        frontier = next;
    }
    assert!(frontier.len() > 16);
}

#[test]
fn successors_pair_each_destination_with_its_state() {
    let gs = state_of(ROOM);
    let successors = gs.get_successors();
    let moves = gs.get_neighbors();
    assert_eq!(successors.len(), moves.len());
    for (i, (dest, after)) in successors.iter().enumerate() {
        assert_eq!(*dest, moves[i]);
        let expected = gs.move_bot(*dest);
        assert_eq!(after.bots, expected.bots);
        assert_eq!(after.score, expected.score);
        assert_eq!(after.food, expected.food);
        assert_eq!((after.turn, after.round), (1, 0));
        assert!(!after.is_max_player);
    }
}

#[test]
fn four_moves_make_a_round() {
    for start in 0..4 {
        let layout = read_layout(ROOM);
        let food = split_food(&layout);
        let mut gs = GameState::new(
            true,
            0,
            0,
            layout.bots,
            layout.walls.clone(),
            food,
            layout.shape,
            start,
            [0, 0],
            5,
        );
        let mut turns = Vec::new();
        for _ in 0..4 {
            let stay = gs.bots[gs.turn];
            gs = gs.move_bot(stay);
            turns.push(gs.turn);
        }
        assert_eq!(gs.turn, start);
        assert_eq!(gs.round, 6);
        assert!(gs.is_max_player);
        assert_eq!(turns, (1..=4).map(|k| (start + k) % 4).collect::<Vec<usize>>());
    }
}

#[test]
fn round_grows_only_when_the_turn_wraps() {
    let mut gs = state_of(ROOM);
    let mut rounds = Vec::new();
    for _ in 0..9 {
        let stay = gs.bots[gs.turn];
        gs = gs.move_bot(stay);
        rounds.push(gs.round);
    }
    assert_eq!(rounds, vec![0, 0, 0, 1, 1, 1, 1, 2, 2]);
}

#[test]
fn eating_takes_the_cell_and_pays_one_point() {
    let layout = read_layout(ROOM);
    let food = split_food(&layout);
    // bot 0 of team 0 next to the food cell (4, 4) on the other half
    let gs = GameState::new(
        true,
        0,
        0,
        [(3, 4), (6, 1), (1, 4), (6, 4)],
        layout.walls.clone(),
        food.clone(),
        layout.shape,
        0,
        [2, 3],
        0,
    );
    let after = gs.move_bot((4, 4));
    assert_eq!(after.score, [3, 3]);
    assert_eq!(cells(&after.food[1]), vec![(6, 3)]);
    assert_eq!(after.food[0], gs.food[0]);
    assert_eq!(gs.food[1].len() - after.food[1].len(), 1);
    assert_eq!(cells(&gs.food[1]), vec![(4, 4), (6, 3)]);

    // a step that eats nothing leaves food and score as they were
    let idle = gs.move_bot((3, 3));
    assert_eq!(idle.score, [2, 3]);
    assert_eq!(idle.food, gs.food);
}

#[test]
fn own_food_is_not_eaten() {
    let layout = read_layout(ROOM);
    let food = split_food(&layout);
    // bot 0 of team 0 steps on (3, 1), food of its own half
    let gs = GameState::new(
        true,
        0,
        0,
        [(2, 1), (6, 1), (1, 4), (6, 4)],
        layout.walls.clone(),
        food.clone(),
        layout.shape,
        0,
        [0, 0],
        0,
    );
    let after = gs.move_bot((3, 1));
    assert_eq!(after.score, [0, 0]);
    assert_eq!(after.food, gs.food);
    // bot 1 of team 1 eats it
    let gs = GameState::new(
        true,
        0,
        0,
        [(1, 1), (4, 1), (1, 4), (6, 4)],
        layout.walls.clone(),
        food,
        layout.shape,
        1,
        [0, 0],
        0,
    );
    let after = gs.move_bot((3, 1));
    assert_eq!(after.score, [0, 1]);
    assert_eq!(cells(&after.food[0]), vec![(2, 2)]);
    assert_eq!(after.food[1], gs.food[1]);
}

#[test]
fn score_grows_by_what_was_eaten_along_a_game() {
    let mut gs = state_of(FIRST_MAZE);
    let mut cache = DistanceCache::new();
    let start = [gs.food[0].len(), gs.food[1].len()];
    for _ in 0..24 {
        let before = [gs.food[0].len(), gs.food[1].len()];
        let score = gs.score;
        let team = gs.turn % 2;
        let (_, after) = find_best_move(&gs, 2, &mut cache);
        let eaten = before[1 - team] - after.food[1 - team].len();
        assert!(eaten <= 1);
        assert_eq!(after.food[team].len(), before[team]);
        assert_eq!(after.score[1 - team], score[1 - team]);
        let gained = after.score[team] - score[team];
        assert_eq!((gained - eaten) % 5, 0);
        assert!(gained - eaten <= 10);
        assert!(after.food[0].is_subset(gs.food[0].clone()));
        assert!(after.food[1].is_subset(gs.food[1].clone()));
        gs = after;
    }
    assert!(gs.food[0].len() <= start[0] && gs.food[1].len() <= start[1]);
}

#[test]
fn capture_pays_five_and_sends_the_bot_home() {
    let layout = read_layout(ROOM);
    // bot 1 of team 1 stands at (3, 2), on team 0's half; bot 0 steps on it
    let gs = GameState::new(
        true,
        0,
        0,
        [(2, 2), (3, 2), (1, 4), (6, 4)],
        layout.walls.clone(),
        [HashSet::unit((1, 2)), HashSet::unit((5, 2))],
        layout.shape,
        0,
        [10, 20],
        0,
    );
    let after = gs.move_bot((3, 2));
    assert_eq!(after.bots, [(3, 2), (6, 2), (1, 4), (6, 4)]);
    assert_eq!(after.score, [15, 20]);
    assert_eq!(gs.get_initial_pos(1), (6, 2));
}

#[test]
fn home_cells_depend_on_slot_and_shape() {
    let gs = state_of(ROOM);
    assert_eq!(gs.get_initial_pos(0), (1, 3));
    assert_eq!(gs.get_initial_pos(1), (6, 2));
    assert_eq!(gs.get_initial_pos(2), (1, 3));
    assert_eq!(gs.get_initial_pos(3), (6, 3));
    let gs = state_of(FIRST_MAZE);
    assert_eq!(gs.get_initial_pos(0), (1, 5));
    assert_eq!(gs.get_initial_pos(1), (14, 2));
    assert_eq!(gs.get_initial_pos(2), (1, 5));
    assert_eq!(gs.get_initial_pos(3), (14, 3));
}

#[test]
fn both_bots_on_one_cell_are_both_captured() {
    let layout = read_layout(ROOM);
    let gs = GameState::new(
        true,
        0,
        0,
        [(2, 2), (3, 2), (1, 4), (3, 2)],
        layout.walls.clone(),
        [HashSet::unit((1, 2)), HashSet::unit((5, 2))],
        layout.shape,
        0,
        [0, 0],
        0,
    );
    let after = gs.move_bot((3, 2));
    assert_eq!(after.bots, [(3, 2), (6, 2), (1, 4), (6, 3)]);
    assert_eq!(after.score, [10, 0]);
}

#[test]
fn capture_needs_the_own_half_and_the_middle_column_is_team_ones() {
    let layout = read_layout(ROOM);
    let food = [HashSet::unit((1, 2)), HashSet::unit((6, 2))];
    // width 8: columns 0 to 3 are team 0's, columns 4 to 7 team 1's
    let meet = |turn: usize, bots: [Pos; 4], dest: Pos| {
        GameState::new(true, 0, 0, bots, layout.walls.clone(), food.clone(), layout.shape, turn, [0, 0], 0)
            .move_bot(dest)
    };
    // team 0 meets an enemy in column 3: capture
    let after = meet(0, [(3, 1), (3, 2), (1, 4), (6, 4)], (3, 2));
    assert_eq!((after.bots[1], after.score), ((6, 2), [5, 0]));
    // team 0 meets an enemy in column 4: none
    let after = meet(0, [(4, 1), (4, 2), (1, 4), (6, 4)], (4, 2));
    assert_eq!((after.bots[1], after.score), ((4, 2), [0, 0]));
    // team 1 meets an enemy in column 4: capture
    let after = meet(1, [(4, 2), (4, 1), (1, 4), (6, 4)], (4, 2));
    assert_eq!((after.bots[0], after.score), ((1, 3), [0, 5]));
    // team 1 meets an enemy in column 3: none
    let after = meet(1, [(3, 2), (3, 1), (1, 4), (6, 4)], (3, 2));
    assert_eq!((after.bots[0], after.score), ((3, 2), [0, 0]));
    // a team does not capture its own bot
    let after = meet(0, [(2, 1), (6, 1), (2, 2), (6, 4)], (2, 2));
    assert_eq!((after.bots, after.score), ([(2, 2), (6, 1), (2, 2), (6, 4)], [0, 0]));
    // the second bot of team 1 captures the second bot of team 0
    let after = meet(3, [(1, 1), (6, 1), (5, 4), (6, 4)], (5, 4));
    assert_eq!((after.bots[2], after.bots[3], after.score), ((1, 3), (5, 4), [0, 5]));
}

#[test]
fn eating_and_capturing_in_one_move_pays_six() {
    let layout = read_layout(ROOM);
    // the food sets are taken as they are given: here the set that team 0
    // eats from holds (3, 2), the cell on which bot 1 stands
    let gs = GameState::new(
        true,
        0,
        0,
        [(2, 2), (3, 2), (1, 4), (6, 4)],
        layout.walls.clone(),
        [HashSet::unit((1, 2)), HashSet::unit((3, 2)).update((5, 2))],
        layout.shape,
        0,
        [0, 0],
        0,
    );
    let after = gs.move_bot((3, 2));
    assert_eq!(after.score, [6, 0]);
    assert_eq!(after.bots[1], (6, 2));
    assert_eq!(cells(&after.food[1]), vec![(5, 2)]);
}

#[test]
fn terminal_by_round_or_empty_food_whatever_else() {
    let layout = read_layout(ROOM);
    let food = split_food(&layout);
    let make = |round: usize, food: [HashSet<Pos>; 2], turn: usize, score: [usize; 2], max: bool| {
        GameState::new(max, turn % 2, turn, layout.bots, layout.walls.clone(), food, layout.shape, turn, score, round)
    };
    assert!(!make(0, food.clone(), 0, [0, 0], true).is_terminal());
    assert!(!make(299, food.clone(), 3, [9, 1], false).is_terminal());
    assert!(!make(301, food.clone(), 1, [0, 0], true).is_terminal());
    for turn in 0..4 {
        assert!(make(300, food.clone(), turn, [turn, 7], turn % 2 == 0).is_terminal());
        assert!(make(3, [HashSet::new(), food[1].clone()], turn, [0, 0], true).is_terminal());
        assert!(make(3, [food[0].clone(), HashSet::new()], turn, [1, 2], false).is_terminal());
        assert!(make(300, [HashSet::new(), HashSet::new()], turn, [0, 0], true).is_terminal());
    }
}

#[test]
fn eating_the_last_cell_ends_the_match() {
    let layout = read_layout(ROOM);
    let gs = GameState::new(
        true,
        0,
        0,
        [(4, 2), (6, 1), (1, 4), (6, 4)],
        layout.walls.clone(),
        [HashSet::unit((1, 2)), HashSet::unit((5, 2))],
        layout.shape,
        0,
        [0, 0],
        0,
    );
    assert!(!gs.is_terminal());
    let after = gs.move_bot((5, 2));
    assert!(after.food[1].is_empty());
    assert!(after.is_terminal());
    let mut cache = DistanceCache::new();
    // a search from the final state does not look further
    assert_eq!(alpha_beta(&after, 5, i128::MIN, i128::MAX, &mut cache), after.evaluate(&mut cache));
}

#[test]
fn distance_along_corridors_is_manhattan() {
    let gs = state_of(CORRIDORS);
    assert_eq!(gs.distance(&(1, 1), &(3, 1)), Some(2));
    assert_eq!(gs.distance(&(3, 1), &(1, 1)), Some(2));
    assert_eq!(gs.distance(&(1, 3), &(7, 3)), Some(6));
    assert_eq!(gs.distance(&(7, 3), &(2, 3)), Some(5));
    assert_eq!(gs.distance(&(5, 1), &(7, 1)), Some(2));
    assert_eq!(gs.distance(&(4, 3), &(4, 3)), Some(0));
    for x in 1..8 {
        for y in 1..8 {
            assert_eq!(gs.distance(&(x, 3), &(y, 3)), Some(manhattan_cost((x, 3), (y, 3))));
        }
    }
    let room = state_of(ROOM);
    assert_eq!(room.distance(&(1, 1), &(6, 4)), Some(8));
    assert_eq!(room.distance(&(6, 4), &(1, 1)), Some(8));
}

#[test]
fn no_distance_between_separate_parts() {
    let gs = state_of(CORRIDORS);
    assert_eq!(gs.distance(&(1, 1), &(7, 1)), None);
    assert_eq!(gs.distance(&(1, 1), &(5, 1)), None);
    assert_eq!(gs.distance(&(1, 1), &(1, 3)), None);
    assert_eq!(gs.distance(&(7, 3), &(7, 1)), None);
    // a wall cell, and a cell off the grid, cannot be reached
    assert_eq!(gs.distance(&(1, 1), &(4, 1)), None);
    assert_eq!(gs.distance(&(1, 1), &(0, 0)), None);
    assert_eq!(gs.distance(&(1, 1), &(9, 1)), None);
    assert_eq!(gs.distance(&(1, 1), &(1, 5)), None);
    assert_eq!(gs.distance(&(1, 1), &(usize::MAX, usize::MAX)), None);
    // but every cell is at distance 0 from itself
    assert_eq!(gs.distance(&(4, 1), &(4, 1)), Some(0));
    assert_eq!(gs.distance(&(20, 20), &(20, 20)), Some(0));
    // a walk may start on a wall and step off it
    assert_eq!(gs.distance(&(4, 1), &(3, 1)), Some(1));
    assert_eq!(gs.distance(&(4, 1), &(1, 1)), Some(3));
}

#[test]
fn distance_counts_the_steps_round_walls() {
    let gs = state_of(FIRST_MAZE);
    // x and y stand next to each other
    assert_eq!(gs.distance(&(14, 2), &(14, 1)), Some(1));
    // from (1, 1) down to (1, 6): straight
    assert_eq!(gs.distance(&(1, 1), &(1, 6)), Some(5));
    // (3, 1) is a wall between (2, 1) and (4, 1): the way leads round it
    assert_eq!(gs.distance(&(2, 1), &(4, 1)), Some(4));
    // (12, 4) is a wall: down, two to the right, up again
    assert_eq!(gs.distance(&(11, 4), &(13, 4)), Some(4));
    assert_eq!(manhattan_cost((11, 4), (13, 4)), 2);
}

#[test]
fn manhattan_cost_is_exact_or_the_largest_cost() {
    assert_eq!(manhattan_cost((0, 0), (0, 0)), 0);
    assert_eq!(manhattan_cost((3, 9), (7, 2)), 11);
    assert_eq!(manhattan_cost((7, 2), (3, 9)), 11);
    assert_eq!(manhattan_cost((0, 0), (u32::MAX as usize, 0)), u32::MAX);
    assert_eq!(manhattan_cost((0, 0), (u32::MAX as usize - 1, 1)), u32::MAX);
    assert_eq!(manhattan_cost((0, 0), (u32::MAX as usize - 1, 0)), u32::MAX - 1);
    assert_eq!(manhattan_cost((0, 0), (usize::MAX, usize::MAX)), u32::MAX);
    assert!(same_cell((3, 4), (3, 4)));
    assert!(!same_cell((3, 4), (4, 3)));
    assert!(!same_cell((3, 4), (3, 5)));
}

#[test]
fn shape_fits_up_to_the_largest_cost() {
    assert!(shape_fits((16, 8)));
    assert!(shape_fits((0, 0)));
    assert!(shape_fits((65535, 65535)));
    assert!(!shape_fits((65536, 65535)));
    assert!(shape_fits((u32::MAX as usize, 0)));
    assert!(!shape_fits((u32::MAX as usize, 1)));
    assert!(!shape_fits((usize::MAX, usize::MAX)));
    assert!(!shape_fits((usize::MAX, 0)));
}

#[test]
fn cached_distance_is_the_distance() {
    let gs = state_of(FIRST_MAZE);
    let mut cache = DistanceCache::new();
    let pairs = [((14, 2), (14, 1)), ((11, 4), (1, 6)), ((1, 1), (1, 6)), ((2, 1), (4, 1)), ((1, 1), (0, 0))];
    for _ in 0..3 {
        for (a, b) in pairs {
            assert_eq!(gs.distance_c(&a, &b, &mut cache), gs.distance(&a, &b));
        }
    }
    assert_eq!(gs.distance_c(&(11, 4), &(1, 6), &mut cache), Some(12));
    assert_eq!(gs.distance_c(&(1, 1), &(0, 0), &mut cache), None);
}

#[test]
fn cached_distance_is_the_distance_when_entries_are_pushed_out() {
    let gs = state_of(FIRST_MAZE);
    for capacity in [1, 2, 3, 7] {
        let mut cache = DistanceCache::with_capacity(capacity);
        for round in 0..3 {
            for x in 1..15 {
                for y in 1..7 {
                    let a = (x, y);
                    let b = (15 - x, (y + round) % 6 + 1);
                    assert_eq!(gs.distance_c(&a, &b, &mut cache), gs.distance(&a, &b));
                    assert_eq!(gs.distance_c(&a, &b, &mut cache), gs.distance(&a, &b));
                }
            }
        }
    }
}

#[test]
fn cache_keeps_the_entries_used_last() {
    let a = ((1, 1), (2, 2));
    let b = ((1, 1), (3, 3));
    let c = ((1, 1), (4, 4));
    let mut cache = DistanceCache::with_capacity(2);
    assert_eq!(cache.lookup(a), None);
    cache.store(a, Some(2));
    cache.store(b, None);
    assert_eq!(cache.lookup(a), Some(Some(2)));
    // b is now the entry used least recently: c pushes it out
    cache.store(c, Some(6));
    assert_eq!(cache.lookup(b), None);
    assert_eq!(cache.lookup(a), Some(Some(2)));
    assert_eq!(cache.lookup(c), Some(Some(6)));
    // storing again replaces the value and pushes nothing out
    cache.store(a, Some(9));
    assert_eq!(cache.lookup(a), Some(Some(9)));
    assert_eq!(cache.lookup(c), Some(Some(6)));
    // the order of the pair matters
    assert_eq!(cache.lookup(((2, 2), (1, 1))), None);
}

#[test]
fn distance_c_marks_its_entry_as_used() {
    let gs = state_of(CORRIDORS);
    let mut cache = DistanceCache::with_capacity(2);
    assert_eq!(gs.distance_c(&(1, 3), &(7, 3), &mut cache), Some(6));
    assert_eq!(gs.distance_c(&(1, 1), &(7, 1), &mut cache), None);
    // a hit on the first pair makes the second the one to leave
    assert_eq!(gs.distance_c(&(1, 3), &(7, 3), &mut cache), Some(6));
    assert_eq!(gs.distance_c(&(1, 3), &(2, 3), &mut cache), Some(1));
    assert_eq!(cache.lookup(((1, 1), (7, 1))), None);
    assert_eq!(cache.lookup(((1, 3), (7, 3))), Some(Some(6)));
    assert_eq!(cache.lookup(((1, 3), (2, 3))), Some(Some(1)));
}

#[test]
fn evaluate_adds_up_score_pursuit_and_forage() {
    let layout = read_layout(ROOM);
    let food = split_food(&layout);
    let make = |team: usize, score: [usize; 2], round: usize| {
        GameState::new(true, team, team, layout.bots, layout.walls.clone(), food.clone(), layout.shape, 0, score, round)
    };
    let mut cache = DistanceCache::new();
    // bots apart: 5 + 8 + 8 + 5; nearest food: 6 and 3 for team 0, 3 and 6 for team 1
    assert_eq!(make(0, [0, 0], 0).evaluate(&mut cache), -17);
    assert_eq!(make(1, [0, 0], 0).evaluate(&mut cache), -17);
    assert_eq!(make(0, [3, 1], 0).evaluate(&mut cache), 183);
    assert_eq!(make(1, [3, 1], 0).evaluate(&mut cache), -217);
    // at the last round the score difference counts 3000 times more
    assert_eq!(make(0, [3, 1], 300).evaluate(&mut cache), 599_983);
    assert_eq!(make(1, [3, 1], 300).evaluate(&mut cache), -600_017);
    // a draw at the end is worth no more than the distances
    assert_eq!(make(0, [4, 4], 300).evaluate(&mut cache), -17);
    // the side to move does not matter
    let mut gs = make(0, [3, 1], 0);
    gs.is_max_player = false;
    gs.turn = 3;
    assert_eq!(gs.evaluate(&mut cache), 183);
}

#[test]
fn evaluate_counts_what_cannot_be_reached_as_far() {
    let far = u32::MAX as i128;
    let layout = read_layout(CORRIDORS);
    // team 0: a (1, 1) and b (1, 3); team 1: x (7, 1) and y (7, 3)
    let make = |food: [HashSet<Pos>; 2]| {
        GameState::new(true, 0, 0, layout.bots, layout.walls.clone(), food, layout.shape, 0, [0, 0], 0)
    };
    let mut cache = DistanceCache::new();
    // only b can reach y (6 steps); the food at (5, 3) is 4 steps from b
    let gs = make([HashSet::unit((2, 3)), HashSet::unit((5, 3))]);
    assert_eq!(gs.evaluate(&mut cache), -(3 * far + 6) + (far + 4));
    // no food left to eat: far for both bots, and the match is over
    let gs = make([HashSet::unit((2, 3)), HashSet::new()]);
    assert_eq!(gs.evaluate(&mut cache), -(3 * far + 6) + 2 * far);
    // food that nobody can reach
    let gs = make([HashSet::unit((2, 3)), HashSet::unit((5, 1))]);
    assert_eq!(gs.evaluate(&mut cache), -(3 * far + 6) + 2 * far);
    // the nearest of several
    let gs = make([HashSet::unit((2, 3)), HashSet::unit((5, 3)).update((3, 3)).update((3, 1))]);
    assert_eq!(gs.evaluate(&mut cache), -(3 * far + 6) + 2 + 2);
    assert_eq!(gs.nearest_food(&(1, 3), &vec![(5, 3), (3, 3), (3, 1)], &mut cache), 2);
    assert_eq!(gs.nearest_food(&(1, 3), &vec![], &mut cache), u32::MAX);
    assert_eq!(gs.nearest_food(&(1, 3), &vec![(3, 1)], &mut cache), u32::MAX);
    assert_eq!(gs.reach_c(&(1, 3), &(3, 1), &mut cache), u32::MAX);
    assert_eq!(gs.reach_c(&(1, 3), &(3, 3), &mut cache), 2);
}

#[test]
fn evaluate_holds_the_largest_scores() {
    let layout = read_layout(ROOM);
    let food = split_food(&layout);
    let gs = GameState::new(
        true,
        0,
        0,
        layout.bots,
        layout.walls.clone(),
        food,
        layout.shape,
        0,
        [usize::MAX, 0],
        300,
    );
    let mut cache = DistanceCache::new();
    assert_eq!(gs.evaluate(&mut cache), 300_000 * (usize::MAX as i128) - 17);
    let mut other = gs.clone();
    other.team_id = 1;
    assert_eq!(other.evaluate(&mut cache), -300_000 * (usize::MAX as i128) - 17);
}

#[test]
fn alpha_beta_with_the_widest_window_is_exhaustive_minimax() {
    for maze in [ROOM, FIRST_MAZE, SECOND_MAZE] {
        for turn in 0..4 {
            let layout = read_layout(maze);
            let food = split_food(&layout);
            for max in [true, false] {
                let gs = GameState::new(
                    max,
                    0,
                    0,
                    layout.bots,
                    layout.walls.clone(),
                    food.clone(),
                    layout.shape,
                    turn,
                    [0, 0],
                    0,
                );
                let mut cache = DistanceCache::new();
                for depth in 0..5 {
                    assert_eq!(
                        alpha_beta(&gs, depth, i128::MIN, i128::MAX, &mut cache),
                        exhaustive(&gs, depth, &mut cache)
                    );
                }
            }
        }
    }
}

#[test]
fn alpha_beta_in_a_window_bounds_the_value() {
    let gs = state_of(ROOM);
    let mut cache = DistanceCache::new();
    for depth in 1..5 {
        let truth = exhaustive(&gs, depth, &mut cache);
        for (alpha, beta) in [(truth - 1, truth + 1), (truth - 50, truth + 3), (i128::MIN, truth + 1)] {
            assert_eq!(alpha_beta(&gs, depth, alpha, beta, &mut cache), truth);
        }
        for (alpha, beta) in [(truth, truth + 10), (truth + 5, truth + 6), (truth + 100, i128::MAX)] {
            let r = alpha_beta(&gs, depth, alpha, beta, &mut cache);
            assert!(r <= alpha && truth <= r);
        }
        for (alpha, beta) in [(truth - 10, truth), (truth - 6, truth - 5), (i128::MIN, truth - 100)] {
            let r = alpha_beta(&gs, depth, alpha, beta, &mut cache);
            assert!(r >= beta && truth >= r);
        }
    }
}

#[test]
fn alpha_beta_at_depth_zero_is_the_evaluation() {
    let gs = state_of(ROOM);
    let mut cache = DistanceCache::new();
    assert_eq!(alpha_beta(&gs, 0, i128::MIN, i128::MAX, &mut cache), -17);
    assert_eq!(alpha_beta(&gs, 0, 5, 6, &mut cache), -17);
    assert_eq!(alpha_beta(&gs, 0, 6, 5, &mut cache), -17);
}

#[test]
fn best_move_is_the_first_of_the_best() {
    for maze in [ROOM, FIRST_MAZE, SECOND_MAZE] {
        for turn in 0..4 {
            for max in [true, false] {
                let layout = read_layout(maze);
                let food = split_food(&layout);
                let gs = GameState::new(
                    max,
                    0,
                    0,
                    layout.bots,
                    layout.walls.clone(),
                    food,
                    layout.shape,
                    turn,
                    [0, 0],
                    0,
                );
                let mut cache = DistanceCache::new();
                for depth in 1..5 {
                    let values: Vec<i128> = gs
                        .get_successors()
                        .iter()
                        .map(|(_, next)| exhaustive(next, depth - 1, &mut cache))
                        .collect();
                    let best = if max { *values.iter().max().unwrap() } else { *values.iter().min().unwrap() };
                    let first = values.iter().position(|v| *v == best).unwrap();
                    let (dest, after) = find_best_move(&gs, depth, &mut cache);
                    assert_eq!(dest, gs.get_neighbors()[first]);
                    assert_eq!(exhaustive(&after, depth - 1, &mut cache), best);
                    assert_eq!(exhaustive(&gs, depth, &mut cache), best);
                    assert_eq!(after.bots, gs.move_bot(dest).bots);
                    assert_eq!(after.turn, (turn + 1) % 4);
                }
            }
        }
    }
}

#[test]
fn best_move_goes_for_the_food() {
    let layout = read_layout(ROOM);
    let food = split_food(&layout);
    // bot 0 one step left of the food cell (4, 4): eating is worth 100
    let gs = GameState::new(
        true,
        0,
        0,
        [(3, 4), (6, 1), (1, 1), (6, 4)],
        layout.walls.clone(),
        food,
        layout.shape,
        0,
        [0, 0],
        0,
    );
    let mut cache = DistanceCache::new();
    let (dest, after) = find_best_move(&gs, 1, &mut cache);
    assert_eq!(dest, (4, 4));
    assert_eq!(after.score, [1, 0]);
}

#[test]
fn well_formed_states_only() {
    let layout = read_layout(ROOM);
    let food = split_food(&layout);
    let make = |team: usize, me: usize, bots: [Pos; 4], food: [HashSet<Pos>; 2], shape: Pos, turn: usize| {
        GameState::new(true, team, me, bots, layout.walls.clone(), food, shape, turn, [0, 0], 0)
    };
    let bots = layout.bots;
    let shape = layout.shape;
    assert!(make(0, 0, bots, food.clone(), shape, 0).is_well_formed());
    assert!(make(1, 3, bots, food.clone(), shape, 3).is_well_formed());
    assert!(!make(2, 0, bots, food.clone(), shape, 0).is_well_formed());
    assert!(!make(0, 4, bots, food.clone(), shape, 0).is_well_formed());
    assert!(!make(0, 0, bots, food.clone(), shape, 4).is_well_formed());
    // a bot on a wall, a bot off the grid
    assert!(!make(0, 0, [(0, 1), bots[1], bots[2], bots[3]], food.clone(), shape, 0).is_well_formed());
    assert!(!make(0, 0, [bots[0], bots[1], bots[2], (8, 4)], food.clone(), shape, 0).is_well_formed());
    // a shape too small for the home cells, a shape too large for 32-bit costs
    assert!(!make(0, 0, bots, food.clone(), (8, 3), 0).is_well_formed());
    assert!(!make(0, 0, bots, food.clone(), (1, 6), 0).is_well_formed());
    assert!(!make(0, 0, bots, food.clone(), (70_000, 70_000), 0).is_well_formed());
    // a home cell that is a wall: with height 7 bot 0 would return to (1, 4), fine,
    // with width 9 bots 1 and 3 would return to column 7, a wall
    assert!(!make(0, 0, bots, food.clone(), (9, 6), 0).is_well_formed());
    // a food cell on both halves
    let both = [food[0].clone(), food[1].update((3, 1))];
    assert!(!make(0, 0, bots, both, shape, 0).is_well_formed());
    assert!(make(0, 0, bots, [HashSet::new(), HashSet::new()], shape, 0).is_well_formed());
    assert!(make(0, 0, bots, food.clone(), shape, 0).is_free_cell((2, 2)));
    assert!(!make(0, 0, bots, food.clone(), shape, 0).is_free_cell((0, 2)));
    assert!(!make(0, 0, bots, food.clone(), shape, 0).is_free_cell((2, 6)));
}

#[test]
fn mymove_is_a_legal_destination_for_each_bot() {
    let layout = read_layout(ROOM);
    let food = split_food(&layout);
    let mut cache = DistanceCache::new();
    for (is_blue, turn) in [(true, 0), (true, 1), (false, 0), (false, 1)] {
        let bot = snapshot_of(&layout, &food, is_blue, turn);
        let chosen = mymove(&bot, &mut cache);
        let gs = GameState::from_bot(&bot);
        assert!(gs.get_neighbors_for(&bot.position).contains(&chosen));
        assert!(!layout.walls.contains(&chosen));
    }
}

#[test]
fn agent_answers_playable_snapshots_only() {
    let layout = read_layout(ROOM);
    let food = split_food(&layout);
    let bot = snapshot_of(&layout, &food, true, 0);
    let mut agent = Agent::new(&bot);
    assert!(agent.knows(&bot));
    let mut cache = DistanceCache::new();
    let expected = mymove(&bot, &mut cache);
    assert_eq!(agent.next_move(&bot), Some(expected));
    assert_eq!(agent.next_move(&bot), Some(expected));

    // neither the first nor the second bot of a team
    let mut odd = snapshot_of(&layout, &food, true, 0);
    odd.turn = 2;
    assert_eq!(agent.next_move(&odd), None);
    // a bot on a wall
    let mut odd = snapshot_of(&layout, &food, true, 0);
    odd.position = (0, 0);
    assert_eq!(agent.next_move(&odd), None);
    // scores that leave no room: nine moves can add 99 points
    let mut odd = snapshot_of(&layout, &food, false, 1);
    odd.enemy_score = usize::MAX - 98;
    assert_eq!(agent.next_move(&odd), None);
    odd.enemy_score = usize::MAX - 99;
    assert!(agent.next_move(&odd).is_some());
    odd.round = usize::MAX - 8;
    assert_eq!(agent.next_move(&odd), None);
    odd.round = usize::MAX - 9;
    assert!(agent.next_move(&odd).is_some());
}

#[test]
fn agent_starts_afresh_on_another_maze() {
    let first = read_layout(FIRST_MAZE);
    let second = read_layout(SECOND_MAZE);
    let a = snapshot_of(&first, &split_food(&first), true, 0);
    let b = snapshot_of(&second, &split_food(&second), true, 0);
    let mut agent = Agent::new(&a);
    assert!(agent.knows(&a) && !agent.knows(&b));
    for bot in [&a, &b, &a, &b] {
        let mut cache = DistanceCache::new();
        assert_eq!(agent.next_move(bot), Some(mymove(bot, &mut cache)));
        assert!(agent.knows(bot));
    }
    let mut narrow = snapshot_of(&first, &split_food(&first), true, 0);
    narrow.shape = (16, 9);
    assert!(!agent.knows(&narrow));
}

#[test]
fn room_for_moves_is_counted_in_points_and_rounds() {
    let layout = read_layout(ROOM);
    let food = split_food(&layout);
    let make = |score: [usize; 2], round: usize| {
        GameState::new(true, 0, 0, layout.bots, layout.walls.clone(), food.clone(), layout.shape, 0, score, round)
    };
    assert!(make([0, 0], 0).has_room_for(0));
    assert!(make([usize::MAX, usize::MAX], usize::MAX).has_room_for(0));
    assert!(make([usize::MAX - 11, 0], 0).has_room_for(1));
    assert!(!make([usize::MAX - 10, 0], 0).has_room_for(1));
    assert!(!make([0, usize::MAX - 21], 0).has_room_for(2));
    assert!(make([0, usize::MAX - 22], usize::MAX - 2).has_room_for(2));
    assert!(!make([0, 0], usize::MAX - 1).has_room_for(2));
    assert!(make([0, 0], 0).has_room_for(i32::MAX));
}
