//! The maze as a graph: which cells a bot can step to, walks between cells
//! and the length of a shortest one.

use vstd::prelude::*;
use crate::cells::{Cell, Shape};

verus! {

/// The `k`-th candidate destination from `p`: staying, then one step down,
/// right, up and left. Coordinates are mathematical integers, so a candidate
/// may lie off the grid.
pub open spec fn neighbor(p: Cell, k: int) -> (int, int) {
    if k == 0 {
        (p.0 as int, p.1 as int)
    } else if k == 1 {
        (p.0 as int, p.1 + 1)
    } else if k == 2 {
        (p.0 + 1, p.1 as int)
    } else if k == 3 {
        (p.0 as int, p.1 - 1)
    } else {
        (p.0 - 1, p.1 as int)
    }
}

/// A cell lies on the grid when both coordinates are below the shape's.
pub open spec fn on_grid(shape: Shape, c: Cell) -> bool {
    c.0 < shape.0 && c.1 < shape.1
}

/// A cell is free when it lies on the grid and is no wall.
pub open spec fn is_free(walls: Set<Cell>, shape: Shape, c: Cell) -> bool {
    on_grid(shape, c) && !walls.contains(c)
}

/// Whether a candidate is a free cell of the grid.
pub open spec fn open_at(walls: Set<Cell>, shape: Shape, c: (int, int)) -> bool {
    0 <= c.0 < shape.0 && 0 <= c.1 < shape.1 && !walls.contains((c.0 as usize, c.1 as usize))
}

/// The free cells among the first `k` candidates from `p`, in candidate order.
pub open spec fn legal_upto(walls: Set<Cell>, shape: Shape, p: Cell, k: nat) -> Seq<Cell>
    decreases k,
{
    if k == 0 {
        Seq::empty()
    } else {
        let before = legal_upto(walls, shape, p, (k - 1) as nat);
        let c = neighbor(p, k - 1);
        if open_at(walls, shape, c) {
            before.push((c.0 as usize, c.1 as usize))
        } else {
            before
        }
    }
}

/// The legal destinations from `p`: the free cells among its five
/// candidates, in candidate order.
pub open spec fn legal_from(walls: Set<Cell>, shape: Shape, p: Cell) -> Seq<Cell> {
    legal_upto(walls, shape, p, 5)
}

/// The number of steps from `a` to `b` on a grid without walls.
pub open spec fn manhattan(a: Cell, b: Cell) -> nat {
    (if a.0 <= b.0 { b.0 - a.0 } else { a.0 - b.0 }
        + if a.1 <= b.1 { b.1 - a.1 } else { a.1 - b.1 }) as nat
}

/// A grid is small enough for path costs when its cells, and a detour of one
/// width and one height on top, can be counted in 32 bits.
pub open spec fn grid_fits(shape: Shape) -> bool {
    shape.0 * shape.1 + shape.0 + shape.1 <= u32::MAX
}

/// A walk is a sequence of at least one cell in which every cell but the
/// first is a legal destination from the cell before it. Staying is a step.
pub open spec fn is_walk(walls: Set<Cell>, shape: Shape, path: Seq<Cell>) -> bool {
    path.len() >= 1 && forall|i: int|
        0 <= i < path.len() - 1 ==> legal_from(walls, shape, #[trigger] path[i]).contains(
            path[i + 1],
        )
}

/// Whether `path` is a walk from `a` to `b`.
pub open spec fn walk_between(walls: Set<Cell>, shape: Shape, a: Cell, b: Cell, path: Seq<Cell>) -> bool {
    is_walk(walls, shape, path) && path[0] == a && path[path.len() - 1] == b
}

/// Whether some walk from `a` to `b` takes exactly `n` steps.
pub open spec fn reaches(walls: Set<Cell>, shape: Shape, a: Cell, b: Cell, n: nat) -> bool {
    exists|path: Seq<Cell>| #[trigger] walk_between(walls, shape, a, b, path) && path.len() == n + 1
}

/// Whether any walk leads from `a` to `b`.
pub open spec fn connected(walls: Set<Cell>, shape: Shape, a: Cell, b: Cell) -> bool {
    exists|n: nat| reaches(walls, shape, a, b, n)
}

/// Whether `n` is the number of steps of a shortest walk from `a` to `b`.
pub open spec fn is_shortest(walls: Set<Cell>, shape: Shape, a: Cell, b: Cell, n: nat) -> bool {
    reaches(walls, shape, a, b, n) && forall|m: nat| m < n ==> !reaches(walls, shape, a, b, m)
}

/// The number of steps of a shortest walk from `a` to `b`, if there is a
/// walk at all.
pub open spec fn grid_distance(walls: Set<Cell>, shape: Shape, a: Cell, b: Cell) -> Option<nat> {
    if connected(walls, shape, a, b) {
        Some(choose|n: nat| is_shortest(walls, shape, a, b, n))
    } else {
        None
    }
}

/// Whether a computed distance is the grid's: the length of a shortest walk,
/// or nothing where no walk exists.
pub open spec fn is_distance(walls: Set<Cell>, shape: Shape, a: Cell, b: Cell, d: Option<u32>) -> bool {
    match d {
        Some(n) => grid_distance(walls, shape, a, b) == Some(n as nat),
        None => grid_distance(walls, shape, a, b) is None,
    }
}

/// Whether two cells lie in one row or in one column.
pub open spec fn aligned(a: Cell, b: Cell) -> bool {
    a.0 == b.0 || a.1 == b.1
}

/// The cell `i` steps from `a` on the straight line towards `b`, for two
/// cells in one row or one column.
pub open spec fn along(a: Cell, b: Cell, i: int) -> (int, int) {
    if a.1 == b.1 {
        (if a.0 <= b.0 { a.0 + i } else { a.0 - i }, a.1 as int)
    } else {
        (a.0 as int, if a.1 <= b.1 { a.1 + i } else { a.1 - i })
    }
}

/// Whether the straight line from `a` to `b` is free of walls and on the
/// grid, from the first cell after `a` up to `b` itself.
pub open spec fn corridor(walls: Set<Cell>, shape: Shape, a: Cell, b: Cell) -> bool {
    aligned(a, b) && forall|i: int| 1 <= i <= manhattan(a, b) ==> open_at(walls, shape, #[trigger] along(a, b, i))
}

/// The `k`-th candidate destination from `p`, or `None` where it would have
/// a negative coordinate or one beyond the machine's integers.
pub fn candidate(p: Cell, k: usize) -> (r: Option<Cell>)
    requires
        k < 5,
    ensures
        match r {
            Some(c) => neighbor(p, k as int) == (c.0 as int, c.1 as int),
            None => neighbor(p, k as int).0 < 0 || neighbor(p, k as int).0 > usize::MAX
                || neighbor(p, k as int).1 < 0 || neighbor(p, k as int).1 > usize::MAX,
        },
{
    if k == 0 {
        Some(p)
    } else if k == 1 {
        if p.1 < usize::MAX { Some((p.0, p.1 + 1)) } else { None }
    } else if k == 2 {
        if p.0 < usize::MAX { Some((p.0 + 1, p.1)) } else { None }
    } else if k == 3 {
        if p.1 > 0 { Some((p.0, p.1 - 1)) } else { None }
    } else {
        if p.0 > 0 { Some((p.0 - 1, p.1)) } else { None }
    }
}

/// Whether two cells are the same cell.
pub fn same_cell(a: Cell, b: Cell) -> (r: bool)
    ensures
        r == (a == b),
{
    a.0 == b.0 && a.1 == b.1
}

/// The Manhattan distance as a path cost: exact where it fits, and the
/// largest cost where it does not.
pub fn manhattan_cost(a: Cell, b: Cell) -> (r: u32)
    ensures
        r as nat == if manhattan(a, b) <= u32::MAX { manhattan(a, b) } else { u32::MAX as nat },
{
    let dx: usize = if a.0 <= b.0 { b.0 - a.0 } else { a.0 - b.0 };
    let dy: usize = if a.1 <= b.1 { b.1 - a.1 } else { a.1 - b.1 };
    if dx > u32::MAX as usize || dy > u32::MAX as usize {
        u32::MAX
    } else {
        let sx: u32 = dx as u32;
        let sy: u32 = dy as u32;
        if sx > u32::MAX - sy { u32::MAX } else { sx + sy }
    }
}

/// Whether the grid is small enough for path costs.
pub fn shape_fits(shape: Shape) -> (r: bool)
    ensures
        r == grid_fits(shape),
{
    if shape.0 > u32::MAX as usize || shape.1 > u32::MAX as usize {
        assert(shape.0 * shape.1 >= 0) by (nonlinear_arith);
        false
    } else {
        let w: u64 = shape.0 as u64;
        let h: u64 = shape.1 as u64;
        assert(w * h <= 0xffff_ffff * 0xffff_ffff) by (nonlinear_arith)
            requires
                w <= 0xffff_ffff,
                h <= 0xffff_ffff,
        ;
        w * h + w + h <= u32::MAX as u64
    }
}

/// A cell is among the first `k` legal destinations when it is among the
/// first `k - 1`, or is the `k`-th candidate and free.
proof fn lemma_pushed(walls: Set<Cell>, shape: Shape, p: Cell, k: nat, q: Cell)
    requires
        k >= 1,
    ensures
        legal_upto(walls, shape, p, k).contains(q) <==> legal_upto(
            walls,
            shape,
            p,
            (k - 1) as nat,
        ).contains(q) || (open_at(walls, shape, neighbor(p, k - 1)) && neighbor(p, k - 1) == (
            q.0 as int,
            q.1 as int,
        )),
{
    let before = legal_upto(walls, shape, p, (k - 1) as nat);
    let c = neighbor(p, k - 1);
    if open_at(walls, shape, c) {
        let cell = (c.0 as usize, c.1 as usize);
        let after = before.push(cell);
        assert(after == legal_upto(walls, shape, p, k));
        if before.contains(q) {
            let i = choose|i: int| 0 <= i < before.len() && before[i] == q;
            assert(after[i] == q);
        }
        if c == (q.0 as int, q.1 as int) {
            assert(after[before.len() as int] == q);
        }
        if after.contains(q) {
            let i = choose|i: int| 0 <= i < after.len() && after[i] == q;
            if i < before.len() {
                assert(before[i] == q);
            }
        }
    }
}

/// The legal destinations from `p` are the free cells at most one step away
/// from it, five at most; where `p` itself is free, it comes first.
pub proof fn lemma_legal_from(walls: Set<Cell>, shape: Shape, p: Cell)
    ensures
        forall|q: Cell| #[trigger]
            legal_from(walls, shape, p).contains(q) <==> is_free(walls, shape, q) && manhattan(p, q)
                <= 1,
        legal_from(walls, shape, p).len() <= 5,
        is_free(walls, shape, p) ==> legal_from(walls, shape, p).len() >= 1 && legal_from(
            walls,
            shape,
            p,
        )[0] == p,
{
    reveal_with_fuel(legal_upto, 6);
    let none = legal_upto(walls, shape, p, 0);
    let all = legal_upto(walls, shape, p, 5);
    assert forall|q: Cell| #[trigger]
        all.contains(q) <==> is_free(walls, shape, q) && manhattan(p, q) <= 1 by {
        lemma_pushed(walls, shape, p, 1, q);
        lemma_pushed(walls, shape, p, 2, q);
        lemma_pushed(walls, shape, p, 3, q);
        lemma_pushed(walls, shape, p, 4, q);
        lemma_pushed(walls, shape, p, 5, q);
        assert(!none.contains(q));
    }
}

/// The length of a shortest walk is the grid distance.
pub proof fn lemma_shortest_is_distance(walls: Set<Cell>, shape: Shape, a: Cell, b: Cell, n: nat)
    requires
        is_shortest(walls, shape, a, b, n),
    ensures
        grid_distance(walls, shape, a, b) == Some(n),
{
    assert(connected(walls, shape, a, b));
    let m = choose|m: nat| is_shortest(walls, shape, a, b, m);
    assert(is_shortest(walls, shape, a, b, m));
    assert(m == n) by {
        if m < n {
            assert(!reaches(walls, shape, a, b, m));
        }
        if n < m {
            assert(!reaches(walls, shape, a, b, n));
        }
    }
}

/// Among the numbers of steps that walks from `a` to `b` take, there is a
/// least one.
proof fn lemma_least_walk(walls: Set<Cell>, shape: Shape, a: Cell, b: Cell, n: nat)
    requires
        reaches(walls, shape, a, b, n),
    ensures
        exists|m: nat| m <= n && is_shortest(walls, shape, a, b, m),
    decreases n,
{
    if exists|m: nat| m < n && reaches(walls, shape, a, b, m) {
        let m = choose|m: nat| m < n && reaches(walls, shape, a, b, m);
        lemma_least_walk(walls, shape, a, b, m);
    } else {
        assert(is_shortest(walls, shape, a, b, n));
    }
}

/// Where a walk leads from `a` to `b`, the grid distance is the length of a
/// shortest one.
pub proof fn lemma_distance_is_shortest(walls: Set<Cell>, shape: Shape, a: Cell, b: Cell)
    requires
        connected(walls, shape, a, b),
    ensures
        grid_distance(walls, shape, a, b) is Some,
        is_shortest(walls, shape, a, b, grid_distance(walls, shape, a, b).unwrap()),
{
    let n = choose|n: nat| reaches(walls, shape, a, b, n);
    lemma_least_walk(walls, shape, a, b, n);
}

/// Every cell is at distance 0 from itself.
pub proof fn lemma_distance_to_self(walls: Set<Cell>, shape: Shape, a: Cell)
    ensures
        grid_distance(walls, shape, a, a) == Some(0nat),
{
    let path = seq![a];
    assert(walk_between(walls, shape, a, a, path));
    assert(reaches(walls, shape, a, a, 0));
    lemma_shortest_is_distance(walls, shape, a, a, 0);
}

/// No walk leads from a cell to another cell that is not free.
pub proof fn lemma_blocked_end(walls: Set<Cell>, shape: Shape, a: Cell, b: Cell)
    requires
        a != b,
        !is_free(walls, shape, b),
    ensures
        grid_distance(walls, shape, a, b) is None,
{
    assert forall|n: nat| !reaches(walls, shape, a, b, n) by {
        if reaches(walls, shape, a, b, n) {
            let path = choose|path: Seq<Cell>| #[trigger]
                walk_between(walls, shape, a, b, path) && path.len() == n + 1;
            let i = path.len() - 2;
            assert(path.len() >= 2);
            assert(legal_from(walls, shape, path[i]).contains(path[i + 1]));
            lemma_legal_from(walls, shape, path[i]);
        }
    }
}

/// A walk has at least as many steps as its ends are apart.
pub proof fn lemma_walk_is_long(walls: Set<Cell>, shape: Shape, path: Seq<Cell>)
    requires
        is_walk(walls, shape, path),
    ensures
        manhattan(path[0], path[path.len() - 1]) <= path.len() - 1,
    decreases path.len(),
{
    if path.len() >= 2 {
        let shorter = path.drop_last();
        assert forall|i: int| 0 <= i < shorter.len() - 1 implies legal_from(
            walls,
            shape,
            #[trigger] shorter[i],
        ).contains(shorter[i + 1]) by {
            assert(legal_from(walls, shape, path[i]).contains(path[i + 1]));
        }
        lemma_walk_is_long(walls, shape, shorter);
        let i = path.len() - 2;
        assert(legal_from(walls, shape, path[i]).contains(path[i + 1]));
        lemma_legal_from(walls, shape, path[i]);
    }
}

/// No walk is shorter than the Manhattan distance between its ends: the
/// grid distance, where there is one, is at least that.
pub proof fn law_distance_at_least_manhattan(walls: Set<Cell>, shape: Shape, a: Cell, b: Cell)
    ensures
        forall|n: nat| reaches(walls, shape, a, b, n) ==> manhattan(a, b) <= n,
        grid_distance(walls, shape, a, b) matches Some(d) ==> manhattan(a, b) <= d,
{
    assert forall|n: nat| reaches(walls, shape, a, b, n) implies manhattan(a, b) <= n by {
        let path = choose|path: Seq<Cell>| #[trigger]
            walk_between(walls, shape, a, b, path) && path.len() == n + 1;
        lemma_walk_is_long(walls, shape, path);
    }
    if connected(walls, shape, a, b) {
        lemma_distance_is_shortest(walls, shape, a, b);
    }
}

/// Along a straight corridor the grid distance is the Manhattan distance.
pub proof fn law_corridor_distance(walls: Set<Cell>, shape: Shape, a: Cell, b: Cell)
    requires
        corridor(walls, shape, a, b),
    ensures
        grid_distance(walls, shape, a, b) == Some(manhattan(a, b)),
{
    let n = manhattan(a, b);
    let path = Seq::new(n + 1, |i: int| (along(a, b, i).0 as usize, along(a, b, i).1 as usize));
    assert forall|i: int| 0 <= i < path.len() - 1 implies legal_from(
        walls,
        shape,
        #[trigger] path[i],
    ).contains(path[i + 1]) by {
        lemma_legal_from(walls, shape, path[i]);
        assert(open_at(walls, shape, along(a, b, i + 1)));
        if i > 0 {
            assert(open_at(walls, shape, along(a, b, i)));
        }
    }
    assert(walk_between(walls, shape, a, b, path));
    assert(reaches(walls, shape, a, b, n));
    law_distance_at_least_manhattan(walls, shape, a, b);
    assert(is_shortest(walls, shape, a, b, n));
    lemma_shortest_is_distance(walls, shape, a, b, n);
}

/// Two computed distances for the same pair of cells are the same.
pub proof fn law_distance_is_unique(
    walls: Set<Cell>,
    shape: Shape,
    a: Cell,
    b: Cell,
    first: Option<u32>,
    second: Option<u32>,
)
    requires
        is_distance(walls, shape, a, b, first),
        is_distance(walls, shape, a, b, second),
    ensures
        first == second,
{
}

/// There is no grid distance exactly where no walk leads from `a` to `b`.
pub proof fn law_no_distance_when_disconnected(walls: Set<Cell>, shape: Shape, a: Cell, b: Cell)
    ensures
        grid_distance(walls, shape, a, b) is None <==> !connected(walls, shape, a, b),
{
}

} // verus!
