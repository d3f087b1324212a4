//! Persistent sets of grid cells, as the game state holds them.
//!
//! Walls and food live in `im::HashSet`. The verifier sees such a set only
//! through [`cells_of`], the mathematical set of the cells it holds, and
//! through the few operations below, each of which states what it does to
//! that set.

use vstd::prelude::*;

verus! {

/// A grid coordinate: column, then row.
pub type Cell = (usize, usize);

/// The size of a maze: width, then height, in cells.
pub type Shape = (usize, usize);

/// The persistent hash set of the `im` crate. Nothing is known of a value of
/// this type but what the operations in this file state.
#[verifier::external_type_specification]
#[verifier::external_body]
#[verifier::reject_recursive_types(A)]
#[verifier::reject_recursive_types(S)]
pub struct ExImHashSet<A, S>(im::HashSet<A, S>);

/// The cells that a set holds.
pub uninterp spec fn cells_of(s: im::HashSet<(usize, usize)>) -> Set<(usize, usize)>;

/// `im::HashSet::contains`: tells whether the cell is a member of the set.
#[verifier::external_body]
pub(crate) fn set_contains(s: &im::HashSet<Cell>, c: Cell) -> (r: bool)
    ensures
        r == cells_of(*s).contains(c),
{
    s.contains(&c)
}

/// `im::HashSet::is_empty`: tells whether the set holds no cell at all.
#[verifier::external_body]
pub(crate) fn set_is_empty(s: &im::HashSet<Cell>) -> (r: bool)
    ensures
        r == (cells_of(*s) =~= Set::<Cell>::empty()),
{
    s.is_empty()
}

/// `im::HashSet::without`: a new set that holds every cell of this one but
/// the given cell.
#[verifier::external_body]
pub(crate) fn set_without(s: &im::HashSet<Cell>, c: Cell) -> (r: im::HashSet<Cell>)
    ensures
        cells_of(r) == cells_of(*s).remove(c),
{
    s.without(&c)
}

/// `Clone::clone` of `im::HashSet`: a set that holds the same cells.
#[verifier::external_body]
pub(crate) fn set_clone(s: &im::HashSet<Cell>) -> (r: im::HashSet<Cell>)
    ensures
        cells_of(r) == cells_of(*s),
{
    s.clone()
}

/// `PartialEq::eq` of `im::HashSet`: tells whether two sets hold the same
/// cells.
#[verifier::external_body]
pub(crate) fn set_equal(a: &im::HashSet<Cell>, b: &im::HashSet<Cell>) -> (r: bool)
    ensures
        r == (cells_of(*a) =~= cells_of(*b)),
{
    a == b
}

/// `im::HashSet::iter`: hands out every cell of the set once, in an order
/// that is left open.
#[verifier::external_body]
pub(crate) fn set_to_vec(s: &im::HashSet<Cell>) -> (r: Vec<Cell>)
    ensures
        r@.to_set() == cells_of(*s),
        r@.no_duplicates(),
{
    s.iter().copied().collect()
}

} // verus!
