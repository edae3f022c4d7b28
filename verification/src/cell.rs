use vstd::prelude::*;

use std::collections::HashSet;

use crate::direction::{CardinalDirection, GridPos};
use vstd::std_specs::iter::IteratorSpec;

verus! {

broadcast use vstd::std_specs::hash::group_hash_axioms;

/// The identifier of a cell of the maze.
#[derive(Debug, Clone, Copy, PartialEq, Eq, Hash, Structural)]
pub struct CellId(pub u32);

/// What a cell is: its identifier, its grid position, and the neighbour it
/// is connected to through each of its connected faces.
pub struct CellView {
    pub id: CellId,
    pub position: GridPos,
    pub links: Map<CardinalDirection, CellId>,
}

impl CellView {
    /// The neighbour through face `d`, if that face is connected.
    pub open spec fn neighbor(self, d: CardinalDirection) -> Option<CellId> {
        if self.links.dom().contains(d) {
            Some(self.links[d])
        } else {
            None
        }
    }

    /// Whether face `d` is connected to a neighbour.
    pub open spec fn has_neighbor(self, d: CardinalDirection) -> bool {
        self.links.dom().contains(d)
    }

    /// The same cell with face `d` connected to `n`.
    pub open spec fn with_link(self, d: CardinalDirection, n: CellId) -> CellView {
        CellView { links: self.links.insert(d, n), ..self }
    }

    /// The same cell with face `d` disconnected.
    pub open spec fn without_link(self, d: CardinalDirection) -> CellView {
        CellView { links: self.links.remove(d), ..self }
    }

    /// The faces without a neighbour, in the order of `CardinalDirection::all`.
    pub open spec fn boundary_faces(self) -> Seq<CardinalDirection> {
        CardinalDirection::spec_all().filter(|d: CardinalDirection| !self.links.dom().contains(d))
    }
}

/// The slot of a direction in the table of a cell's neighbours.
pub open spec fn dir_slot(d: CardinalDirection) -> int {
    match d {
        CardinalDirection::North => 0,
        CardinalDirection::South => 1,
        CardinalDirection::East => 2,
        CardinalDirection::West => 3,
        CardinalDirection::Zenith => 4,
        CardinalDirection::Nadir => 5,
    }
}

fn slot(d: CardinalDirection) -> (i: usize)
    ensures
        i == dir_slot(d),
        i < 6,
{
    match d {
        CardinalDirection::North => 0,
        CardinalDirection::South => 1,
        CardinalDirection::East => 2,
        CardinalDirection::West => 3,
        CardinalDirection::Zenith => 4,
        CardinalDirection::Nadir => 5,
    }
}

/// A cell of the maze, with one optional neighbour per face.
#[derive(Debug)]
pub struct Cell {
    id: CellId,
    position: GridPos,
    links: [Option<CellId>; 6],
}

impl View for Cell {
    type V = CellView;

    closed spec fn view(&self) -> CellView {
        CellView {
            id: self.id,
            position: self.position,
            links: Map::new(
                |d: CardinalDirection| self.links@[dir_slot(d)] is Some,
                |d: CardinalDirection| self.links@[dir_slot(d)]->0,
            ),
        }
    }
}

impl Cell {
    /// Creates a cell with no connections at the given grid position.
    pub fn new(id: CellId, position: GridPos) -> (c: Cell)
        ensures
            c@.id == id,
            c@.position == position,
            c@.links == Map::<CardinalDirection, CellId>::empty(),
    {
        let c = Cell { id, position, links: [None, None, None, None, None, None] };
        assert(c@.links =~= Map::<CardinalDirection, CellId>::empty());
        c
    }

    /// Returns the cell's identifier.
    pub fn id(&self) -> (r: CellId)
        ensures
            r == self@.id,
    {
        self.id
    }

    /// Returns the cell's position in grid coordinates.
    pub fn position(&self) -> (r: GridPos)
        ensures
            r == self@.position,
    {
        self.position
    }

    /// Connects this cell to `neighbor` through face `direction`, replacing
    /// any previous neighbour there.
    pub fn connect(&mut self, direction: CardinalDirection, neighbor: CellId)
        ensures
            final(self)@ == old(self)@.with_link(direction, neighbor),
    {
        let i = slot(direction);
        self.links[i] = Some(neighbor);
        assert(self@.links =~= old(self)@.links.insert(direction, neighbor));
    }

    /// Disconnects face `direction`, returning the neighbour it had, if any.
    pub fn disconnect(&mut self, direction: CardinalDirection) -> (r: Option<CellId>)
        ensures
            r == old(self)@.neighbor(direction),
            final(self)@ == old(self)@.without_link(direction),
    {
        let i = slot(direction);
        let prev = self.links[i];
        self.links[i] = None;
        assert(self@.links =~= old(self)@.links.remove(direction));
        prev
    }

    /// Returns the neighbour through face `direction`, if any.
    pub fn get_neighbor(&self, direction: CardinalDirection) -> (r: Option<CellId>)
        ensures
            r == self@.neighbor(direction),
    {
        self.links[slot(direction)]
    }

    /// Whether face `direction` is connected to a neighbour.
    pub fn has_neighbor(&self, direction: CardinalDirection) -> (r: bool)
        ensures
            r == self@.has_neighbor(direction),
    {
        self.links[slot(direction)].is_some()
    }

    /// The faces without a neighbour (the cell's boundary), in the order of
    /// `CardinalDirection::all`.
    pub fn boundary_faces(&self) -> (r: Vec<CardinalDirection>)
        ensures
            r@ == self@.boundary_faces(),
    {
        let all = CardinalDirection::all();
        let ghost pred = |d: CardinalDirection| !self@.links.dom().contains(d);
        let mut r: Vec<CardinalDirection> = Vec::new();
        let mut i: usize = 0;
        while i < 6
            invariant
                0 <= i <= 6,
                all@ == CardinalDirection::spec_all(),
                pred == (|d: CardinalDirection| !self@.links.dom().contains(d)),
                r@ == all@.take(i as int).filter(pred),
            decreases 6 - i,
        {
            let d = all[i];
            proof {
                assert(all@.take(i + 1) =~= all@.take(i as int).push(d));
                all@.take(i as int).lemma_filter_push(d, pred);
            }
            if !self.has_neighbor(d) {
                r.push(d);
            }
            i = i + 1;
        }
        assert(all@.take(6) =~= all@);
        r
    }
}

/// Connecting a face and then reading it back gives the new neighbour, and
/// the other faces keep theirs.
pub proof fn lemma_connect_then_get(c: CellView, d: CardinalDirection, n: CellId, e: CardinalDirection)
    ensures
        c.with_link(d, n).neighbor(d) == Some(n),
        e != d ==> c.with_link(d, n).neighbor(e) == c.neighbor(e),
        c.with_link(d, n).id == c.id,
        c.with_link(d, n).position == c.position,
{
}

/// Disconnecting a face leaves it without a neighbour and the other faces as
/// they were; disconnecting right after connecting restores the cell.
pub proof fn lemma_disconnect_clears(c: CellView, d: CardinalDirection, n: CellId, e: CardinalDirection)
    ensures
        c.without_link(d).neighbor(d) is None,
        e != d ==> c.without_link(d).neighbor(e) == c.neighbor(e),
        !c.has_neighbor(d) ==> c.with_link(d, n).without_link(d) == c,
{
    if !c.has_neighbor(d) {
        assert(c.with_link(d, n).without_link(d).links =~= c.links);
    }
}

/// A face is a boundary face exactly when it has no neighbour; boundary faces
/// are listed once each.
pub proof fn lemma_boundary_faces_are_unconnected(c: CellView, d: CardinalDirection)
    ensures
        c.boundary_faces().contains(d) <==> !c.has_neighbor(d),
        c.boundary_faces().no_duplicates(),
        c.boundary_faces().len() <= 6,
{
    let all = CardinalDirection::spec_all();
    let pred = |x: CardinalDirection| !c.links.dom().contains(x);
    crate::direction::lemma_all_lists_each_once(d);
    all.lemma_filter_len(pred);
    if !c.has_neighbor(d) {
        let i = choose|i: int| 0 <= i < all.len() && all[i] == d;
        all.lemma_filter_contains(pred, i);
    }
    if c.boundary_faces().contains(d) {
        let j = choose|j: int| 0 <= j < c.boundary_faces().len() && c.boundary_faces()[j] == d;
        all.lemma_filter_pred(pred, j);
    }
    lemma_filter_keeps_distinct(all, pred);
}

/// Filtering a sequence without repeated elements gives one without repeats.
proof fn lemma_filter_keeps_distinct<A>(s: Seq<A>, pred: spec_fn(A) -> bool)
    requires
        s.no_duplicates(),
    ensures
        s.filter(pred).no_duplicates(),
    decreases s.len(),
{
    reveal(Seq::filter);
    if s.len() > 0 {
        let rest = s.drop_last();
        assert(rest.no_duplicates());
        lemma_filter_keeps_distinct(rest, pred);
        if pred(s.last()) {
            if rest.filter(pred).contains(s.last()) {
                rest.lemma_filter_contains_rev(pred, s.last());
            }
        }
    }
}

/// Lists the identifiers held in a set of raw cell numbers, each once.
pub(crate) fn list_cell_ids(set: &HashSet<u32>) -> (r: Vec<CellId>)
    ensures
        r@.no_duplicates(),
        forall|c: CellId| r@.contains(c) <==> set@.contains(c.0),
{
    let mut r: Vec<CellId> = Vec::new();
    let ghost s = vstd::std_specs::hash::spec_hash_keys_iter(set).remaining();
    for x in it: set.iter()
        invariant
            it.seq() == s,
            r@ == s.take(it.index()).map_values(|v: &u32| CellId(*v)),
    {
        r.push(CellId(*x));
    }
    proof {
        assert(r@.len() == s.len());
        assert(s.take(s.len() as int) =~= s);
        let u = s.unref();
        assert forall|c: CellId| r@.contains(c) <==> set@.contains(c.0) by {
            if r@.contains(c) {
                let i = choose|i: int| 0 <= i < r@.len() && r@[i] == c;
                assert(u[i] == c.0);
                assert(u.to_set().contains(c.0));
            }
            if set@.contains(c.0) {
                assert(u.to_set().contains(c.0));
                let i = choose|i: int| 0 <= i < u.len() && u[i] == c.0;
                assert(r@[i] == c);
            }
        }
        assert forall|i: int, j: int| 0 <= i < j < r@.len() implies r@[i] != r@[j] by {
            assert(u[i] != u[j]);
        }
    }
    r
}

} // verus!
