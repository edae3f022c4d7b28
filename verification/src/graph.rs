use vstd::prelude::*;

use crate::cell::{Cell, CellId, CellView};
use crate::direction::{CardinalDirection, GridPos};

verus! {

/// Whether `id` names a cell of the graph `g`.
pub open spec fn has_cell(g: Seq<CellView>, id: CellId) -> bool {
    (id.0 as int) < g.len()
}

/// The cell named `id` in the graph `g`.
pub open spec fn cell_of(g: Seq<CellView>, id: CellId) -> CellView {
    g[id.0 as int]
}

/// The graph after connecting `a` through face `d` to `b`, and `b` back
/// through the opposite face to `a`.
pub open spec fn connected(g: Seq<CellView>, a: CellId, d: CardinalDirection, b: CellId) -> Seq<CellView> {
    let g1 = g.update(a.0 as int, cell_of(g, a).with_link(d, b));
    g1.update(b.0 as int, cell_of(g1, b).with_link(d.opposite(), a))
}

/// The graph after removing the link of `a` through face `d`, and the link
/// of that neighbour back through the opposite face, when the neighbour is a
/// cell of the graph.
pub open spec fn disconnected(g: Seq<CellView>, a: CellId, d: CardinalDirection) -> Seq<CellView> {
    let n = cell_of(g, a).links[d];
    let g1 = g.update(a.0 as int, cell_of(g, a).without_link(d));
    if has_cell(g1, n) {
        g1.update(n.0 as int, cell_of(g1, n).without_link(d.opposite()))
    } else {
        g1
    }
}

/// Every cell of the graph carries the identifier under which it is stored.
pub open spec fn ids_consistent(g: Seq<CellView>) -> bool {
    forall|i: int| 0 <= i < g.len() ==> #[trigger] g[i].id == CellId(i as u32)
}

/// Every link leads to a cell of the graph that links back through the
/// opposite face.
pub open spec fn symmetric(g: Seq<CellView>) -> bool {
    forall|i: int, d: CardinalDirection|
        0 <= i < g.len() && #[trigger] g[i].has_neighbor(d) ==> {
            let n = g[i].links[d];
            &&& has_cell(g, n)
            &&& cell_of(g, n).neighbor(d.opposite()) == Some(CellId(i as u32))
        }
}

/// The graph of cells of the maze. Cells are numbered in the order they are
/// added, from 0.
pub struct CellGraph {
    cells: Vec<Cell>,
}

impl View for CellGraph {
    type V = Seq<CellView>;

    closed spec fn view(&self) -> Seq<CellView> {
        self.cells@.map_values(|c: Cell| c@)
    }
}

impl CellGraph {
    /// Creates an empty cell graph.
    pub fn new() -> (g: CellGraph)
        ensures
            g@ == Seq::<CellView>::empty(),
    {
        let g = CellGraph { cells: Vec::new() };
        assert(g@ =~= Seq::<CellView>::empty());
        g
    }

    /// The number of cells in the graph.
    pub fn len(&self) -> (n: usize)
        ensures
            n == self@.len(),
    {
        self.cells.len()
    }

    /// Adds a new cell, with no connections, at the given grid position and
    /// returns its identifier, the number of cells before the call.
    pub fn add_cell(&mut self, position: GridPos) -> (id: CellId)
        requires
            old(self)@.len() < u32::MAX,
        ensures
            id == CellId(old(self)@.len() as u32),
            final(self)@ == old(self)@.push(
                CellView { id, position, links: Map::<CardinalDirection, CellId>::empty() },
            ),
    {
        let id = CellId(self.cells.len() as u32);
        let cell = Cell::new(id, position);
        self.cells.push(cell);
        assert(self@ =~= old(self)@.push(
            CellView { id, position, links: Map::<CardinalDirection, CellId>::empty() },
        ));
        id
    }

    /// The cell with the given identifier, if there is one.
    pub fn get_cell(&self, id: CellId) -> (r: Option<&Cell>)
        ensures
            r is Some <==> has_cell(self@, id),
            r matches Some(c) ==> c@ == cell_of(self@, id),
    {
        if (id.0 as usize) < self.cells.len() {
            Some(&self.cells[id.0 as usize])
        } else {
            None
        }
    }

    /// Mutable access to the cell with the given identifier, if there is one.
    pub fn get_cell_mut(&mut self, id: CellId) -> (r: Option<&mut Cell>)
        ensures
            r is Some <==> has_cell(old(self)@, id),
            r is None ==> final(self)@ == old(self)@,
            r is Some ==> (*r.unwrap())@ == cell_of(old(self)@, id) && final(self)@ == old(
                self,
            )@.update(id.0 as int, (*final(r.unwrap()))@),
    {
        if (id.0 as usize) < self.cells.len() {
            let c = &mut self.cells[id.0 as usize];
            Some(c)
        } else {
            None
        }
    }

    /// Connects `cell_a` through face `direction` to `cell_b`, and `cell_b`
    /// through the opposite face back to `cell_a`. Returns whether both cells
    /// exist; when one does not, nothing changes.
    pub fn connect_cells(&mut self, cell_a: CellId, direction: CardinalDirection, cell_b: CellId) -> (r: bool)
        ensures
            r == (has_cell(old(self)@, cell_a) && has_cell(old(self)@, cell_b)),
            r ==> final(self)@ == connected(old(self)@, cell_a, direction, cell_b),
            !r ==> final(self)@ == old(self)@,
    {
        let n = self.cells.len();
        if !((cell_a.0 as usize) < n) || !((cell_b.0 as usize) < n) {
            return false;
        }
        let ia = cell_a.0 as usize;
        let ib = cell_b.0 as usize;
        let ghost g0 = self@;
        self.cells[ia].connect(direction, cell_b);
        let ghost g1 = self@;
        assert(g1 =~= g0.update(ia as int, cell_of(g0, cell_a).with_link(direction, cell_b)));
        let opposite = direction.opposite();
        self.cells[ib].connect(opposite, cell_a);
        assert(self@ =~= connected(g0, cell_a, direction, cell_b));
        true
    }

    /// Removes the link of `cell_a` through face `direction`, and the link of
    /// that neighbour back through the opposite face. Returns whether
    /// `cell_a` exists and had a neighbour there; otherwise nothing changes.
    pub fn disconnect_cells(&mut self, cell_a: CellId, direction: CardinalDirection) -> (r: bool)
        ensures
            r == (has_cell(old(self)@, cell_a) && cell_of(old(self)@, cell_a).has_neighbor(direction)),
            r ==> final(self)@ == disconnected(old(self)@, cell_a, direction),
            !r ==> final(self)@ == old(self)@,
    {
        let n = self.cells.len();
        if !((cell_a.0 as usize) < n) {
            return false;
        }
        let ia = cell_a.0 as usize;
        let neighbor_id = match self.cells[ia].get_neighbor(direction) {
            Some(id) => id,
            None => return false,
        };
        let ghost g0 = self@;
        self.cells[ia].disconnect(direction);
        let ghost g1 = self@;
        assert(g1 =~= g0.update(ia as int, cell_of(g0, cell_a).without_link(direction)));
        let opposite = direction.opposite();
        if (neighbor_id.0 as usize) < n {
            self.cells[neighbor_id.0 as usize].disconnect(opposite);
        }
        assert(self@ =~= disconnected(g0, cell_a, direction));
        true
    }

    /// The identifiers of all cells, in increasing order.
    pub fn cell_ids(&self) -> (r: Vec<CellId>)
        ensures
            r@ == Seq::new(self@.len(), |i: int| CellId(i as u32)),
    {
        let n = self.cells.len();
        let mut r: Vec<CellId> = Vec::new();
        let mut i: usize = 0;
        while i < n
            invariant
                n == self@.len(),
                i <= n,
                r@ == Seq::new(i as nat, |j: int| CellId(j as u32)),
            decreases n - i,
        {
            r.push(CellId(i as u32));
            i = i + 1;
            assert(r@ =~= Seq::new(i as nat, |j: int| CellId(j as u32)));
        }
        r
    }

    /// All cells, in the order of their identifiers.
    pub fn cells(&self) -> (r: &[Cell])
        ensures
            r@.map_values(|c: Cell| c@) == self@,
    {
        self.cells.as_slice()
    }
}

/// After `connect_cells` succeeds, `a` leads through `d` to `b` and `b` leads
/// back through the opposite face to `a`; every other face of every cell,
/// and every identifier and position, is as before.
pub proof fn lemma_connect_links_both_ways(g: Seq<CellView>, a: CellId, d: CardinalDirection, b: CellId)
    requires
        has_cell(g, a),
        has_cell(g, b),
    ensures
        connected(g, a, d, b).len() == g.len(),
        cell_of(connected(g, a, d, b), a).neighbor(d) == Some(b),
        cell_of(connected(g, a, d, b), b).neighbor(d.opposite()) == Some(a),
        forall|i: int| 0 <= i < g.len() ==> {
            &&& #[trigger] connected(g, a, d, b)[i].id == g[i].id
            &&& connected(g, a, d, b)[i].position == g[i].position
        },
        forall|i: int, e: CardinalDirection|
            0 <= i < g.len() && !(i == a.0 && e == d) && !(i == b.0 && e == d.opposite())
                ==> #[trigger] connected(g, a, d, b)[i].neighbor(e) == g[i].neighbor(e),
{
}

/// Connecting two free faces keeps every link mirrored.
pub proof fn lemma_connect_keeps_symmetry(g: Seq<CellView>, a: CellId, d: CardinalDirection, b: CellId)
    requires
        symmetric(g),
        has_cell(g, a),
        has_cell(g, b),
        !cell_of(g, a).has_neighbor(d),
        !cell_of(g, b).has_neighbor(d.opposite()),
    ensures
        symmetric(connected(g, a, d, b)),
{
    let h = connected(g, a, d, b);
    crate::direction::lemma_opposite_involutive(d);
    assert forall|i: int, e: CardinalDirection|
        0 <= i < h.len() && #[trigger] h[i].has_neighbor(e) implies {
            let n = h[i].links[e];
            &&& has_cell(h, n)
            &&& cell_of(h, n).neighbor(e.opposite()) == Some(CellId(i as u32))
        } by {
        crate::direction::lemma_opposite_involutive(e);
        if (i == a.0 && e == d) || (i == b.0 && e == d.opposite()) {
        } else {
            assert(g[i].has_neighbor(e));
            let n = g[i].links[e];
            assert(has_cell(g, n));
            assert(cell_of(g, n).neighbor(e.opposite()) == Some(CellId(i as u32)));
        }
    }
}

/// Removing a link together with its mirror keeps every link mirrored.
pub proof fn lemma_disconnect_keeps_symmetry(g: Seq<CellView>, a: CellId, d: CardinalDirection)
    requires
        symmetric(g),
        g.len() <= u32::MAX,
        has_cell(g, a),
        cell_of(g, a).has_neighbor(d),
    ensures
        symmetric(disconnected(g, a, d)),
{
    let h = disconnected(g, a, d);
    let n = cell_of(g, a).links[d];
    crate::direction::lemma_opposite_involutive(d);
    assert(g[a.0 as int].has_neighbor(d));
    assert(has_cell(g, n));
    assert forall|i: int, e: CardinalDirection|
        0 <= i < h.len() && #[trigger] h[i].has_neighbor(e) implies {
            let m = h[i].links[e];
            &&& has_cell(h, m)
            &&& cell_of(h, m).neighbor(e.opposite()) == Some(CellId(i as u32))
        } by {
        crate::direction::lemma_opposite_involutive(e);
        assert(g[i].has_neighbor(e));
        let m = g[i].links[e];
        assert(has_cell(g, m));
        assert(cell_of(g, m).neighbor(e.opposite()) == Some(CellId(i as u32)));
        assert(cell_of(g, n).neighbor(d.opposite()) == Some(a));
        if m == a && e.opposite() == d {
            assert(n == CellId(i as u32));
        }
        if m == n && e.opposite() == d.opposite() {
            assert(a == CellId(i as u32));
        }
    }
}

/// Disconnecting right after connecting two free faces gives back the graph.
pub proof fn lemma_disconnect_undoes_connect(g: Seq<CellView>, a: CellId, d: CardinalDirection, b: CellId)
    requires
        has_cell(g, a),
        has_cell(g, b),
        !cell_of(g, a).has_neighbor(d),
        !cell_of(g, b).has_neighbor(d.opposite()),
    ensures
        disconnected(connected(g, a, d, b), a, d) == g,
{
    let h = disconnected(connected(g, a, d, b), a, d);
    crate::direction::lemma_opposite_involutive(d);
    assert forall|i: int| 0 <= i < g.len() implies #[trigger] h[i] == g[i] by {
        assert(h[i].links =~= g[i].links);
    }
    assert(h =~= g);
}

/// Adding a cell keeps identifiers consistent and links mirrored.
pub proof fn lemma_add_cell_keeps_invariants(g: Seq<CellView>, p: GridPos)
    requires
        g.len() < u32::MAX,
    ensures
        ids_consistent(g) ==> ids_consistent(
            g.push(CellView { id: CellId(g.len() as u32), position: p, links: Map::empty() }),
        ),
        symmetric(g) ==> symmetric(
            g.push(CellView { id: CellId(g.len() as u32), position: p, links: Map::empty() }),
        ),
{
    let h = g.push(CellView { id: CellId(g.len() as u32), position: p, links: Map::empty() });
    if symmetric(g) {
        assert forall|i: int, e: CardinalDirection|
            0 <= i < h.len() && #[trigger] h[i].has_neighbor(e) implies {
                let m = h[i].links[e];
                &&& has_cell(h, m)
                &&& cell_of(h, m).neighbor(e.opposite()) == Some(CellId(i as u32))
            } by {
            assert(i < g.len());
            assert(g[i].has_neighbor(e));
        }
    }
}

/// Connecting and disconnecting keep every identifier and position.
pub proof fn lemma_links_keep_ids(g: Seq<CellView>, a: CellId, d: CardinalDirection, b: CellId)
    requires
        has_cell(g, a),
        has_cell(g, b),
    ensures
        ids_consistent(g) ==> ids_consistent(connected(g, a, d, b)),
        ids_consistent(g) && cell_of(g, a).has_neighbor(d) ==> ids_consistent(disconnected(g, a, d)),
        disconnected(g, a, d).len() == g.len(),
{
}

} // verus!
