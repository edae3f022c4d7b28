use vstd::prelude::*;

use rand::seq::IndexedRandom;

use crate::cell::{CellId, CellView};
use crate::direction::{CardinalDirection, GridPos};
use crate::graph::{cell_of, connected, has_cell, symmetric, CellGraph};
use crate::room::{
    assigned_room, has_room, partitioned, room_of, rooms_after_assign, rooms_after_connect, ExitKey, ExitTarget,
    RoomId, RoomMap, RoomMapView, RoomView,
};

verus! {

use CardinalDirection::{East, North, South, West};

/// A cell of a maze layout: where it stands and which of the layout's rooms
/// it belongs to.
#[derive(Debug, Clone, Copy, PartialEq, Eq, Structural)]
pub struct LayoutCell {
    pub position: GridPos,
    pub room: u32,
}

/// A connection of a maze layout, between two of its cells given by their
/// index in the layout.
#[derive(Debug, Clone, Copy, PartialEq, Eq, Structural)]
pub struct LayoutLink {
    pub from: u32,
    pub direction: CardinalDirection,
    pub to: u32,
}

/// A maze described as data: its rooms, its cells, the connections inside
/// rooms, and the doors, which connect cells of two rooms.
pub struct MazeLayout {
    pub room_count: u32,
    pub cells: Vec<LayoutCell>,
    pub links: Vec<LayoutLink>,
    pub doors: Vec<LayoutLink>,
}

/// Every cell belongs to one of the layout's rooms and every connection and
/// door joins cells of the layout.
pub open spec fn layout_wf(l: &MazeLayout) -> bool {
    &&& forall|i: int| 0 <= i < l.cells@.len() ==> #[trigger] l.cells@[i].room < l.room_count
    &&& forall|i: int|
        0 <= i < l.links@.len() ==> #[trigger] l.links@[i].from < l.cells@.len() && l.links@[i].to < l.cells@.len()
    &&& forall|i: int|
        0 <= i < l.doors@.len() ==> #[trigger] l.doors@[i].from < l.cells@.len() && l.doors@[i].to < l.cells@.len()
}

/// The graph after adding the layout's cells, without connections, in order.
pub open spec fn with_cells(g: Seq<CellView>, cells: Seq<LayoutCell>) -> Seq<CellView> {
    g + Seq::new(
        cells.len(),
        |i: int| CellView { id: CellId((g.len() + i) as u32), position: cells[i].position, links: Map::empty() },
    )
}

/// The identifier given to the layout cell with index `i` when the first
/// layout cell gets `base`.
pub open spec fn layout_id(base: nat, i: u32) -> CellId {
    CellId((base + i) as u32)
}

/// The graph after making the given connections, in order.
pub open spec fn with_links(g: Seq<CellView>, base: nat, links: Seq<LayoutLink>) -> Seq<CellView>
    decreases links.len(),
{
    if links.len() == 0 {
        g
    } else {
        let k = links.last();
        connected(with_links(g, base, links.drop_last()), layout_id(base, k.from), k.direction, layout_id(base, k.to))
    }
}

/// The rooms after creating one empty room per colour, in order.
pub open spec fn with_rooms(rooms: Seq<RoomView>, colors: Seq<bevy::color::Color>) -> Seq<RoomView> {
    rooms + Seq::new(
        colors.len(),
        |i: int| RoomView {
            id: RoomId((rooms.len() + i) as u32),
            cells: Set::empty(),
            color: colors[i],
            exits: Map::<ExitKey, ExitTarget>::empty(),
        },
    )
}

/// The room map after assigning the layout's cells to their rooms, in order.
pub open spec fn with_assignments(m: RoomMapView, cell_base: nat, room_base: nat, cells: Seq<LayoutCell>) -> RoomMapView
    decreases cells.len(),
{
    if cells.len() == 0 {
        m
    } else {
        let h = with_assignments(m, cell_base, room_base, cells.drop_last());
        let c = CellId((cell_base + cells.len() - 1) as u32);
        let r = RoomId((room_base + cells.last().room) as u32);
        RoomMapView { rooms: rooms_after_assign(h, c, r), cell_rooms: h.cell_rooms.insert(c, r) }
    }
}

/// The room of the layout cell with index `i`.
pub open spec fn layout_room(room_base: nat, cells: Seq<LayoutCell>, i: u32) -> RoomId {
    RoomId((room_base + cells[i as int].room) as u32)
}

/// The rooms after recording every door in the two rooms it joins, in
/// order.
pub open spec fn with_doors(
    m: RoomMapView,
    cell_base: nat,
    room_base: nat,
    cells: Seq<LayoutCell>,
    doors: Seq<LayoutLink>,
) -> Seq<RoomView>
    decreases doors.len(),
{
    if doors.len() == 0 {
        m.rooms
    } else {
        let k = doors.last();
        let h = RoomMapView { rooms: with_doors(m, cell_base, room_base, cells, doors.drop_last()), ..m };
        rooms_after_connect(
            h,
            layout_room(room_base, cells, k.from),
            layout_id(cell_base, k.from),
            k.direction,
            layout_room(room_base, cells, k.to),
            layout_id(cell_base, k.to),
        )
    }
}

/// Builds a maze from its layout: creates one room per colour, adds the
/// layout's cells in order (the cell with index `i` gets identifier
/// `base + i`, `base` being the number of cells before the call), makes the
/// connections, assigns every cell to its room, and then opens each door in
/// the graph and records it in the two rooms it joins.
pub fn build_maze(
    graph: &mut CellGraph,
    room_map: &mut RoomMap,
    layout: &MazeLayout,
    colors: &Vec<bevy::color::Color>,
)
    requires
        layout_wf(layout),
        colors@.len() == layout.room_count,
        old(graph)@.len() + layout.cells@.len() < u32::MAX,
        old(room_map)@.rooms.len() + layout.room_count < u32::MAX,
    ensures
        ({
            let base = old(graph)@.len();
            let room_base = old(room_map)@.rooms.len();
            let g1 = with_links(with_cells(old(graph)@, layout.cells@), base, layout.links@);
            let m1 = RoomMapView {
                rooms: with_rooms(old(room_map)@.rooms, colors@),
                cell_rooms: old(room_map)@.cell_rooms,
            };
            let m2 = with_assignments(m1, base, room_base, layout.cells@);
            &&& final(graph)@ == with_links(g1, base, layout.doors@)
            &&& final(room_map)@.rooms == with_doors(m2, base, room_base, layout.cells@, layout.doors@)
            &&& final(room_map)@.cell_rooms == m2.cell_rooms
        }),
{
    let ghost g0 = graph@;
    let ghost m0 = room_map@;
    let ghost base = g0.len();
    let ghost room_base = m0.rooms.len();
    let base_id = graph.len() as u32;
    let room_base_id = room_map.len() as u32;
    let n = layout.cells.len();

    // Rooms.
    let rc = layout.room_count;
    let mut i: u32 = 0;
    while i < rc
        invariant
            rc == layout.room_count,
            colors@.len() == rc,
            i <= rc,
            room_base == m0.rooms.len(),
            m0.rooms.len() + rc < u32::MAX,
            room_map@.rooms == with_rooms(m0.rooms, colors@.take(i as int)),
            room_map@.cell_rooms == m0.cell_rooms,
        decreases rc - i,
    {
        room_map.create_room(colors[i as usize]);
        i = i + 1;
        assert(room_map@.rooms =~= with_rooms(m0.rooms, colors@.take(i as int)));
    }
    assert(colors@.take(rc as int) =~= colors@);
    let ghost m1 = room_map@;

    // Cells.
    let mut k: usize = 0;
    while k < n
        invariant
            n == layout.cells@.len(),
            k <= n,
            base == g0.len(),
            g0.len() + n < u32::MAX,
            graph@ == with_cells(g0, layout.cells@.take(k as int)),
        decreases n - k,
    {
        graph.add_cell(layout.cells[k].position);
        k = k + 1;
        assert(graph@ =~= with_cells(g0, layout.cells@.take(k as int)));
    }
    assert(layout.cells@.take(n as int) =~= layout.cells@);
    let ghost gc = graph@;

    // Connections inside rooms.
    let nl = layout.links.len();
    let mut k: usize = 0;
    while k < nl
        invariant
            nl == layout.links@.len(),
            n == layout.cells@.len(),
            k <= nl,
            layout_wf(layout),
            base == g0.len(),
            base_id == base,
            g0.len() + n < u32::MAX,
            gc == with_cells(g0, layout.cells@),
            graph@.len() == base + n,
            graph@ == with_links(gc, base, layout.links@.take(k as int)),
        decreases nl - k,
    {
        let l = layout.links[k];
        assert(layout.links@[k as int].from < n);
        let a = CellId(base_id + l.from);
        let b = CellId(base_id + l.to);
        graph.connect_cells(a, l.direction, b);
        assert(layout.links@.take(k + 1).drop_last() =~= layout.links@.take(k as int));
        k = k + 1;
    }
    assert(layout.links@.take(nl as int) =~= layout.links@);
    let ghost g1 = graph@;

    // Room assignments.
    let mut k: usize = 0;
    while k < n
        invariant
            n == layout.cells@.len(),
            k <= n,
            layout_wf(layout),
            base == g0.len(),
            base_id == base,
            room_base_id == room_base,
            g0.len() + n < u32::MAX,
            room_base == m0.rooms.len(),
            m0.rooms.len() + layout.room_count < u32::MAX,
            m1.rooms.len() == room_base + layout.room_count,
            room_map@.rooms.len() == m1.rooms.len(),
            room_map@ == with_assignments(m1, base, room_base, layout.cells@.take(k as int)),
            forall|j: int|
                0 <= j < k ==> #[trigger] room_of(room_map@, layout_room(room_base, layout.cells@, j as u32)).cells.contains(
                    layout_id(base, j as u32),
                ),
        decreases n - k,
    {
        let c = layout.cells[k];
        assert(layout.cells@[k as int].room < layout.room_count);
        let cell_id = CellId(base_id + k as u32);
        let room_id = RoomId(room_base_id + c.room);
        let ghost h = room_map@;
        room_map.assign_cell(cell_id, room_id);
        proof {
            let t = layout.cells@.take(k + 1);
            assert(t.drop_last() =~= layout.cells@.take(k as int));
            assert forall|j: int|
                0 <= j < k + 1 implies #[trigger] room_of(room_map@, layout_room(room_base, layout.cells@, j as u32)).cells.contains(
                    layout_id(base, j as u32),
                ) by {
                if j < k {
                    assert(room_of(h, layout_room(room_base, layout.cells@, j as u32)).cells.contains(
                        layout_id(base, j as u32),
                    ));
                    assert(layout_id(base, j as u32) != cell_id);
                }
            }
        }
        k = k + 1;
    }
    assert(layout.cells@.take(n as int) =~= layout.cells@);
    let ghost m2 = room_map@;

    // Doors.
    let nd = layout.doors.len();
    let mut k: usize = 0;
    while k < nd
        invariant
            nd == layout.doors@.len(),
            n == layout.cells@.len(),
            k <= nd,
            layout_wf(layout),
            base == g0.len(),
            base_id == base,
            room_base_id == room_base,
            g0.len() + n < u32::MAX,
            m0.rooms.len() + layout.room_count < u32::MAX,
            room_base == m0.rooms.len(),
            m2.rooms.len() == room_base + layout.room_count,
            graph@.len() == base + n,
            graph@ == with_links(g1, base, layout.doors@.take(k as int)),
            room_map@.rooms == with_doors(m2, base, room_base, layout.cells@, layout.doors@.take(k as int)),
            room_map@.cell_rooms == m2.cell_rooms,
            room_map@.rooms.len() == m2.rooms.len(),
            forall|r: int| 0 <= r < m2.rooms.len() ==> #[trigger] room_map@.rooms[r].cells == m2.rooms[r].cells,
            forall|j: int|
                0 <= j < n ==> #[trigger] room_of(m2, layout_room(room_base, layout.cells@, j as u32)).cells.contains(
                    layout_id(base, j as u32),
                ),
        decreases nd - k,
    {
        let d = layout.doors[k];
        assert(layout.doors@[k as int].from < n);
        let a = CellId(base_id + d.from);
        let b = CellId(base_id + d.to);
        graph.connect_cells(a, d.direction, b);
        let ca = layout.cells[d.from as usize];
        let cb = layout.cells[d.to as usize];
        assert(layout.cells@[d.from as int].room < layout.room_count);
        assert(layout.cells@[d.to as int].room < layout.room_count);
        let ra = RoomId(room_base_id + ca.room);
        let rb = RoomId(room_base_id + cb.room);
        proof {
            let jf = d.from as int;
            let jt = d.to as int;
            assert(room_of(m2, layout_room(room_base, layout.cells@, jf as u32)).cells.contains(
                layout_id(base, jf as u32),
            ));
            assert(room_of(m2, layout_room(room_base, layout.cells@, jt as u32)).cells.contains(
                layout_id(base, jt as u32),
            ));
            assert(room_map@.rooms[ra.0 as int].cells == m2.rooms[ra.0 as int].cells);
            assert(room_map@.rooms[rb.0 as int].cells == m2.rooms[rb.0 as int].cells);
        }
        room_map.connect_rooms(ra, a, d.direction, rb, b);
        assert(layout.doors@.take(k + 1).drop_last() =~= layout.doors@.take(k as int));
        k = k + 1;
    }
    assert(layout.doors@.take(nd as int) =~= layout.doors@);
}

impl MazeLayout {
    /// Whether every cell belongs to one of the layout's rooms and every
    /// connection and door joins cells of the layout.
    pub fn is_well_formed(&self) -> (r: bool)
        ensures
            r == layout_wf(self),
    {
        let n = self.cells.len();
        let mut i: usize = 0;
        while i < n
            invariant
                n == self.cells@.len(),
                i <= n,
                forall|j: int| 0 <= j < i ==> #[trigger] self.cells@[j].room < self.room_count,
            decreases n - i,
        {
            if self.cells[i].room >= self.room_count {
                return false;
            }
            i = i + 1;
        }
        let nl = self.links.len();
        let mut i: usize = 0;
        while i < nl
            invariant
                nl == self.links@.len(),
                n == self.cells@.len(),
                i <= nl,
                forall|j: int|
                    0 <= j < i ==> #[trigger] self.links@[j].from < n && self.links@[j].to < n,
            decreases nl - i,
        {
            if self.links[i].from as usize >= n || self.links[i].to as usize >= n {
                return false;
            }
            i = i + 1;
        }
        let nd = self.doors.len();
        let mut i: usize = 0;
        while i < nd
            invariant
                nd == self.doors@.len(),
                n == self.cells@.len(),
                i <= nd,
                forall|j: int|
                    0 <= j < i ==> #[trigger] self.doors@[j].from < n && self.doors@[j].to < n,
            decreases nd - i,
        {
            if self.doors[i].from as usize >= n || self.doors[i].to as usize >= n {
                return false;
            }
            i = i + 1;
        }
        true
    }
}

/// A cell of a layout on the ground floor, at `(x, 0, z)`.
pub open spec fn layout_cell(x: int, z: int, room: u32) -> LayoutCell {
    LayoutCell { position: GridPos { x: x as i32, y: 0, z: z as i32 }, room }
}

/// A connection of a layout.
pub open spec fn layout_link(from: u32, direction: CardinalDirection, to: u32) -> LayoutLink {
    LayoutLink { from, direction, to }
}

fn at(x: i32, z: i32, room: u32) -> (c: LayoutCell)
    ensures
        c == layout_cell(x as int, z as int, room),
{
    LayoutCell { position: GridPos { x, y: 0, z }, room }
}

fn link(from: u32, direction: CardinalDirection, to: u32) -> (l: LayoutLink)
    ensures
        l == layout_link(from, direction, to),
{
    LayoutLink { from, direction, to }
}

/// The cells of the game's maze, by room.
pub open spec fn default_cells() -> Seq<LayoutCell> {
    seq![
        layout_cell(0, 0, 0), layout_cell(1, 0, 0), layout_cell(0, -1, 0), layout_cell(1, -1, 0),
        layout_cell(0, -2, 1), layout_cell(0, -3, 1), layout_cell(1, -3, 1),
        layout_cell(2, 0, 2), layout_cell(2, -1, 2),
        layout_cell(0, 1, 3), layout_cell(0, 2, 3), layout_cell(1, 2, 3), layout_cell(1, 1, 3), layout_cell(1, 0, 3),
        layout_cell(-1, 0, 4), layout_cell(-2, 0, 4),
        layout_cell(-2, -1, 5), layout_cell(-1, -1, 5), layout_cell(-1, 0, 5),
        layout_cell(-2, 0, 6), layout_cell(-2, -1, 6), layout_cell(-1, -1, 6), layout_cell(-1, 0, 6),
        layout_cell(-2, 0, 7), layout_cell(-2, -1, 7), layout_cell(-1, -1, 7), layout_cell(-1, 0, 7),
        layout_cell(-1, 1, 8), layout_cell(-2, 1, 8), layout_cell(-2, 2, 8), layout_cell(-1, 2, 8),
        layout_cell(-1, 1, 8), layout_cell(-2, 1, 8), layout_cell(-2, 2, 8), layout_cell(-1, 2, 8),
        layout_cell(-1, 1, 8), layout_cell(-2, 1, 8), layout_cell(-2, 2, 8), layout_cell(-1, 2, 8),
    ]
}

/// The connections inside the rooms of the game's maze.
pub open spec fn default_links() -> Seq<LayoutLink> {
    seq![
        layout_link(0, East, 1), layout_link(0, North, 2), layout_link(1, North, 3), layout_link(2, East, 3),
        layout_link(4, North, 5), layout_link(5, East, 6),
        layout_link(7, North, 8),
        layout_link(9, South, 10), layout_link(10, East, 11), layout_link(11, North, 12), layout_link(12, North, 13),
        layout_link(14, West, 15),
        layout_link(16, East, 17), layout_link(17, South, 18),
        layout_link(19, North, 20), layout_link(20, East, 21), layout_link(21, South, 22),
        layout_link(23, North, 24), layout_link(24, East, 25), layout_link(25, South, 26),
        layout_link(27, West, 28), layout_link(28, South, 29), layout_link(29, East, 30),
        layout_link(30, North, 31), layout_link(31, West, 32), layout_link(32, South, 33), layout_link(33, East, 34),
        layout_link(34, North, 35), layout_link(35, West, 36), layout_link(36, South, 37), layout_link(37, East, 38),
    ]
}

/// The doors between the rooms of the game's maze.
pub open spec fn default_doors() -> Seq<LayoutLink> {
    seq![
        layout_link(2, North, 4), layout_link(1, East, 7), layout_link(0, South, 9), layout_link(0, West, 14),
        layout_link(15, North, 16), layout_link(18, West, 19), layout_link(22, West, 23),
        layout_link(14, South, 27),
    ]
}

/// The maze of the game: nine rooms on one floor. Room 0, a 2x2 square where
/// the player starts at the origin; room 1, an L-shaped corridor to its
/// north; room 2, a corridor to its east; room 3, a U-shaped corridor to its
/// south whose last cell stands where a cell of room 0 stands; room 4, an
/// entry corridor to its west; rooms 5, 6 and 7, three loops that coil over
/// the same four positions, one room per loop; and room 8, three loops over
/// another four positions that form a single room.
pub fn default_layout() -> (l: MazeLayout)
    ensures
        l.room_count == 9,
        l.cells@ == default_cells(),
        l.links@ == default_links(),
        l.doors@ == default_doors(),
        layout_wf(&l),
{
    let cells = vec![
        // Room 0: 2x2 square.
        at(0, 0, 0), at(1, 0, 0), at(0, -1, 0), at(1, -1, 0),
        // Room 1: L-shaped corridor going north then east.
        at(0, -2, 1), at(0, -3, 1), at(1, -3, 1),
        // Room 2: corridor going north, east of room 0.
        at(2, 0, 2), at(2, -1, 2),
        // Room 3: U-shaped corridor south of room 0; its last cell overlaps
        // the cell of room 0 at (1, 0).
        at(0, 1, 3), at(0, 2, 3), at(1, 2, 3), at(1, 1, 3), at(1, 0, 3),
        // Room 4: entry corridor heading west.
        at(-1, 0, 4), at(-2, 0, 4),
        // Rooms 5, 6, 7: three loops over the same four positions.
        at(-2, -1, 5), at(-1, -1, 5), at(-1, 0, 5),
        at(-2, 0, 6), at(-2, -1, 6), at(-1, -1, 6), at(-1, 0, 6),
        at(-2, 0, 7), at(-2, -1, 7), at(-1, -1, 7), at(-1, 0, 7),
        // Room 8: three loops over four other positions, one room.
        at(-1, 1, 8), at(-2, 1, 8), at(-2, 2, 8), at(-1, 2, 8),
        at(-1, 1, 8), at(-2, 1, 8), at(-2, 2, 8), at(-1, 2, 8),
        at(-1, 1, 8), at(-2, 1, 8), at(-2, 2, 8), at(-1, 2, 8),
    ];
    let links = vec![
        link(0, East, 1), link(0, North, 2), link(1, North, 3), link(2, East, 3),
        link(4, North, 5), link(5, East, 6),
        link(7, North, 8),
        link(9, South, 10), link(10, East, 11), link(11, North, 12), link(12, North, 13),
        link(14, West, 15),
        link(16, East, 17), link(17, South, 18),
        link(19, North, 20), link(20, East, 21), link(21, South, 22),
        link(23, North, 24), link(24, East, 25), link(25, South, 26),
        link(27, West, 28), link(28, South, 29), link(29, East, 30),
        link(30, North, 31), link(31, West, 32), link(32, South, 33), link(33, East, 34),
        link(34, North, 35), link(35, West, 36), link(36, South, 37), link(37, East, 38),
    ];
    let doors = vec![
        // Room 0 to rooms 1, 2, 3 and 4.
        link(2, North, 4), link(1, East, 7), link(0, South, 9), link(0, West, 14),
        // Room 4 to room 5, 5 to 6, 6 to 7.
        link(15, North, 16), link(18, West, 19), link(22, West, 23),
        // Room 4 to room 8.
        link(14, South, 27),
    ];
    let l = MazeLayout { room_count: 9, cells, links, doors };
    assert(l.cells@ =~= default_cells());
    assert(l.links@ =~= default_links());
    assert(l.doors@ =~= default_doors());
    assert forall|i: int| 0 <= i < l.cells@.len() implies #[trigger] l.cells@[i].room < l.room_count by {
        assert(0 <= i < 39);
    }
    l
}

/// Whether a cell stands on the vertical line through the origin (`x == 0`
/// and `z == 0`); the player starts in the first such cell.
pub open spec fn is_start(c: CellView) -> bool {
    c.position.x == 0 && c.position.z == 0
}

/// Finds the cell the player starts in: the first cell of the graph on the
/// vertical line through the origin.
pub fn find_starting_cell(graph: &CellGraph) -> (r: Option<CellId>)
    ensures
        match r {
            Some(id) => exists|i: int|
                0 <= i < graph@.len() && #[trigger] graph@[i].id == id && is_start(graph@[i]) && forall|j: int|
                    0 <= j < i ==> !is_start(#[trigger] graph@[j]),
            None => forall|i: int| 0 <= i < graph@.len() ==> !is_start(#[trigger] graph@[i]),
        },
{
    let cells = graph.cells();
    let n = cells.len();
    let mut i: usize = 0;
    while i < n
        invariant
            n == cells@.len(),
            cells@.map_values(|c: crate::cell::Cell| c@) == graph@,
            i <= n,
            forall|j: int| 0 <= j < i ==> !is_start(#[trigger] graph@[j]),
        decreases n - i,
    {
        let p = cells[i].position();
        assert(graph@[i as int] == cells@[i as int]@);
        if p.x == 0 && p.z == 0 {
            return Some(cells[i].id());
        }
        i = i + 1;
    }
    None
}

/// The goal cell of the maze, once it has been placed.
#[derive(Debug, Clone, Copy, PartialEq, Eq, Structural)]
pub struct GoalCellId(pub Option<CellId>);

impl Default for GoalCellId {
    fn default() -> (g: GoalCellId)
        ensures
            g == GoalCellId(None),
    {
        GoalCellId(None)
    }
}

/// A place where the goal cell can be attached: a cell, its position, and
/// one of its horizontal boundary faces.
#[derive(Debug, Clone, Copy, PartialEq, Eq, Structural)]
pub struct GoalCandidate {
    pub cell: CellId,
    pub position: GridPos,
    pub direction: CardinalDirection,
}

/// The places where the goal can be attached to one cell: its horizontal
/// boundary faces, in the order of `CardinalDirection::all`.
pub open spec fn cell_candidates(c: CellView) -> Seq<GoalCandidate> {
    c.boundary_faces().filter(|d: CardinalDirection| d.is_horizontal()).map_values(
        |d: CardinalDirection| GoalCandidate { cell: c.id, position: c.position, direction: d },
    )
}

/// The places of the first `n` cells, cell after cell.
pub open spec fn candidates_upto(g: Seq<CellView>, n: nat) -> Seq<GoalCandidate>
    decreases n,
{
    if n == 0 || n > g.len() {
        Seq::empty()
    } else {
        candidates_upto(g, (n - 1) as nat) + cell_candidates(g[n - 1])
    }
}

/// Every place where the goal can be attached, cell after cell.
pub open spec fn spec_goal_candidates(g: Seq<CellView>) -> Seq<GoalCandidate> {
    candidates_upto(g, g.len())
}

/// Lists every horizontal boundary face of every cell, cell after cell.
pub fn goal_candidates(graph: &CellGraph) -> (r: Vec<GoalCandidate>)
    ensures
        r@ == spec_goal_candidates(graph@),
{
    let cells = graph.cells();
    let n = cells.len();
    let ghost g = graph@;
    let ghost horizontal = |d: CardinalDirection| d.is_horizontal();
    let mut r: Vec<GoalCandidate> = Vec::new();
    let mut i: usize = 0;
    while i < n
        invariant
            n == cells@.len(),
            g == graph@,
            cells@.map_values(|c: crate::cell::Cell| c@) == g,
            i <= n,
            horizontal == (|d: CardinalDirection| d.is_horizontal()),
            r@ == candidates_upto(g, i as nat),
        decreases n - i,
    {
        let cell = &cells[i];
        assert(g[i as int] == cell@);
        let faces = cell.boundary_faces();
        let id = cell.id();
        let position = cell.position();
        let ghost f = |d: CardinalDirection| GoalCandidate { cell: id, position, direction: d };
        let ghost r0 = r@;
        let m = faces.len();
        let mut j: usize = 0;
        while j < m
            invariant
                m == faces@.len(),
                j <= m,
                horizontal == (|d: CardinalDirection| d.is_horizontal()),
                f == (|d: CardinalDirection| GoalCandidate { cell: id, position, direction: d }),
                r@ == r0 + faces@.take(j as int).filter(horizontal).map_values(f),
            decreases m - j,
        {
            let d = faces[j];
            proof {
                assert(faces@.take(j + 1) =~= faces@.take(j as int).push(d));
                faces@.take(j as int).lemma_filter_push(d, horizontal);
            }
            if d != CardinalDirection::Zenith && d != CardinalDirection::Nadir {
                r.push(GoalCandidate { cell: id, position, direction: d });
                assert(r@ =~= r0 + faces@.take(j + 1).filter(horizontal).map_values(f));
            } else {
                assert(r@ =~= r0 + faces@.take(j + 1).filter(horizontal).map_values(f));
            }
            j = j + 1;
        }
        assert(faces@.take(m as int) =~= faces@);
        assert(cell_candidates(g[i as int]) =~= faces@.filter(horizontal).map_values(f));
        i = i + 1;
    }
    r
}

/// Calls `rand::seq::IndexedRandom::choose` on the candidates with the
/// thread-local generator `rand::rng()`. Its source returns `None` exactly
/// when the slice is empty, and otherwise one of its elements; which one is
/// left to chance.
#[verifier::external_body]
fn choose_candidate(candidates: &Vec<GoalCandidate>) -> (r: Option<GoalCandidate>)
    ensures
        r is None <==> candidates@.len() == 0,
        r matches Some(c) ==> candidates@.contains(c),
{
    candidates.as_slice().choose(&mut rand::rng()).copied()
}

/// The graph after attaching the goal at `c`: a new cell one step through
/// the candidate's face, connected back to the candidate's cell when that
/// cell is in the graph.
pub open spec fn graph_with_goal(g: Seq<CellView>, c: GoalCandidate) -> Seq<CellView> {
    let goal = CellId(g.len() as u32);
    let g1 = g.push(CellView { id: goal, position: c.position.spec_step(c.direction), links: Map::empty() });
    if has_cell(g1, c.cell) {
        connected(g1, c.cell, c.direction, goal)
    } else {
        g1
    }
}

/// The room map after attaching the goal: a new exit room in the given
/// colour holds the goal cell, and, when the candidate's cell belongs to a
/// room, that room and the exit room record the door between them.
pub open spec fn rooms_with_goal(m: RoomMapView, goal: CellId, c: GoalCandidate, color: bevy::color::Color) -> RoomMapView {
    let exit = RoomId(m.rooms.len() as u32);
    let m1 = RoomMapView {
        rooms: m.rooms.push(
            RoomView { id: exit, cells: Set::empty(), color, exits: Map::<ExitKey, ExitTarget>::empty() },
        ),
        cell_rooms: m.cell_rooms,
    };
    let m2 = RoomMapView { rooms: rooms_after_assign(m1, goal, exit), cell_rooms: m1.cell_rooms.insert(goal, exit) };
    match assigned_room(m2, c.cell) {
        Some(pr) => RoomMapView { rooms: rooms_after_connect(m2, pr, c.cell, c.direction, exit, goal), ..m2 },
        None => m2,
    }
}

/// Whether the room a cell is assigned to, if any, exists and holds it.
pub open spec fn room_holds(m: RoomMapView, c: CellId) -> bool {
    assigned_room(m, c) matches Some(r) ==> has_room(m, r) && room_of(m, r).cells.contains(c)
}

/// Attaches the goal cell at the given place and gives it an exit room of
/// its own, joined to the room of the candidate's cell.
pub fn attach_goal_cell(
    graph: &mut CellGraph,
    room_map: &mut RoomMap,
    candidate: GoalCandidate,
    exit_color: bevy::color::Color,
) -> (goal: CellId)
    requires
        old(graph)@.len() < u32::MAX,
        old(room_map)@.rooms.len() < u32::MAX,
        candidate.position.steppable(),
        room_holds(old(room_map)@, candidate.cell),
    ensures
        goal == CellId(old(graph)@.len() as u32),
        final(graph)@ == graph_with_goal(old(graph)@, candidate),
        final(room_map)@.rooms == rooms_with_goal(old(room_map)@, goal, candidate, exit_color).rooms,
        final(room_map)@.cell_rooms == rooms_with_goal(old(room_map)@, goal, candidate, exit_color).cell_rooms,
{
    let ghost m0 = room_map@;
    let new_pos = candidate.position.step(candidate.direction);
    let goal_id = graph.add_cell(new_pos);
    graph.connect_cells(candidate.cell, candidate.direction, goal_id);
    let exit_room_id = room_map.create_room(exit_color);
    let ghost m1 = room_map@;
    room_map.assign_cell(goal_id, exit_room_id);
    if let Some(parent_room_id) = room_map.get_cell_room(candidate.cell) {
        proof {
            if candidate.cell != goal_id {
                assert(assigned_room(m0, candidate.cell) == Some(parent_room_id));
                assert(room_of(m1, parent_room_id).cells.contains(candidate.cell));
            }
        }
        room_map.connect_rooms(parent_room_id, candidate.cell, candidate.direction, exit_room_id, goal_id);
    }
    goal_id
}

/// A place to attach the goal is ready when its cell can take a step in any
/// direction and the room its cell is assigned to, if any, holds it.
pub open spec fn candidate_ready(c: GoalCandidate, m: RoomMapView) -> bool {
    c.position.steppable() && room_holds(m, c.cell)
}

/// Every place where the goal can be attached is ready.
pub open spec fn goal_ready(g: Seq<CellView>, m: RoomMapView) -> bool {
    forall|c: GoalCandidate| #[trigger] spec_goal_candidates(g).contains(c) ==> candidate_ready(c, m)
}

/// Checks the conditions under which the goal can be placed.
pub fn check_goal_ready(graph: &CellGraph, room_map: &RoomMap) -> (r: bool)
    ensures
        r == goal_ready(graph@, room_map@),
{
    let candidates = goal_candidates(graph);
    let n = candidates.len();
    let mut i: usize = 0;
    while i < n
        invariant
            n == candidates@.len(),
            candidates@ == spec_goal_candidates(graph@),
            i <= n,
            forall|j: int| 0 <= j < i ==> candidate_ready(#[trigger] candidates@[j], room_map@),
        decreases n - i,
    {
        let c = candidates[i];
        let p = c.position;
        if !(i32::MIN < p.x && p.x < i32::MAX && i32::MIN < p.y && p.y < i32::MAX && i32::MIN < p.z && p.z
            < i32::MAX) {
            assert(spec_goal_candidates(graph@).contains(c));
            return false;
        }
        match room_map.get_cell_room(c.cell) {
            Some(r) => {
                match room_map.get_room(r) {
                    Some(room) => {
                        if !room.contains_cell(c.cell) {
                            assert(spec_goal_candidates(graph@).contains(c));
                            return false;
                        }
                    },
                    None => {
                        assert(spec_goal_candidates(graph@).contains(c));
                        return false;
                    },
                }
            },
            None => {},
        }
        i = i + 1;
    }
    assert forall|c: GoalCandidate| #[trigger] spec_goal_candidates(graph@).contains(c) implies candidate_ready(
        c,
        room_map@,
    ) by {
        let j = choose|j: int| 0 <= j < n && candidates@[j] == c;
        assert(candidate_ready(candidates@[j], room_map@));
    }
    true
}

/// A place to attach the goal is a horizontal boundary face of a cell of the
/// graph, at that cell's position.
pub proof fn lemma_candidates_are_open_faces(g: Seq<CellView>, n: nat, c: GoalCandidate)
    requires
        candidates_upto(g, n).contains(c),
    ensures
        exists|i: int|
            0 <= i < g.len() && #[trigger] g[i].id == c.cell && g[i].position == c.position && !g[i].has_neighbor(
                c.direction,
            ) && c.direction.is_horizontal(),
    decreases n,
{
    let prev = candidates_upto(g, (n - 1) as nat);
    let cur = cell_candidates(g[n - 1]);
    assert(candidates_upto(g, n) == prev + cur);
    if prev.contains(c) {
        lemma_candidates_are_open_faces(g, (n - 1) as nat, c);
    } else {
        let k = choose|k: int| 0 <= k < candidates_upto(g, n).len() && candidates_upto(g, n)[k] == c;
        assert(k >= prev.len());
        let cand = g[n - 1];
        let horizontal = |d: CardinalDirection| d.is_horizontal();
        let faces = cand.boundary_faces();
        let hf = faces.filter(horizontal);
        let kk = k - prev.len();
        assert(cur[kk] == c);
        assert(hf[kk] == c.direction);
        faces.lemma_filter_pred(horizontal, kk);
        faces.lemma_filter_contains_rev(horizontal, c.direction);
        crate::cell::lemma_boundary_faces_are_unconnected(cand, c.direction);
        assert(g[n - 1].id == c.cell);
    }
}

/// Places the goal cell: picks at random one of the horizontal boundary
/// faces of the maze and attaches the goal there, in a new exit room of the
/// given colour. Returns `None`, changing nothing, when the maze has no such
/// face.
pub fn setup_goal_cell(graph: &mut CellGraph, room_map: &mut RoomMap, exit_color: bevy::color::Color) -> (r: Option<
    CellId,
>)
    requires
        old(graph)@.len() < u32::MAX,
        old(room_map)@.rooms.len() < u32::MAX,
        goal_ready(old(graph)@, old(room_map)@),
    ensures
        r is None <==> spec_goal_candidates(old(graph)@).len() == 0,
        r is None ==> final(graph)@ == old(graph)@ && final(room_map)@ == old(room_map)@,
        r matches Some(goal) ==> {
            &&& goal == CellId(old(graph)@.len() as u32)
            &&& exists|c: GoalCandidate|
                #![trigger spec_goal_candidates(old(graph)@).contains(c)]
                spec_goal_candidates(old(graph)@).contains(c) && final(graph)@ == graph_with_goal(old(graph)@, c)
                    && final(room_map)@.rooms == rooms_with_goal(old(room_map)@, goal, c, exit_color).rooms
                    && final(room_map)@.cell_rooms == rooms_with_goal(old(room_map)@, goal, c, exit_color).cell_rooms
        },
{
    let candidates = goal_candidates(graph);
    let choice = match choose_candidate(&candidates) {
        Some(c) => c,
        None => return None,
    };
    proof {
        lemma_candidates_are_open_faces(graph@, graph@.len(), choice);
    }
    let goal = attach_goal_cell(graph, room_map, choice, exit_color);
    Some(goal)
}

/// The player has won once it stands in the goal cell; a won game stays won.
pub fn check_win_condition(won: bool, goal: GoalCellId, player_cell: Option<CellId>) -> (r: bool)
    ensures
        r == (won || (goal.0 is Some && player_cell == goal.0)),
{
    if won {
        return true;
    }
    match (goal.0, player_cell) {
        (Some(g), Some(p)) => g == p,
        _ => false,
    }
}

proof fn lemma_with_rooms_partitioned(m: RoomMapView, colors: Seq<bevy::color::Color>)
    requires
        partitioned(m),
        m.rooms.len() + colors.len() <= u32::MAX,
    ensures
        partitioned(RoomMapView { rooms: with_rooms(m.rooms, colors), cell_rooms: m.cell_rooms }),
        with_rooms(m.rooms, colors).len() == m.rooms.len() + colors.len(),
{
    let m1 = RoomMapView { rooms: with_rooms(m.rooms, colors), cell_rooms: m.cell_rooms };
    assert forall|i: int, c: CellId| 0 <= i < m1.rooms.len() implies (#[trigger] m1.rooms[i].cells.contains(c)
        <==> assigned_room(m1, c) == Some(RoomId(i as u32))) by {
        if i < m.rooms.len() {
            assert(m.rooms[i].cells.contains(c) <==> assigned_room(m, c) == Some(RoomId(i as u32)));
        } else if m.cell_rooms.contains_key(c) {
            assert(has_room(m, m.cell_rooms[c]));
        }
    }
    assert forall|i: int| 0 <= i < m1.rooms.len() implies #[trigger] m1.rooms[i].id == RoomId(i as u32) by {
        if i < m.rooms.len() {
            assert(m.rooms[i].id == RoomId(i as u32));
        }
    }
}

proof fn lemma_with_assignments_partitioned(m: RoomMapView, cell_base: nat, room_base: nat, cells: Seq<LayoutCell>, count: nat)
    requires
        partitioned(m),
        m.rooms.len() == room_base + count,
        m.rooms.len() <= u32::MAX,
        forall|i: int| 0 <= i < cells.len() ==> #[trigger] cells[i].room < count,
    ensures
        partitioned(with_assignments(m, cell_base, room_base, cells)),
        with_assignments(m, cell_base, room_base, cells).rooms.len() == m.rooms.len(),
    decreases cells.len(),
{
    if cells.len() > 0 {
        let rest = cells.drop_last();
        assert forall|i: int| 0 <= i < rest.len() implies #[trigger] rest[i].room < count by {
            assert(rest[i] == cells[i]);
        }
        lemma_with_assignments_partitioned(m, cell_base, room_base, rest, count);
        let h = with_assignments(m, cell_base, room_base, rest);
        let c = CellId((cell_base + cells.len() - 1) as u32);
        let r = RoomId((room_base + cells.last().room) as u32);
        assert(cells.last().room < count);
        crate::room::lemma_assign_moves_cell(h, c, r);
    }
}

proof fn lemma_with_doors_partitioned(
    m: RoomMapView,
    cell_base: nat,
    room_base: nat,
    cells: Seq<LayoutCell>,
    doors: Seq<LayoutLink>,
    count: nat,
)
    requires
        partitioned(m),
        m.rooms.len() == room_base + count,
        forall|i: int| 0 <= i < cells.len() ==> #[trigger] cells[i].room < count,
        forall|i: int| 0 <= i < doors.len() ==> #[trigger] doors[i].from < cells.len() && doors[i].to < cells.len(),
    ensures
        partitioned(RoomMapView { rooms: with_doors(m, cell_base, room_base, cells, doors), cell_rooms: m.cell_rooms }),
        with_doors(m, cell_base, room_base, cells, doors).len() == m.rooms.len(),
    decreases doors.len(),
{
    if doors.len() > 0 {
        let rest = doors.drop_last();
        assert forall|i: int| 0 <= i < rest.len() implies #[trigger] rest[i].from < cells.len() && rest[i].to
            < cells.len() by {
            assert(rest[i] == doors[i]);
        }
        lemma_with_doors_partitioned(m, cell_base, room_base, cells, rest, count);
        let k = doors.last();
        assert(k.from < cells.len() && k.to < cells.len());
        assert(cells[k.from as int].room < count);
        assert(cells[k.to as int].room < count);
        let h = RoomMapView { rooms: with_doors(m, cell_base, room_base, cells, rest), ..m };
        crate::room::lemma_connect_rooms_records_both_exits(
            h,
            layout_room(room_base, cells, k.from),
            layout_id(cell_base, k.from),
            k.direction,
            layout_room(room_base, cells, k.to),
            layout_id(cell_base, k.to),
        );
    }
}

/// Building a maze into a partitioned room map leaves it partitioned: every
/// room keeps its identifier, and every cell lies exactly in the room it is
/// assigned to.
pub proof fn lemma_build_keeps_rooms_partitioned(
    m0: RoomMapView,
    colors: Seq<bevy::color::Color>,
    base: nat,
    layout: &MazeLayout,
)
    requires
        partitioned(m0),
        layout_wf(layout),
        colors.len() == layout.room_count,
        m0.rooms.len() + layout.room_count < u32::MAX,
    ensures
        ({
            let room_base = m0.rooms.len();
            let m1 = RoomMapView { rooms: with_rooms(m0.rooms, colors), cell_rooms: m0.cell_rooms };
            let m2 = with_assignments(m1, base, room_base, layout.cells@);
            partitioned(
                RoomMapView {
                    rooms: with_doors(m2, base, room_base, layout.cells@, layout.doors@),
                    cell_rooms: m2.cell_rooms,
                },
            )
        }),
{
    let room_base = m0.rooms.len();
    let count = layout.room_count as nat;
    let m1 = RoomMapView { rooms: with_rooms(m0.rooms, colors), cell_rooms: m0.cell_rooms };
    lemma_with_rooms_partitioned(m0, colors);
    lemma_with_assignments_partitioned(m1, base, room_base, layout.cells@, count);
    let m2 = with_assignments(m1, base, room_base, layout.cells@);
    lemma_with_doors_partitioned(m2, base, room_base, layout.cells@, layout.doors@, count);
}

/// The faces a layout connection takes up: the face it leaves through and
/// the opposite face of the cell it enters.
pub open spec fn link_faces(k: LayoutLink) -> Set<(u32, CardinalDirection)> {
    set![(k.from, k.direction), (k.to, k.direction.opposite())]
}

/// The faces taken up by a sequence of connections.
pub open spec fn faces_of(links: Seq<LayoutLink>) -> Set<(u32, CardinalDirection)>
    decreases links.len(),
{
    if links.len() == 0 {
        Set::empty()
    } else {
        faces_of(links.drop_last()).union(link_faces(links.last()))
    }
}

/// No connection takes up a face that `used` or an earlier connection took.
pub open spec fn fresh_after(used: Set<(u32, CardinalDirection)>, links: Seq<LayoutLink>) -> bool {
    forall|k: int|
        0 <= k < links.len() ==> #[trigger] link_faces(links[k]).disjoint(used.union(faces_of(links.take(k))))
}

proof fn lemma_links_keep_symmetry(
    h: Seq<CellView>,
    base: nat,
    n: nat,
    links: Seq<LayoutLink>,
    used: Set<(u32, CardinalDirection)>,
)
    requires
        symmetric(h),
        h.len() == base + n,
        base + n <= u32::MAX,
        forall|i: int, d: CardinalDirection|
            0 <= i < n && !used.contains((i as u32, d)) ==> !#[trigger] h[base + i].has_neighbor(d),
        forall|k: int| 0 <= k < links.len() ==> #[trigger] links[k].from < n && links[k].to < n,
        fresh_after(used, links),
    ensures
        symmetric(with_links(h, base, links)),
        with_links(h, base, links).len() == h.len(),
        forall|i: int, d: CardinalDirection|
            0 <= i < n && !used.union(faces_of(links)).contains((i as u32, d)) ==> !#[trigger] with_links(h, base, links)[base + i].has_neighbor(d),
    decreases links.len(),
{
    if links.len() > 0 {
        let rest = links.drop_last();
        assert forall|k: int| 0 <= k < rest.len() implies #[trigger] rest[k].from < n && rest[k].to < n by {
            assert(rest[k] == links[k]);
        }
        assert forall|k: int|
            0 <= k < rest.len() implies #[trigger] link_faces(rest[k]).disjoint(used.union(faces_of(rest.take(k)))) by {
            assert(rest[k] == links[k]);
            assert(rest.take(k) =~= links.take(k));
            assert(link_faces(links[k]).disjoint(used.union(faces_of(links.take(k)))));
        }
        lemma_links_keep_symmetry(h, base, n, rest, used);
        let h1 = with_links(h, base, rest);
        let l = links.last();
        let kl = links.len() - 1;
        assert(links.take(kl) =~= rest);
        assert(link_faces(links[kl]).disjoint(used.union(faces_of(links.take(kl)))));
        let a = layout_id(base, l.from);
        let b = layout_id(base, l.to);
        assert(link_faces(l).contains((l.from, l.direction)));
        assert(link_faces(l).contains((l.to, l.direction.opposite())));
        assert(!used.union(faces_of(rest)).contains((l.from, l.direction)));
        assert(!used.union(faces_of(rest)).contains((l.to, l.direction.opposite())));
        let fi = l.from as int;
        let ti = l.to as int;
        assert(fi as u32 == l.from);
        assert(ti as u32 == l.to);
        assert(!h1[base + fi].has_neighbor(l.direction));
        assert(!h1[base + ti].has_neighbor(l.direction.opposite()));
        crate::graph::lemma_connect_keeps_symmetry(h1, a, l.direction, b);
        crate::graph::lemma_connect_links_both_ways(h1, a, l.direction, b);
        let h2 = with_links(h, base, links);
        assert forall|i: int, d: CardinalDirection|
            0 <= i < n && !used.union(faces_of(links)).contains((i as u32, d)) implies !#[trigger] h2[base + i].has_neighbor(d) by {
            assert(!used.union(faces_of(rest)).contains((i as u32, d)));
            assert(!h1[base + i].has_neighbor(d));
            assert((i as u32, d) != (l.from, l.direction));
            assert((i as u32, d) != (l.to, l.direction.opposite()));
            assert(h2[base + i].neighbor(d) == h1[base + i].neighbor(d));
        }
    }
}

proof fn lemma_links_mirrored_after_build(
    g: Seq<CellView>,
    cells: Seq<LayoutCell>,
    links: Seq<LayoutLink>,
    doors: Seq<LayoutLink>,
)
    requires
        symmetric(g),
        g.len() + cells.len() < u32::MAX,
        forall|k: int| 0 <= k < links.len() ==> #[trigger] links[k].from < cells.len() && links[k].to < cells.len(),
        forall|k: int| 0 <= k < doors.len() ==> #[trigger] doors[k].from < cells.len() && doors[k].to < cells.len(),
        fresh_after(Set::empty(), links),
        fresh_after(faces_of(links), doors),
    ensures
        symmetric(with_links(with_links(with_cells(g, cells), g.len(), links), g.len(), doors)),
{
    let base = g.len();
    let n = cells.len();
    let g0 = with_cells(g, cells);
    assert forall|i: int, d: CardinalDirection|
        0 <= i < g0.len() && #[trigger] g0[i].has_neighbor(d) implies {
            let m = g0[i].links[d];
            &&& has_cell(g0, m)
            &&& cell_of(g0, m).neighbor(d.opposite()) == Some(CellId(i as u32))
        } by {
        assert(i < base);
        assert(g[i].has_neighbor(d));
    }
    assert forall|i: int, d: CardinalDirection|
        0 <= i < n && !Set::<(u32, CardinalDirection)>::empty().contains((i as u32, d)) implies !#[trigger] g0[base + i].has_neighbor(d) by {
    }
    lemma_links_keep_symmetry(g0, base, n, links, Set::empty());
    let g1 = with_links(g0, base, links);
    assert(Set::<(u32, CardinalDirection)>::empty().union(faces_of(links)) =~= faces_of(links));
    lemma_links_keep_symmetry(g1, base, n, doors, faces_of(links));
}

/// When no connection or door of a layout takes up a face another one has
/// taken, building the maze into a graph whose links are all mirrored keeps
/// every link mirrored: each connection can be walked both ways.
pub proof fn lemma_build_keeps_links_mirrored(g: Seq<CellView>, layout: &MazeLayout)
    requires
        symmetric(g),
        layout_wf(layout),
        g.len() + layout.cells@.len() < u32::MAX,
        fresh_after(Set::empty(), layout.links@),
        fresh_after(faces_of(layout.links@), layout.doors@),
    ensures
        symmetric(
            with_links(
                with_links(with_cells(g, layout.cells@), g.len(), layout.links@),
                g.len(),
                layout.doors@,
            ),
        ),
{
    lemma_links_mirrored_after_build(g, layout.cells@, layout.links@, layout.doors@);
}

proof fn lemma_fresh_after_push(used: Set<(u32, CardinalDirection)>, links: Seq<LayoutLink>, l: LayoutLink)
    requires
        fresh_after(used, links),
        link_faces(l).disjoint(used.union(faces_of(links))),
    ensures
        fresh_after(used, links.push(l)),
        faces_of(links.push(l)) == faces_of(links).union(link_faces(l)),
{
    let p = links.push(l);
    assert(p.drop_last() =~= links);
    assert forall|k: int| 0 <= k < p.len() implies #[trigger] link_faces(p[k]).disjoint(
        used.union(faces_of(p.take(k))),
    ) by {
        if k < links.len() {
            assert(p[k] == links[k]);
            assert(p.take(k) =~= links.take(k));
            assert(link_faces(links[k]).disjoint(used.union(faces_of(links.take(k)))));
        } else {
            assert(p.take(k) =~= links);
        }
    }
}

/// No connection or door of the game's maze takes up a face that another
/// one, or an earlier connection, has taken.
proof fn lemma_default_faces_fresh()
    ensures
        fresh_after(Set::empty(), default_links()),
        fresh_after(faces_of(default_links()), default_doors()),
{
    let e = Set::<(u32, CardinalDirection)>::empty();
    let p0 = Seq::<LayoutLink>::empty();
    assert(faces_of(p0) == e);
    assert(fresh_after(e, p0));
    lemma_fresh_after_push(e, p0, layout_link(0, East, 1));
    let p1 = p0.push(layout_link(0, East, 1));
    lemma_fresh_after_push(e, p1, layout_link(0, North, 2));
    let p2 = p1.push(layout_link(0, North, 2));
    lemma_fresh_after_push(e, p2, layout_link(1, North, 3));
    let p3 = p2.push(layout_link(1, North, 3));
    lemma_fresh_after_push(e, p3, layout_link(2, East, 3));
    let p4 = p3.push(layout_link(2, East, 3));
    lemma_fresh_after_push(e, p4, layout_link(4, North, 5));
    let p5 = p4.push(layout_link(4, North, 5));
    lemma_fresh_after_push(e, p5, layout_link(5, East, 6));
    let p6 = p5.push(layout_link(5, East, 6));
    lemma_fresh_after_push(e, p6, layout_link(7, North, 8));
    let p7 = p6.push(layout_link(7, North, 8));
    lemma_fresh_after_push(e, p7, layout_link(9, South, 10));
    let p8 = p7.push(layout_link(9, South, 10));
    lemma_fresh_after_push(e, p8, layout_link(10, East, 11));
    let p9 = p8.push(layout_link(10, East, 11));
    lemma_fresh_after_push(e, p9, layout_link(11, North, 12));
    let p10 = p9.push(layout_link(11, North, 12));
    lemma_fresh_after_push(e, p10, layout_link(12, North, 13));
    let p11 = p10.push(layout_link(12, North, 13));
    lemma_fresh_after_push(e, p11, layout_link(14, West, 15));
    let p12 = p11.push(layout_link(14, West, 15));
    lemma_fresh_after_push(e, p12, layout_link(16, East, 17));
    let p13 = p12.push(layout_link(16, East, 17));
    lemma_fresh_after_push(e, p13, layout_link(17, South, 18));
    let p14 = p13.push(layout_link(17, South, 18));
    lemma_fresh_after_push(e, p14, layout_link(19, North, 20));
    let p15 = p14.push(layout_link(19, North, 20));
    lemma_fresh_after_push(e, p15, layout_link(20, East, 21));
    let p16 = p15.push(layout_link(20, East, 21));
    lemma_fresh_after_push(e, p16, layout_link(21, South, 22));
    let p17 = p16.push(layout_link(21, South, 22));
    lemma_fresh_after_push(e, p17, layout_link(23, North, 24));
    let p18 = p17.push(layout_link(23, North, 24));
    lemma_fresh_after_push(e, p18, layout_link(24, East, 25));
    let p19 = p18.push(layout_link(24, East, 25));
    lemma_fresh_after_push(e, p19, layout_link(25, South, 26));
    let p20 = p19.push(layout_link(25, South, 26));
    lemma_fresh_after_push(e, p20, layout_link(27, West, 28));
    let p21 = p20.push(layout_link(27, West, 28));
    lemma_fresh_after_push(e, p21, layout_link(28, South, 29));
    let p22 = p21.push(layout_link(28, South, 29));
    lemma_fresh_after_push(e, p22, layout_link(29, East, 30));
    let p23 = p22.push(layout_link(29, East, 30));
    lemma_fresh_after_push(e, p23, layout_link(30, North, 31));
    let p24 = p23.push(layout_link(30, North, 31));
    lemma_fresh_after_push(e, p24, layout_link(31, West, 32));
    let p25 = p24.push(layout_link(31, West, 32));
    lemma_fresh_after_push(e, p25, layout_link(32, South, 33));
    let p26 = p25.push(layout_link(32, South, 33));
    lemma_fresh_after_push(e, p26, layout_link(33, East, 34));
    let p27 = p26.push(layout_link(33, East, 34));
    lemma_fresh_after_push(e, p27, layout_link(34, North, 35));
    let p28 = p27.push(layout_link(34, North, 35));
    lemma_fresh_after_push(e, p28, layout_link(35, West, 36));
    let p29 = p28.push(layout_link(35, West, 36));
    lemma_fresh_after_push(e, p29, layout_link(36, South, 37));
    let p30 = p29.push(layout_link(36, South, 37));
    lemma_fresh_after_push(e, p30, layout_link(37, East, 38));
    let p31 = p30.push(layout_link(37, East, 38));
    assert(p31 =~= default_links());
    let u = faces_of(p31);
    let q0 = Seq::<LayoutLink>::empty();
    assert(fresh_after(u, q0));
    lemma_fresh_after_push(u, q0, layout_link(2, North, 4));
    let q1 = q0.push(layout_link(2, North, 4));
    lemma_fresh_after_push(u, q1, layout_link(1, East, 7));
    let q2 = q1.push(layout_link(1, East, 7));
    lemma_fresh_after_push(u, q2, layout_link(0, South, 9));
    let q3 = q2.push(layout_link(0, South, 9));
    lemma_fresh_after_push(u, q3, layout_link(0, West, 14));
    let q4 = q3.push(layout_link(0, West, 14));
    lemma_fresh_after_push(u, q4, layout_link(15, North, 16));
    let q5 = q4.push(layout_link(15, North, 16));
    lemma_fresh_after_push(u, q5, layout_link(18, West, 19));
    let q6 = q5.push(layout_link(18, West, 19));
    lemma_fresh_after_push(u, q6, layout_link(22, West, 23));
    let q7 = q6.push(layout_link(22, West, 23));
    lemma_fresh_after_push(u, q7, layout_link(14, South, 27));
    let q8 = q7.push(layout_link(14, South, 27));
    assert(q8 =~= default_doors());
}

/// The game's maze, built into a graph whose links are all mirrored, keeps
/// every link mirrored: each of its connections and doors can be walked both
/// ways.
pub proof fn lemma_default_maze_links_mirrored(g: Seq<CellView>)
    requires
        symmetric(g),
        g.len() + default_cells().len() < u32::MAX,
    ensures
        symmetric(
            with_links(
                with_links(with_cells(g, default_cells()), g.len(), default_links()),
                g.len(),
                default_doors(),
            ),
        ),
{
    let cells = default_cells();
    let links = default_links();
    let doors = default_doors();
    lemma_default_faces_fresh();
    assert forall|k: int| 0 <= k < links.len() implies #[trigger] links[k].from < cells.len() && links[k].to
        < cells.len() by {
        assert(0 <= k < 31);
    }
    assert forall|k: int| 0 <= k < doors.len() implies #[trigger] doors[k].from < cells.len() && doors[k].to
        < cells.len() by {
        assert(0 <= k < 8);
    }
    lemma_links_mirrored_after_build(g, cells, links, doors);
}

} // verus!
