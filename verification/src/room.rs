use vstd::prelude::*;

use std::collections::{HashMap, HashSet};

use crate::cell::CellId;
use crate::direction::CardinalDirection;

verus! {

broadcast use vstd::std_specs::hash::group_hash_axioms;

/// The colour of a room, carried through unchanged.
#[verifier::external_type_specification]
#[verifier::external_body]
pub struct ExColor(bevy::color::Color);

/// The identifier of a room of the maze.
#[derive(Debug, Clone, Copy, PartialEq, Eq, Hash, Structural)]
pub struct RoomId(pub u32);

/// Where an exit starts: a cell of the room and one of its faces.
pub type ExitKey = (CellId, CardinalDirection);

/// Where an exit leads: a room and a cell of it.
pub type ExitTarget = (RoomId, CellId);

/// Whether `s` lists each entry of `m` exactly once, and nothing else.
pub open spec fn lists_entries(s: Seq<(ExitKey, ExitTarget)>, m: Map<ExitKey, ExitTarget>) -> bool {
    &&& forall|i: int, j: int| 0 <= i < j < s.len() ==> s[i].0 != s[j].0
    &&& forall|i: int| 0 <= i < s.len() ==> m.contains_key(#[trigger] s[i].0) && m[s[i].0] == s[i].1
    &&& forall|k: ExitKey| #[trigger] m.contains_key(k) ==> exists|i: int| 0 <= i < s.len() && s[i].0 == k
}

/// The exits of a room, one target per exit key.
struct ExitTable {
    entries: Vec<(ExitKey, ExitTarget)>,
}

impl ExitTable {
    #[verifier::type_invariant]
    spec fn keys_distinct(&self) -> bool {
        forall|i: int, j: int| 0 <= i < j < self.entries@.len() ==> self.entries@[i].0 != self.entries@[j].0
    }

    spec fn view(&self) -> Map<ExitKey, ExitTarget> {
        Map::new(
            |k: ExitKey| exists|i: int| 0 <= i < self.entries@.len() && self.entries@[i].0 == k,
            |k: ExitKey| self.entries@[choose|i: int| 0 <= i < self.entries@.len() && self.entries@[i].0 == k].1,
        )
    }

    fn new() -> (t: ExitTable)
        ensures
            t.view() == Map::<ExitKey, ExitTarget>::empty(),
    {
        let t = ExitTable { entries: Vec::new() };
        assert(t.view() =~= Map::<ExitKey, ExitTarget>::empty());
        t
    }

    fn insert(&mut self, key: ExitKey, target: ExitTarget)
        ensures
            final(self).view() == old(self).view().insert(key, target),
    {
        proof {
            use_type_invariant(&*self);
        }
        let ghost m0 = self.view();
        let mut entries: Vec<(ExitKey, ExitTarget)> = Vec::new();
        std::mem::swap(&mut entries, &mut self.entries);
        let ghost e0 = entries@;
        let n = entries.len();
        let mut i: usize = 0;
        let mut found = false;
        while i < n
            invariant
                n == entries@.len(),
                e0.len() == n,
                i <= n,
                forall|a: int, b: int| 0 <= a < b < e0.len() ==> e0[a].0 != e0[b].0,
                !found ==> entries@ == e0,
                !found ==> forall|j: int| 0 <= j < i ==> e0[j].0 != key,
                found ==> exists|j: int| 0 <= j < n && e0[j].0 == key && entries@ == e0.update(j, (key, target)),
            decreases n - i,
        {
            if !found && entries[i].0.0 == key.0 && entries[i].0.1 == key.1 {
                entries.set(i, (key, target));
                found = true;
            }
            i = i + 1;
        }
        if !found {
            entries.push((key, target));
        }
        proof {
            let e1 = entries@;
            assert forall|a: int, b: int| 0 <= a < b < e1.len() implies e1[a].0 != e1[b].0 by {
                if found {
                    let j = choose|j: int| 0 <= j < n && e0[j].0 == key && entries@ == e0.update(j, (key, target));
                    assert(e1[a].0 == e0[a].0);
                    assert(e1[b].0 == e0[b].0);
                } else {
                    if b < n {
                        assert(e1[a] == e0[a]);
                        assert(e1[b] == e0[b]);
                    }
                }
            }
        }
        self.entries = entries;
        proof {
            let m1 = self.view();
            let e1 = self.entries@;
            assert forall|k: ExitKey| #[trigger] m1.contains_key(k) == m0.insert(key, target).contains_key(k) by {
                if found {
                    let j = choose|j: int| 0 <= j < n && e0[j].0 == key && entries@ == e0.update(j, (key, target));
                    if m0.contains_key(k) {
                        let a = choose|a: int| 0 <= a < e0.len() && e0[a].0 == k;
                        assert(e1[a].0 == k);
                    }
                    if m1.contains_key(k) {
                        let a = choose|a: int| 0 <= a < e1.len() && e1[a].0 == k;
                        if a != j {
                            assert(e0[a].0 == k);
                        }
                    }
                } else {
                    assert(e1[n as int].0 == key);
                    if m0.contains_key(k) {
                        let a = choose|a: int| 0 <= a < e0.len() && e0[a].0 == k;
                        assert(e1[a].0 == k);
                    }
                    if m1.contains_key(k) {
                        let a = choose|a: int| 0 <= a < e1.len() && e1[a].0 == k;
                        if a < n {
                            assert(e0[a].0 == k);
                        }
                    }
                }
            }
            assert forall|k: ExitKey| #[trigger] m1.contains_key(k) implies m1[k] == m0.insert(key, target)[k] by {
                let a = choose|a: int| 0 <= a < e1.len() && e1[a].0 == k;
                if k == key {
                } else {
                    assert(e0[a].0 == k);
                    assert(e1[a] == e0[a]);
                    let b = choose|b: int| 0 <= b < e0.len() && e0[b].0 == k;
                    assert(a == b);
                }
            }
            assert(m1 =~= m0.insert(key, target));
        }
    }

    fn entries(&self) -> (r: Vec<(ExitKey, ExitTarget)>)
        ensures
            lists_entries(r@, self.view()),
    {
        proof {
            use_type_invariant(self);
        }
        let n = self.entries.len();
        let mut r: Vec<(ExitKey, ExitTarget)> = Vec::new();
        let mut i: usize = 0;
        while i < n
            invariant
                n == self.entries@.len(),
                i <= n,
                r@ == self.entries@.take(i as int),
            decreases n - i,
        {
            r.push(self.entries[i]);
            i = i + 1;
            assert(r@ =~= self.entries@.take(i as int));
        }
        assert(r@ =~= self.entries@);
        let ghost m = self.view();
        assert forall|i: int| 0 <= i < r@.len() implies m.contains_key(#[trigger] r@[i].0) && m[r@[i].0] == r@[i].1 by {
            let j = choose|j: int| 0 <= j < r@.len() && r@[j].0 == r@[i].0;
            assert(i == j);
        }
        r
    }
}

/// What a room is: its identifier, its cells, its colour and its exits.
pub struct RoomView {
    pub id: RoomId,
    pub cells: Set<CellId>,
    pub color: bevy::color::Color,
    pub exits: Map<ExitKey, ExitTarget>,
}

/// A room of the maze: a set of cells drawn in one colour, with exits that
/// lead from some of its cells into other rooms.
pub struct Room {
    id: RoomId,
    cells: HashSet<u32>,
    color: bevy::color::Color,
    exits: ExitTable,
}

impl View for Room {
    type V = RoomView;

    closed spec fn view(&self) -> RoomView {
        RoomView {
            id: self.id,
            cells: Set::new(|c: CellId| self.cells@.contains(c.0)),
            color: self.color,
            exits: self.exits.view(),
        }
    }
}

impl Room {
    /// Creates an empty room with the given identifier and colour.
    pub fn new(id: RoomId, color: bevy::color::Color) -> (r: Room)
        ensures
            r@.id == id,
            r@.color == color,
            r@.cells == Set::<CellId>::empty(),
            r@.exits == Map::<ExitKey, ExitTarget>::empty(),
    {
        let r = Room { id, cells: HashSet::new(), color, exits: ExitTable::new() };
        assert(r@.cells =~= Set::<CellId>::empty());
        r
    }

    /// Returns the room's identifier.
    pub fn id(&self) -> (r: RoomId)
        ensures
            r == self@.id,
    {
        self.id
    }

    /// Returns the room's colour.
    pub fn color(&self) -> (r: bevy::color::Color)
        ensures
            r == self@.color,
    {
        self.color
    }

    /// Adds a cell to the room; adding a cell twice keeps one copy.
    pub fn add_cell(&mut self, cell_id: CellId)
        ensures
            final(self)@ == (RoomView { cells: old(self)@.cells.insert(cell_id), ..old(self)@ }),
    {
        self.cells.insert(cell_id.0);
        assert(self@.cells =~= old(self)@.cells.insert(cell_id));
    }

    /// Removes a cell from the room; removing an absent cell changes nothing.
    pub fn remove_cell(&mut self, cell_id: CellId)
        ensures
            final(self)@ == (RoomView { cells: old(self)@.cells.remove(cell_id), ..old(self)@ }),
    {
        self.cells.remove(&cell_id.0);
        assert(self@.cells =~= old(self)@.cells.remove(cell_id));
    }

    /// The cells of the room, each listed once.
    pub fn cells(&self) -> (r: Vec<CellId>)
        ensures
            r@.no_duplicates(),
            forall|c: CellId| r@.contains(c) <==> self@.cells.contains(c),
    {
        crate::cell::list_cell_ids(&self.cells)
    }

    /// Whether the room holds the given cell.
    pub fn contains_cell(&self, cell_id: CellId) -> (r: bool)
        ensures
            r == self@.cells.contains(cell_id),
    {
        self.cells.contains(&cell_id.0)
    }

    /// Records an exit from `cell_id` through face `direction` into
    /// `target_cell` of `target_room`, replacing any exit with the same start.
    pub fn add_exit(&mut self, cell_id: CellId, direction: CardinalDirection, target_room: RoomId, target_cell: CellId)
        ensures
            final(self)@ == (RoomView {
                exits: old(self)@.exits.insert((cell_id, direction), (target_room, target_cell)),
                ..old(self)@
            }),
    {
        self.exits.insert((cell_id, direction), (target_room, target_cell));
    }

    /// The exits of the room, each listed once.
    pub fn exits(&self) -> (r: Vec<(ExitKey, ExitTarget)>)
        ensures
            lists_entries(r@, self@.exits),
    {
        self.exits.entries()
    }
}

/// What a room map is: its rooms, numbered from 0 in order of creation, and
/// the room each assigned cell belongs to.
pub struct RoomMapView {
    pub rooms: Seq<RoomView>,
    pub cell_rooms: Map<CellId, RoomId>,
}

/// Whether `r` names a room of the map.
pub open spec fn has_room(m: RoomMapView, r: RoomId) -> bool {
    (r.0 as int) < m.rooms.len()
}

/// The room named `r`.
pub open spec fn room_of(m: RoomMapView, r: RoomId) -> RoomView {
    m.rooms[r.0 as int]
}

/// The room a cell is assigned to, if any.
pub open spec fn assigned_room(m: RoomMapView, c: CellId) -> Option<RoomId> {
    if m.cell_rooms.contains_key(c) {
        Some(m.cell_rooms[c])
    } else {
        None
    }
}

/// The rooms after assigning `c` to `r`: `c` leaves the room it was
/// assigned to before, if that was another room, and joins `r`.
pub open spec fn rooms_after_assign(m: RoomMapView, c: CellId, r: RoomId) -> Seq<RoomView> {
    let rooms1 = match assigned_room(m, c) {
        Some(o) => if o != r && has_room(m, o) {
            m.rooms.update(o.0 as int, RoomView { cells: room_of(m, o).cells.remove(c), ..room_of(m, o) })
        } else {
            m.rooms
        },
        None => m.rooms,
    };
    rooms1.update(r.0 as int, RoomView { cells: rooms1[r.0 as int].cells.insert(c), ..rooms1[r.0 as int] })
}

/// The rooms after recording the exit from `ca` in `ra` through `d` into
/// `cb` in `rb`, and the way back from `cb` through the opposite face.
pub open spec fn rooms_after_connect(
    m: RoomMapView,
    ra: RoomId,
    ca: CellId,
    d: CardinalDirection,
    rb: RoomId,
    cb: CellId,
) -> Seq<RoomView> {
    let rooms1 = m.rooms.update(
        ra.0 as int,
        RoomView { exits: room_of(m, ra).exits.insert((ca, d), (rb, cb)), ..room_of(m, ra) },
    );
    rooms1.update(
        rb.0 as int,
        RoomView { exits: rooms1[rb.0 as int].exits.insert((cb, d.opposite()), (ra, ca)), ..rooms1[rb.0 as int] },
    )
}

/// Every room carries the identifier under which it is stored, and a cell
/// lies in a room exactly when it is assigned to that room.
pub open spec fn partitioned(m: RoomMapView) -> bool {
    &&& forall|i: int| 0 <= i < m.rooms.len() ==> #[trigger] m.rooms[i].id == RoomId(i as u32)
    &&& forall|i: int, c: CellId|
        0 <= i < m.rooms.len() ==> (#[trigger] m.rooms[i].cells.contains(c) <==> assigned_room(m, c) == Some(
            RoomId(i as u32),
        ))
    &&& forall|c: CellId| #[trigger] m.cell_rooms.contains_key(c) ==> has_room(m, m.cell_rooms[c])
}

/// The rooms of the maze and the room of each cell.
pub struct RoomMap {
    rooms: Vec<Room>,
    cell_to_room: HashMap<u32, RoomId>,
}

impl View for RoomMap {
    type V = RoomMapView;

    closed spec fn view(&self) -> RoomMapView {
        RoomMapView {
            rooms: self.rooms@.map_values(|r: Room| r@),
            cell_rooms: Map::new(
                |c: CellId| self.cell_to_room@.contains_key(c.0),
                |c: CellId| self.cell_to_room@[c.0],
            ),
        }
    }
}

impl RoomMap {
    /// Creates a room map with no rooms.
    pub fn new() -> (m: RoomMap)
        ensures
            m@.rooms == Seq::<RoomView>::empty(),
            m@.cell_rooms == Map::<CellId, RoomId>::empty(),
    {
        let m = RoomMap { rooms: Vec::new(), cell_to_room: HashMap::new() };
        assert(m@.rooms =~= Seq::<RoomView>::empty());
        assert(m@.cell_rooms =~= Map::<CellId, RoomId>::empty());
        m
    }

    /// The number of rooms.
    pub fn len(&self) -> (n: usize)
        ensures
            n == self@.rooms.len(),
    {
        self.rooms.len()
    }

    /// Creates an empty room with the given colour and returns its
    /// identifier, the number of rooms before the call.
    pub fn create_room(&mut self, color: bevy::color::Color) -> (id: RoomId)
        requires
            old(self)@.rooms.len() < u32::MAX,
        ensures
            id == RoomId(old(self)@.rooms.len() as u32),
            final(self)@.rooms == old(self)@.rooms.push(
                RoomView {
                    id,
                    cells: Set::<CellId>::empty(),
                    color,
                    exits: Map::<ExitKey, ExitTarget>::empty(),
                },
            ),
            final(self)@.cell_rooms == old(self)@.cell_rooms,
    {
        let id = RoomId(self.rooms.len() as u32);
        let room = Room::new(id, color);
        self.rooms.push(room);
        assert(self@.rooms =~= old(self)@.rooms.push(
            RoomView {
                id,
                cells: Set::<CellId>::empty(),
                color,
                exits: Map::<ExitKey, ExitTarget>::empty(),
            },
        ));
        assert(self@.cell_rooms =~= old(self)@.cell_rooms);
        id
    }

    /// The room with the given identifier, if there is one.
    pub fn get_room(&self, room_id: RoomId) -> (r: Option<&Room>)
        ensures
            r is Some <==> has_room(self@, room_id),
            r matches Some(room) ==> room@ == room_of(self@, room_id),
    {
        if (room_id.0 as usize) < self.rooms.len() {
            Some(&self.rooms[room_id.0 as usize])
        } else {
            None
        }
    }

    /// Mutable access to the room with the given identifier, if there is one.
    pub fn get_room_mut(&mut self, room_id: RoomId) -> (r: Option<&mut Room>)
        ensures
            r is Some <==> has_room(old(self)@, room_id),
            r is None ==> final(self)@ == old(self)@,
            r is Some ==> (*r.unwrap())@ == room_of(old(self)@, room_id) && final(self)@.rooms == old(
                self,
            )@.rooms.update(room_id.0 as int, (*final(r.unwrap()))@),
            final(self)@.cell_rooms == old(self)@.cell_rooms,
    {
        if (room_id.0 as usize) < self.rooms.len() {
            let r = &mut self.rooms[room_id.0 as usize];
            Some(r)
        } else {
            None
        }
    }

    /// Assigns a cell to a room: the cell leaves the room it was assigned to
    /// before, if that was another room, joins `room_id`, and is recorded as
    /// belonging to it. The room must exist.
    pub fn assign_cell(&mut self, cell_id: CellId, room_id: RoomId)
        requires
            has_room(old(self)@, room_id),
        ensures
            final(self)@.rooms == rooms_after_assign(old(self)@, cell_id, room_id),
            final(self)@.cell_rooms == old(self)@.cell_rooms.insert(cell_id, room_id),
    {
        let ghost m0 = self@;
        let n = self.rooms.len();
        match self.cell_to_room.get(&cell_id.0) {
            Some(old_room_id) => {
                let o = *old_room_id;
                if o != room_id && (o.0 as usize) < n {
                    self.rooms[o.0 as usize].remove_cell(cell_id);
                }
            },
            None => {},
        }
        self.rooms[room_id.0 as usize].add_cell(cell_id);
        self.cell_to_room.insert(cell_id.0, room_id);
        assert(self@.rooms =~= rooms_after_assign(m0, cell_id, room_id));
        assert(self@.cell_rooms =~= m0.cell_rooms.insert(cell_id, room_id));
    }

    /// The room the cell is assigned to, if any.
    pub fn get_cell_room(&self, cell_id: CellId) -> (r: Option<RoomId>)
        ensures
            r == assigned_room(self@, cell_id),
    {
        match self.cell_to_room.get(&cell_id.0) {
            Some(r) => Some(*r),
            None => None,
        }
    }

    /// Records a connection between two rooms in both of them: an exit from
    /// `cell_a` of `room_a` through `direction` into `cell_b` of `room_b`, and
    /// one back through the opposite face. Both rooms must exist and hold
    /// their cells.
    pub fn connect_rooms(
        &mut self,
        room_a: RoomId,
        cell_a: CellId,
        direction: CardinalDirection,
        room_b: RoomId,
        cell_b: CellId,
    )
        requires
            has_room(old(self)@, room_a),
            has_room(old(self)@, room_b),
            room_of(old(self)@, room_a).cells.contains(cell_a),
            room_of(old(self)@, room_b).cells.contains(cell_b),
        ensures
            final(self)@.rooms == rooms_after_connect(old(self)@, room_a, cell_a, direction, room_b, cell_b),
            final(self)@.cell_rooms == old(self)@.cell_rooms,
    {
        let ghost m0 = self@;
        self.rooms[room_a.0 as usize].add_exit(cell_a, direction, room_b, cell_b);
        let opposite = direction.opposite();
        self.rooms[room_b.0 as usize].add_exit(cell_b, opposite, room_a, cell_a);
        assert(self@.rooms =~= rooms_after_connect(m0, room_a, cell_a, direction, room_b, cell_b));
    }

    /// All rooms, in the order of their identifiers.
    pub fn rooms(&self) -> (r: &[Room])
        ensures
            r@.map_values(|room: Room| room@) == self@.rooms,
    {
        self.rooms.as_slice()
    }
}

/// A room map with no rooms and no assignments is partitioned.
pub proof fn lemma_empty_is_partitioned()
    ensures
        partitioned(RoomMapView { rooms: Seq::empty(), cell_rooms: Map::empty() }),
{
}

/// Creating a room keeps the map partitioned.
pub proof fn lemma_create_room_keeps_partition(m: RoomMapView, color: bevy::color::Color)
    requires
        partitioned(m),
        m.rooms.len() < u32::MAX,
    ensures
        partitioned(
            RoomMapView {
                rooms: m.rooms.push(
                    RoomView {
                        id: RoomId(m.rooms.len() as u32),
                        cells: Set::empty(),
                        color,
                        exits: Map::empty(),
                    },
                ),
                cell_rooms: m.cell_rooms,
            },
        ),
{
    let m2 = RoomMapView {
        rooms: m.rooms.push(
            RoomView { id: RoomId(m.rooms.len() as u32), cells: Set::empty(), color, exits: Map::empty() },
        ),
        cell_rooms: m.cell_rooms,
    };
    assert forall|i: int, c: CellId| 0 <= i < m2.rooms.len() implies (#[trigger] m2.rooms[i].cells.contains(c)
        <==> assigned_room(m2, c) == Some(RoomId(i as u32))) by {
        if i == m.rooms.len() {
            if m.cell_rooms.contains_key(c) {
                assert(has_room(m, m.cell_rooms[c]));
            }
        } else {
            assert(m.rooms[i].cells.contains(c) <==> assigned_room(m, c) == Some(RoomId(i as u32)));
        }
    }
}

/// After a cell is assigned to a room it is recorded as belonging to that
/// room, lies in it, and, in a partitioned map, lies in no other room; the
/// map stays partitioned.
pub proof fn lemma_assign_moves_cell(m: RoomMapView, c: CellId, r: RoomId)
    requires
        has_room(m, r),
        m.rooms.len() <= u32::MAX,
    ensures
        ({
            let m2 = RoomMapView { rooms: rooms_after_assign(m, c, r), cell_rooms: m.cell_rooms.insert(c, r) };
            &&& assigned_room(m2, c) == Some(r)
            &&& room_of(m2, r).cells.contains(c)
            &&& m2.rooms.len() == m.rooms.len()
            &&& partitioned(m) ==> partitioned(m2)
            &&& partitioned(m) ==> forall|i: int|
                0 <= i < m2.rooms.len() && i != r.0 ==> !(#[trigger] m2.rooms[i].cells.contains(c))
        }),
{
    let m2 = RoomMapView { rooms: rooms_after_assign(m, c, r), cell_rooms: m.cell_rooms.insert(c, r) };
    if partitioned(m) {
        assert forall|i: int, x: CellId| 0 <= i < m2.rooms.len() implies (#[trigger] m2.rooms[i].cells.contains(x)
            <==> assigned_room(m2, x) == Some(RoomId(i as u32))) by {
            assert(m.rooms[i].cells.contains(x) <==> assigned_room(m, x) == Some(RoomId(i as u32)));
            if x == c {
                if let Some(o) = assigned_room(m, c) {
                    assert(has_room(m, o));
                }
            }
        }
        assert forall|i: int| 0 <= i < m2.rooms.len() implies #[trigger] m2.rooms[i].id == RoomId(i as u32) by {
            assert(m.rooms[i].id == RoomId(i as u32));
        }
        assert forall|i: int| 0 <= i < m2.rooms.len() && i != r.0 implies !(#[trigger] m2.rooms[i].cells.contains(
            c,
        )) by {
            assert(m2.rooms[i].cells.contains(c) <==> assigned_room(m2, c) == Some(RoomId(i as u32)));
        }
    }
}

/// Connecting two rooms records the exit in the first room and the way back
/// through the opposite face in the second; it changes no room's cells, so a
/// partitioned map stays partitioned.
pub proof fn lemma_connect_rooms_records_both_exits(
    m: RoomMapView,
    ra: RoomId,
    ca: CellId,
    d: CardinalDirection,
    rb: RoomId,
    cb: CellId,
)
    requires
        has_room(m, ra),
        has_room(m, rb),
    ensures
        ({
            let rooms = rooms_after_connect(m, ra, ca, d, rb, cb);
            &&& rooms[ra.0 as int].exits.contains_key((ca, d))
            &&& rooms[ra.0 as int].exits[(ca, d)] == (rb, cb)
            &&& rooms[rb.0 as int].exits.contains_key((cb, d.opposite()))
            &&& rooms[rb.0 as int].exits[(cb, d.opposite())] == (ra, ca)
            &&& partitioned(m) ==> partitioned(RoomMapView { rooms, cell_rooms: m.cell_rooms })
        }),
{
    crate::direction::lemma_opposite_involutive(d);
    let rooms = rooms_after_connect(m, ra, ca, d, rb, cb);
    let m2 = RoomMapView { rooms, cell_rooms: m.cell_rooms };
    if partitioned(m) {
        assert forall|i: int, x: CellId| 0 <= i < m2.rooms.len() implies (#[trigger] m2.rooms[i].cells.contains(x)
            <==> assigned_room(m2, x) == Some(RoomId(i as u32))) by {
            assert(m.rooms[i].cells.contains(x) <==> assigned_room(m, x) == Some(RoomId(i as u32)));
        }
        assert forall|i: int| 0 <= i < m2.rooms.len() implies #[trigger] m2.rooms[i].id == RoomId(i as u32) by {
            assert(m.rooms[i].id == RoomId(i as u32));
        }
    }
}

} // verus!
