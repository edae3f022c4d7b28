use vstd::prelude::*;

use crate::cell::{Cell, CellId, CellView};
use crate::direction::CardinalDirection;
use crate::room::{assigned_room, RoomId, RoomMap, RoomMapView};

verus! {

/// A wall drawn on a boundary face of a cell.
#[derive(Debug, Clone, Copy, PartialEq, Eq, Structural)]
pub struct CellWall {
    pub cell_id: CellId,
    pub direction: CardinalDirection,
}

/// A doorway frame drawn on a face of a cell that leads into another room.
#[derive(Debug, Clone, Copy, PartialEq, Eq, Structural)]
pub struct CellDoorway {
    pub cell_id: CellId,
    pub direction: CardinalDirection,
}

/// Which material the walls of a cell are drawn with.
#[derive(Debug, Clone, Copy, PartialEq, Eq, Structural)]
pub enum WallMaterial {
    /// The goal cell's own material.
    Goal,
    /// The material of the given room.
    Room(RoomId),
    /// The material of cells that belong to no known room.
    Default,
}

/// Whether some room of the map carries the identifier `r`.
pub open spec fn room_listed(m: RoomMapView, r: RoomId) -> bool {
    exists|i: int| 0 <= i < m.rooms.len() && #[trigger] m.rooms[i].id == r
}

/// The goal cell is drawn in the goal material; another cell in the
/// material of its room when that room is listed in the map; any other cell
/// in the default material.
pub open spec fn spec_wall_material(cell_id: CellId, goal: Option<CellId>, m: RoomMapView) -> WallMaterial {
    if goal == Some(cell_id) {
        WallMaterial::Goal
    } else {
        match assigned_room(m, cell_id) {
            Some(r) => if room_listed(m, r) {
                WallMaterial::Room(r)
            } else {
                WallMaterial::Default
            },
            None => WallMaterial::Default,
        }
    }
}

fn listed(room_map: &RoomMap, r: RoomId) -> (b: bool)
    ensures
        b == room_listed(room_map@, r),
{
    let rooms = room_map.rooms();
    let n = rooms.len();
    let mut i: usize = 0;
    while i < n
        invariant
            n == rooms@.len(),
            rooms@.map_values(|room: crate::room::Room| room@) == room_map@.rooms,
            i <= n,
            forall|j: int| 0 <= j < i ==> room_map@.rooms[j].id != r,
        decreases n - i,
    {
        if rooms[i].id() == r {
            assert(room_map@.rooms[i as int].id == r);
            return true;
        }
        i = i + 1;
    }
    false
}

/// Chooses the material the walls of a cell are drawn with.
pub fn wall_material(cell_id: CellId, goal: Option<CellId>, room_map: &RoomMap) -> (w: WallMaterial)
    ensures
        w == spec_wall_material(cell_id, goal, room_map@),
{
    if let Some(g) = goal {
        if g == cell_id {
            return WallMaterial::Goal;
        }
    }
    match room_map.get_cell_room(cell_id) {
        Some(r) => if listed(room_map, r) {
            WallMaterial::Room(r)
        } else {
            WallMaterial::Default
        },
        None => WallMaterial::Default,
    }
}

/// A face of `c` gets a doorway when it leads to a neighbour with a larger
/// identifier (so each connection gets one frame) and the two cells belong
/// to different rooms.
pub open spec fn doorway_at(c: CellView, m: RoomMapView, d: CardinalDirection) -> bool {
    &&& c.has_neighbor(d)
    &&& c.id.0 < c.links[d].0
    &&& assigned_room(m, c.id) is Some
    &&& assigned_room(m, c.links[d]) is Some
    &&& assigned_room(m, c.id) != assigned_room(m, c.links[d])
}

/// The faces of `c` that get a doorway, in the order of
/// `CardinalDirection::all`, each with the room of `c`, whose material the
/// frame is drawn with.
pub open spec fn spec_doorways(c: CellView, m: RoomMapView) -> Seq<(CardinalDirection, RoomId)> {
    CardinalDirection::spec_all().filter(|d: CardinalDirection| doorway_at(c, m, d)).map_values(
        |d: CardinalDirection| (d, assigned_room(m, c.id)->0),
    )
}

/// Lists the faces of a cell where a doorway frame between two rooms is
/// drawn, with the room whose material the frame takes.
pub fn doorway_faces(cell: &Cell, room_map: &RoomMap) -> (r: Vec<(CardinalDirection, RoomId)>)
    ensures
        r@ == spec_doorways(cell@, room_map@),
{
    let all = CardinalDirection::all();
    let cell_id = cell.id();
    let cell_room = room_map.get_cell_room(cell_id);
    let ghost pred = |d: CardinalDirection| doorway_at(cell@, room_map@, d);
    let ghost f = |d: CardinalDirection| (d, assigned_room(room_map@, cell@.id)->0);
    let mut r: Vec<(CardinalDirection, RoomId)> = Vec::new();
    let mut i: usize = 0;
    while i < 6
        invariant
            0 <= i <= 6,
            all@ == CardinalDirection::spec_all(),
            cell_id == cell@.id,
            cell_room == assigned_room(room_map@, cell_id),
            pred == (|d: CardinalDirection| doorway_at(cell@, room_map@, d)),
            f == (|d: CardinalDirection| (d, assigned_room(room_map@, cell@.id)->0)),
            r@ == all@.take(i as int).filter(pred).map_values(f),
        decreases 6 - i,
    {
        let direction = all[i];
        proof {
            assert(all@.take(i + 1) =~= all@.take(i as int).push(direction));
            all@.take(i as int).lemma_filter_push(direction, pred);
        }
        let mut door = false;
        if let Some(neighbor_id) = cell.get_neighbor(direction) {
            if cell_id.0 < neighbor_id.0 {
                let neighbor_room = room_map.get_cell_room(neighbor_id);
                if let (Some(room_a), Some(room_b)) = (cell_room, neighbor_room) {
                    if room_a != room_b {
                        door = true;
                        r.push((direction, room_a));
                        assert(r@ =~= all@.take(i as int).filter(pred).push(direction).map_values(f));
                    }
                }
            }
        }
        assert(door == pred(direction));
        i = i + 1;
    }
    assert(all@.take(6) =~= all@);
    r
}

} // verus!
