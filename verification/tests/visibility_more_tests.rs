use std::collections::HashSet;

use bevy::color::Color;
use maze::cell::CellId;
use maze::direction::{CardinalDirection, GridPos};
use maze::graph::CellGraph;
use maze::movement::{CellTransform, TargetCell, TargetFacing};
use maze::room::RoomMap;
use maze::visibility::{cast_ray, compute_visible_cells, prune_overlapping_cells, update_visible_cells, ViewState, VisibleCells};

use CardinalDirection::{East, North, South};

fn set_of(v: &VisibleCells) -> HashSet<CellId> {
    v.cells().into_iter().collect()
}

#[test]
fn visible_cells_set_operations() {
    let mut v = VisibleCells::default();
    assert!(!v.contains(CellId(1)));
    v.insert(CellId(1));
    v.insert(CellId(2));
    v.insert(CellId(1));
    assert_eq!(v.cells().len(), 2);
    v.remove(CellId(1));
    assert!(!v.contains(CellId(1)));
    assert!(v.contains(CellId(2)));
    v.clear();
    assert!(v.cells().is_empty());
}

#[test]
fn render_depth_limits_the_ray() {
    let mut g = CellGraph::new();
    let mut ids = Vec::new();
    for z in 0..5 {
        ids.push(g.add_cell(GridPos::new(0, 0, -z)));
    }
    for i in 0..4 {
        g.connect_cells(ids[i], North, ids[i + 1]);
    }
    let mut v = VisibleCells::new();
    compute_visible_cells(ids[0], North, &g, &mut v, 2);
    assert_eq!(set_of(&v), HashSet::from([ids[0], ids[1], ids[2]]));
    let mut v = VisibleCells::new();
    compute_visible_cells(ids[0], North, &g, &mut v, 0);
    assert_eq!(set_of(&v), HashSet::from([ids[0]]));
}

#[test]
fn cast_ray_keeps_what_was_visible() {
    let mut g = CellGraph::new();
    let a = g.add_cell(GridPos::new(0, 0, 0));
    let b = g.add_cell(GridPos::new(1, 0, 0));
    g.connect_cells(a, East, b);
    let mut v = VisibleCells::new();
    v.insert(CellId(50));
    cast_ray(a, East, 3, &g, &mut v);
    assert_eq!(set_of(&v), HashSet::from([CellId(50), b]));
}

fn overlapping() -> (CellGraph, RoomMap, CellId, CellId, CellId) {
    // Two cells at the same position in different rooms, both seen from p.
    let mut g = CellGraph::new();
    let p = g.add_cell(GridPos::new(0, 0, 0));
    let mine = g.add_cell(GridPos::new(0, 0, -1));
    let other = g.add_cell(GridPos::new(0, 0, -1));
    g.connect_cells(p, North, mine);
    g.get_cell_mut(p).unwrap().connect(East, other);
    let mut rooms = RoomMap::new();
    let r0 = rooms.create_room(Color::srgb(1.0, 0.0, 0.0));
    let r1 = rooms.create_room(Color::srgb(0.0, 1.0, 0.0));
    rooms.assign_cell(p, r0);
    rooms.assign_cell(mine, r0);
    rooms.assign_cell(other, r1);
    (g, rooms, p, mine, other)
}

#[test]
fn pruning_keeps_the_players_room() {
    let (g, rooms, p, mine, other) = overlapping();
    let mut v = VisibleCells::new();
    v.insert(p);
    v.insert(mine);
    v.insert(other);
    v.insert(CellId(99));
    let r0 = rooms.get_cell_room(p).unwrap();
    prune_overlapping_cells(&mut v, r0, &g, &rooms);
    assert_eq!(set_of(&v), HashSet::from([p, mine, CellId(99)]));
}

#[test]
fn pruning_leaves_positions_without_the_players_room() {
    let (g, rooms, p, _mine, other) = overlapping();
    let mut v = VisibleCells::new();
    v.insert(p);
    v.insert(other);
    let r0 = rooms.get_cell_room(p).unwrap();
    prune_overlapping_cells(&mut v, r0, &g, &rooms);
    assert_eq!(set_of(&v), HashSet::from([p, other]));
}

#[test]
fn update_visible_cells_recomputes_only_on_change() {
    let (g, rooms, p, mine, other) = overlapping();
    let tf = CellTransform { cell: p, facing: North };
    let mut v = VisibleCells::new();
    let mut last: Option<ViewState> = None;
    update_visible_cells(&tf, &TargetCell(None), &TargetFacing(None), &g, &rooms, 10, &mut v, &mut last);
    // `other` shares `mine`'s position but is only linked through East, which
    // the right-hand ray sees; the player's room hides it.
    assert_eq!(set_of(&v), HashSet::from([p, mine]));
    assert!(!v.contains(other));
    assert_eq!(last, Some(ViewState { cell: p, facing: North, transitioning: false }));

    // Same state: nothing is recomputed.
    v.insert(CellId(77));
    update_visible_cells(&tf, &TargetCell(None), &TargetFacing(None), &g, &rooms, 10, &mut v, &mut last);
    assert!(v.contains(CellId(77)));

    // A turn under way keeps the cells already visible.
    update_visible_cells(&tf, &TargetCell(None), &TargetFacing(Some(South)), &g, &rooms, 10, &mut v, &mut last);
    assert!(v.contains(CellId(77)));
    assert_eq!(last, Some(ViewState { cell: p, facing: South, transitioning: true }));

    // Idle again: the set starts afresh.
    let tf = CellTransform { cell: p, facing: South };
    update_visible_cells(&tf, &TargetCell(None), &TargetFacing(None), &g, &rooms, 10, &mut v, &mut last);
    assert!(!v.contains(CellId(77)));
}
