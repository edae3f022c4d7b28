use std::collections::HashSet;

use bevy::color::Color;
use maze::cell::CellId;
use maze::direction::{CardinalDirection, GridPos};
use maze::graph::CellGraph;
use maze::maze::{
    attach_goal_cell, build_maze, check_goal_ready, check_win_condition, default_layout, find_starting_cell,
    goal_candidates, setup_goal_cell, GoalCandidate, GoalCellId, LayoutCell, LayoutLink, MazeLayout,
};
use maze::room::{RoomId, RoomMap};
use maze::wall::{doorway_faces, wall_material, WallMaterial};

use CardinalDirection::{East, North, South, West, Zenith};

fn colors(n: u32) -> Vec<Color> {
    (0..n).map(|i| Color::srgb(i as f32 / 10.0, 0.5, 0.5)).collect()
}

fn built() -> (CellGraph, RoomMap) {
    let layout = default_layout();
    assert!(layout.is_well_formed());
    let mut g = CellGraph::new();
    let mut rooms = RoomMap::new();
    build_maze(&mut g, &mut rooms, &layout, &colors(layout.room_count));
    (g, rooms)
}

/// Every link is mirrored by a link back through the opposite face.
fn links_are_mirrored(g: &CellGraph) -> bool {
    g.cells().iter().all(|c| {
        CardinalDirection::all().into_iter().all(|d| match c.get_neighbor(d) {
            Some(n) => g.get_cell(n).map(|nc| nc.get_neighbor(d.opposite()) == Some(c.id())).unwrap_or(false),
            None => true,
        })
    })
}

#[test]
fn default_maze_has_nine_rooms_and_thirty_nine_cells() {
    let (g, rooms) = built();
    assert_eq!(g.len(), 39);
    assert_eq!(rooms.len(), 9);
    assert!(links_are_mirrored(&g));
    for id in g.cell_ids() {
        let r = rooms.get_cell_room(id).unwrap();
        assert!(rooms.get_room(r).unwrap().contains_cell(id));
    }
    assert_eq!(rooms.get_room(RoomId(8)).unwrap().cells().len(), 12);
}

#[test]
fn default_maze_layout_of_room_zero() {
    let (g, rooms) = built();
    let c0 = g.get_cell(CellId(0)).unwrap();
    assert_eq!(c0.position(), GridPos::new(0, 0, 0));
    assert_eq!(c0.get_neighbor(East), Some(CellId(1)));
    assert_eq!(c0.get_neighbor(North), Some(CellId(2)));
    assert_eq!(c0.get_neighbor(South), Some(CellId(9)));
    assert_eq!(c0.get_neighbor(West), Some(CellId(14)));
    let exits = rooms.get_room(RoomId(0)).unwrap().exits();
    assert_eq!(exits.len(), 4);
    assert!(exits.contains(&((CellId(0), South), (RoomId(3), CellId(9)))));
    let exits3 = rooms.get_room(RoomId(3)).unwrap().exits();
    assert!(exits3.contains(&((CellId(9), North), (RoomId(0), CellId(0)))));
}

#[test]
fn build_maze_numbers_after_existing_cells() {
    let mut g = CellGraph::new();
    g.add_cell(GridPos::new(9, 9, 9));
    let mut rooms = RoomMap::new();
    rooms.create_room(Color::srgb(0.0, 0.0, 0.0));
    let layout = MazeLayout {
        room_count: 2,
        cells: vec![
            LayoutCell { position: GridPos::new(0, 0, 0), room: 0 },
            LayoutCell { position: GridPos::new(1, 0, 0), room: 1 },
        ],
        links: vec![],
        doors: vec![LayoutLink { from: 0, direction: East, to: 1 }],
    };
    assert!(layout.is_well_formed());
    build_maze(&mut g, &mut rooms, &layout, &colors(2));
    assert_eq!(g.get_cell(CellId(1)).unwrap().get_neighbor(East), Some(CellId(2)));
    assert_eq!(rooms.get_cell_room(CellId(1)), Some(RoomId(1)));
    assert_eq!(rooms.get_cell_room(CellId(2)), Some(RoomId(2)));
    assert_eq!(rooms.get_room(RoomId(2)).unwrap().exits(), vec![((CellId(2), West), (RoomId(1), CellId(1)))]);
}

#[test]
fn malformed_layouts_are_detected() {
    let bad_room = MazeLayout {
        room_count: 1,
        cells: vec![LayoutCell { position: GridPos::new(0, 0, 0), room: 1 }],
        links: vec![],
        doors: vec![],
    };
    assert!(!bad_room.is_well_formed());
    let bad_link = MazeLayout {
        room_count: 1,
        cells: vec![LayoutCell { position: GridPos::new(0, 0, 0), room: 0 }],
        links: vec![LayoutLink { from: 0, direction: North, to: 1 }],
        doors: vec![],
    };
    assert!(!bad_link.is_well_formed());
}

#[test]
fn starting_cell_is_the_first_on_the_origin_column() {
    let (g, _) = built();
    assert_eq!(find_starting_cell(&g), Some(CellId(0)));
    let mut g2 = CellGraph::new();
    g2.add_cell(GridPos::new(1, 0, 0));
    g2.add_cell(GridPos::new(0, 5, 0));
    g2.add_cell(GridPos::new(0, 0, 0));
    assert_eq!(find_starting_cell(&g2), Some(CellId(1)));
    assert_eq!(find_starting_cell(&CellGraph::new()), None);
}

#[test]
fn goal_candidates_are_horizontal_boundary_faces() {
    let mut g = CellGraph::new();
    let a = g.add_cell(GridPos::new(0, 0, 0));
    let b = g.add_cell(GridPos::new(1, 0, 0));
    g.connect_cells(a, East, b);
    let c = goal_candidates(&g);
    let p0 = GridPos::new(0, 0, 0);
    let p1 = GridPos::new(1, 0, 0);
    assert_eq!(
        c,
        vec![
            GoalCandidate { cell: a, position: p0, direction: North },
            GoalCandidate { cell: a, position: p0, direction: South },
            GoalCandidate { cell: a, position: p0, direction: West },
            GoalCandidate { cell: b, position: p1, direction: North },
            GoalCandidate { cell: b, position: p1, direction: South },
            GoalCandidate { cell: b, position: p1, direction: East },
        ]
    );
}

#[test]
fn attach_goal_cell_opens_an_exit_room() {
    let (mut g, mut rooms) = built();
    let cand = GoalCandidate { cell: CellId(8), position: GridPos::new(2, 0, -1), direction: East };
    let goal = attach_goal_cell(&mut g, &mut rooms, cand, Color::WHITE);
    assert_eq!(goal, CellId(39));
    assert_eq!(g.get_cell(goal).unwrap().position(), GridPos::new(3, 0, -1));
    assert_eq!(g.get_cell(goal).unwrap().get_neighbor(West), Some(CellId(8)));
    assert_eq!(g.get_cell(CellId(8)).unwrap().get_neighbor(East), Some(goal));
    assert_eq!(rooms.get_cell_room(goal), Some(RoomId(9)));
    assert_eq!(rooms.get_room(RoomId(9)).unwrap().color(), Color::WHITE);
    assert!(rooms.get_room(RoomId(2)).unwrap().exits().contains(&((CellId(8), East), (RoomId(9), goal))));
    assert!(rooms.get_room(RoomId(9)).unwrap().exits().contains(&((goal, West), (RoomId(2), CellId(8)))));
}

#[test]
fn setup_goal_cell_attaches_to_a_boundary_face() {
    let (mut g, mut rooms) = built();
    let before: HashSet<(CellId, CardinalDirection)> =
        goal_candidates(&g).into_iter().map(|c| (c.cell, c.direction)).collect();
    assert!(check_goal_ready(&g, &rooms));
    let goal = setup_goal_cell(&mut g, &mut rooms, Color::WHITE).unwrap();
    assert_eq!(goal, CellId(39));
    let goal_cell = g.get_cell(goal).unwrap();
    let links: Vec<(CardinalDirection, CellId)> = CardinalDirection::all()
        .into_iter()
        .filter_map(|d| goal_cell.get_neighbor(d).map(|n| (d, n)))
        .collect();
    assert_eq!(links.len(), 1);
    let (back, parent) = links[0];
    assert!(before.contains(&(parent, back.opposite())));
    assert_ne!(back, Zenith);
    assert_eq!(rooms.get_cell_room(goal), Some(RoomId(9)));
    assert!(links_are_mirrored(&g));
}

#[test]
fn setup_goal_cell_without_boundary_faces() {
    let mut g = CellGraph::new();
    let mut rooms = RoomMap::new();
    assert_eq!(setup_goal_cell(&mut g, &mut rooms, Color::WHITE), None);
    let a = g.add_cell(GridPos::new(0, 0, 0));
    for d in [North, South, East, West] {
        g.connect_cells(a, d, a);
    }
    assert_eq!(setup_goal_cell(&mut g, &mut rooms, Color::WHITE), None);
    assert_eq!(g.len(), 1);
    assert_eq!(rooms.len(), 0);
}

#[test]
fn goal_needs_rooms_that_hold_their_cells() {
    let mut g = CellGraph::new();
    let a = g.add_cell(GridPos::new(0, 0, 0));
    let mut rooms = RoomMap::new();
    let r = rooms.create_room(Color::WHITE);
    rooms.assign_cell(a, r);
    assert!(check_goal_ready(&g, &rooms));
    rooms.get_room_mut(r).unwrap().remove_cell(a);
    assert!(!check_goal_ready(&g, &rooms));
    let mut g2 = CellGraph::new();
    g2.add_cell(GridPos::new(i32::MAX, 0, 0));
    assert!(!check_goal_ready(&g2, &RoomMap::new()));
}

#[test]
fn winning_is_standing_in_the_goal() {
    let goal = GoalCellId(Some(CellId(4)));
    assert!(!check_win_condition(false, goal, Some(CellId(3))));
    assert!(check_win_condition(false, goal, Some(CellId(4))));
    assert!(check_win_condition(true, goal, Some(CellId(3))));
    assert!(!check_win_condition(false, GoalCellId::default(), Some(CellId(4))));
    assert!(!check_win_condition(false, goal, None));
}

#[test]
fn wall_materials() {
    let (g, rooms) = built();
    assert_eq!(wall_material(CellId(0), Some(CellId(0)), &rooms), WallMaterial::Goal);
    assert_eq!(wall_material(CellId(5), Some(CellId(0)), &rooms), WallMaterial::Room(RoomId(1)));
    assert_eq!(wall_material(CellId(500), None, &rooms), WallMaterial::Default);
    let _ = g;
}

#[test]
fn doorways_between_rooms() {
    let (g, rooms) = built();
    // Cell 0 of room 0 leads south to cell 9 of room 3 and west to cell 14 of
    // room 4; east and north stay inside room 0.
    assert_eq!(doorway_faces(g.get_cell(CellId(0)).unwrap(), &rooms), vec![(South, RoomId(0)), (West, RoomId(0))]);
    // Cell 9 links back to cell 0, which has the smaller identifier: no frame.
    assert_eq!(doorway_faces(g.get_cell(CellId(9)).unwrap(), &rooms), vec![]);
    // Inside room 8 there is no doorway.
    assert_eq!(doorway_faces(g.get_cell(CellId(30)).unwrap(), &rooms), vec![]);
}

#[test]
fn goal_readiness_looks_only_at_candidate_faces() {
    // A cell at the edge of the grid whose every horizontal face is linked is
    // no place for the goal, so its position does not matter.
    let mut g = CellGraph::new();
    let a = g.add_cell(GridPos::new(0, 0, 0));
    let b = g.add_cell(GridPos::new(i32::MAX, 0, 0));
    for d in [North, South, East, West] {
        g.connect_cells(b, d, a);
    }
    let rooms = RoomMap::new();
    assert!(check_goal_ready(&g, &rooms));
}
