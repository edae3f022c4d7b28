use std::collections::HashSet;

use maze::cell::CellId;
use maze::direction::{CardinalDirection, GridPos};
use maze::graph::CellGraph;
use maze::visibility::{compute_visible_cells, VisibleCells};

/// Helper: compute visibility and return the set of visible cells.
fn visible_from(graph: &CellGraph, origin: CellId, facing: CardinalDirection) -> HashSet<CellId> {
    let mut visible = VisibleCells::new();
    compute_visible_cells(origin, facing, graph, &mut visible, 10);
    visible.cells().into_iter().collect()
}

#[test]
fn isolated_cell_sees_only_self() {
    let mut graph = CellGraph::new();
    let c0 = graph.add_cell(GridPos::zero());
    let vis = visible_from(&graph, c0, CardinalDirection::North);
    assert_eq!(vis, HashSet::from([c0]));
}

#[test]
fn forward_ray_sees_straight_corridor() {
    let mut graph = CellGraph::new();
    let c0 = graph.add_cell(GridPos::new(0, 0, 0));
    let c1 = graph.add_cell(GridPos::new(0, 0, -3));
    let c2 = graph.add_cell(GridPos::new(0, 0, -6));
    graph.connect_cells(c0, CardinalDirection::North, c1);
    graph.connect_cells(c1, CardinalDirection::North, c2);

    let vis = visible_from(&graph, c0, CardinalDirection::North);
    assert!(vis.contains(&c0));
    assert!(vis.contains(&c1));
    assert!(vis.contains(&c2));
}

#[test]
fn backward_cells_not_visible() {
    let mut graph = CellGraph::new();
    let c_behind2 = graph.add_cell(GridPos::new(0, 0, 6));
    let c_behind = graph.add_cell(GridPos::new(0, 0, 3));
    let c0 = graph.add_cell(GridPos::new(0, 0, 0));
    let c1 = graph.add_cell(GridPos::new(0, 0, -3));
    graph.connect_cells(c_behind2, CardinalDirection::North, c_behind);
    graph.connect_cells(c_behind, CardinalDirection::North, c0);
    graph.connect_cells(c0, CardinalDirection::North, c1);

    let vis = visible_from(&graph, c0, CardinalDirection::North);
    assert!(vis.contains(&c0));
    assert!(vis.contains(&c1));
    assert!(!vis.contains(&c_behind), "directly behind should not be visible");
    assert!(!vis.contains(&c_behind2), "2 cells behind should not be visible");
}

#[test]
fn perpendicular_expansion_one_cell_then_forward() {
    let mut graph = CellGraph::new();
    let c0 = graph.add_cell(GridPos::new(0, 0, 0));
    let c1 = graph.add_cell(GridPos::new(3, 0, 0));
    let c2 = graph.add_cell(GridPos::new(6, 0, 0));
    let c_left = graph.add_cell(GridPos::new(3, 0, -3));
    let c_right = graph.add_cell(GridPos::new(3, 0, 3));
    let c_far_right = graph.add_cell(GridPos::new(3, 0, 6));

    graph.connect_cells(c0, CardinalDirection::East, c1);
    graph.connect_cells(c1, CardinalDirection::East, c2);
    graph.connect_cells(c1, CardinalDirection::North, c_left);
    graph.connect_cells(c1, CardinalDirection::South, c_right);
    graph.connect_cells(c_right, CardinalDirection::South, c_far_right);

    let vis = visible_from(&graph, c0, CardinalDirection::East);
    assert!(vis.contains(&c0));
    assert!(vis.contains(&c1));
    assert!(vis.contains(&c2));
    assert!(vis.contains(&c_left));
    assert!(vis.contains(&c_right));
    assert!(
        !vis.contains(&c_far_right),
        "deep sideways corridors are covered by the initial left/right rays, not the forward ray's expansion"
    );
}

#[test]
fn left_and_right_rays_visible() {
    let mut graph = CellGraph::new();
    let c0 = graph.add_cell(GridPos::new(0, 0, 0));
    let c_left = graph.add_cell(GridPos::new(-3, 0, 0));
    let c_right = graph.add_cell(GridPos::new(3, 0, 0));
    graph.connect_cells(c0, CardinalDirection::West, c_left);
    graph.connect_cells(c0, CardinalDirection::East, c_right);

    let vis = visible_from(&graph, c0, CardinalDirection::North);
    assert!(vis.contains(&c0));
    assert!(vis.contains(&c_left));
    assert!(vis.contains(&c_right));
}

#[test]
fn left_ray_expands_both_sides() {
    let mut graph = CellGraph::new();
    let c0 = graph.add_cell(GridPos::new(0, 0, 0));
    let c_left = graph.add_cell(GridPos::new(-3, 0, 0));
    let c_left_north = graph.add_cell(GridPos::new(-3, 0, -3));
    let c_left_south = graph.add_cell(GridPos::new(-3, 0, 3));

    graph.connect_cells(c0, CardinalDirection::West, c_left);
    graph.connect_cells(c_left, CardinalDirection::North, c_left_north);
    graph.connect_cells(c_left, CardinalDirection::South, c_left_south);

    let vis = visible_from(&graph, c0, CardinalDirection::North);
    assert!(vis.contains(&c_left_north), "left ray expansion north");
    assert!(vis.contains(&c_left_south), "left ray expansion south");
}

#[test]
fn side_corridor_one_cell_visible() {
    let mut graph = CellGraph::new();
    let c0 = graph.add_cell(GridPos::new(0, 0, 0));
    let c1 = graph.add_cell(GridPos::new(3, 0, 0));
    let c2 = graph.add_cell(GridPos::new(3, 0, -3));

    graph.connect_cells(c0, CardinalDirection::East, c1);
    graph.connect_cells(c1, CardinalDirection::North, c2);

    let vis = visible_from(&graph, c0, CardinalDirection::East);
    assert!(vis.contains(&c0));
    assert!(vis.contains(&c1));
    assert!(vis.contains(&c2), "one cell sideways from main ray");

    let c3 = graph.add_cell(GridPos::new(3, 0, -6));
    graph.connect_cells(c2, CardinalDirection::North, c3);

    let vis = visible_from(&graph, c0, CardinalDirection::East);
    assert!(
        !vis.contains(&c3),
        "deeper sideways cells are not reached by forward-going child rays"
    );
}

#[test]
fn child_ray_continues_forward_from_side_cell() {
    let mut graph = CellGraph::new();
    let c0 = graph.add_cell(GridPos::new(0, 0, 0));
    let c1 = graph.add_cell(GridPos::new(3, 0, 0));
    let c2 = graph.add_cell(GridPos::new(3, 0, -3));
    let c3 = graph.add_cell(GridPos::new(6, 0, -3));

    graph.connect_cells(c0, CardinalDirection::East, c1);
    graph.connect_cells(c1, CardinalDirection::North, c2);
    graph.connect_cells(c2, CardinalDirection::East, c3);

    let vis = visible_from(&graph, c0, CardinalDirection::East);
    assert!(vis.contains(&c2), "c2 is one cell sideways from main ray");
    assert!(vis.contains(&c3), "c3 is reached by a child ray from c2 going East");
}
