use maze::cell::CellId;
use maze::direction::{CardinalDirection, GridPos};
use maze::graph::CellGraph;

#[test]
fn add_cell_gives_sequential_ids() {
    let mut g = CellGraph::new();
    assert_eq!(g.len(), 0);
    let a = g.add_cell(GridPos::new(0, 0, 0));
    let b = g.add_cell(GridPos::new(1, 0, 0));
    assert_eq!(a, CellId(0));
    assert_eq!(b, CellId(1));
    assert_eq!(g.len(), 2);
    assert_eq!(g.get_cell(b).unwrap().position(), GridPos::new(1, 0, 0));
    assert_eq!(g.get_cell(b).unwrap().id(), b);
    assert!(g.get_cell(CellId(2)).is_none());
    assert_eq!(g.cell_ids(), vec![CellId(0), CellId(1)]);
    assert_eq!(g.cells().len(), 2);
}

#[test]
fn connect_cells_links_both_ways() {
    let mut g = CellGraph::new();
    let a = g.add_cell(GridPos::new(0, 0, 0));
    let b = g.add_cell(GridPos::new(1, 0, 0));
    assert!(g.connect_cells(a, CardinalDirection::East, b));
    assert_eq!(g.get_cell(a).unwrap().get_neighbor(CardinalDirection::East), Some(b));
    assert_eq!(g.get_cell(b).unwrap().get_neighbor(CardinalDirection::West), Some(a));
    assert_eq!(g.get_cell(a).unwrap().get_neighbor(CardinalDirection::West), None);
}

#[test]
fn connect_cells_refuses_missing_cells() {
    let mut g = CellGraph::new();
    let a = g.add_cell(GridPos::new(0, 0, 0));
    assert!(!g.connect_cells(a, CardinalDirection::North, CellId(5)));
    assert!(!g.connect_cells(CellId(5), CardinalDirection::North, a));
    assert!(!g.get_cell(a).unwrap().has_neighbor(CardinalDirection::North));
    assert!(!g.get_cell(a).unwrap().has_neighbor(CardinalDirection::South));
}

#[test]
fn disconnect_cells_removes_both_links() {
    let mut g = CellGraph::new();
    let a = g.add_cell(GridPos::new(0, 0, 0));
    let b = g.add_cell(GridPos::new(0, 0, -1));
    g.connect_cells(a, CardinalDirection::North, b);
    assert!(g.disconnect_cells(a, CardinalDirection::North));
    assert!(!g.get_cell(a).unwrap().has_neighbor(CardinalDirection::North));
    assert!(!g.get_cell(b).unwrap().has_neighbor(CardinalDirection::South));
    assert!(!g.disconnect_cells(a, CardinalDirection::North));
    assert!(!g.disconnect_cells(CellId(9), CardinalDirection::North));
}

#[test]
fn disconnect_follows_the_link_not_the_reverse_face() {
    // a -> b through East, then b's West face is re-pointed at c.
    let mut g = CellGraph::new();
    let a = g.add_cell(GridPos::new(0, 0, 0));
    let b = g.add_cell(GridPos::new(1, 0, 0));
    let c = g.add_cell(GridPos::new(2, 0, 0));
    g.connect_cells(a, CardinalDirection::East, b);
    g.get_cell_mut(b).unwrap().connect(CardinalDirection::West, c);
    assert!(g.disconnect_cells(a, CardinalDirection::East));
    assert!(!g.get_cell(b).unwrap().has_neighbor(CardinalDirection::West));
}

#[test]
fn connect_cell_to_itself() {
    let mut g = CellGraph::new();
    let a = g.add_cell(GridPos::new(0, 0, 0));
    assert!(g.connect_cells(a, CardinalDirection::Zenith, a));
    assert_eq!(g.get_cell(a).unwrap().get_neighbor(CardinalDirection::Zenith), Some(a));
    assert_eq!(g.get_cell(a).unwrap().get_neighbor(CardinalDirection::Nadir), Some(a));
}

#[test]
fn get_cell_mut_changes_the_stored_cell() {
    let mut g = CellGraph::new();
    let a = g.add_cell(GridPos::new(0, 0, 0));
    g.get_cell_mut(a).unwrap().connect(CardinalDirection::South, CellId(77));
    assert_eq!(g.get_cell(a).unwrap().get_neighbor(CardinalDirection::South), Some(CellId(77)));
    assert!(g.get_cell_mut(CellId(1)).is_none());
}
