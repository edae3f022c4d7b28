use vstd::prelude::*;

verus! {

/// The kind of surface between two grid cells, or between a cell and the
/// outside.
#[derive(Debug, Clone, Copy, PartialEq, Eq, Structural)]
pub enum EdgeType {
    /// Solid wall: blocks movement and vision.
    Wall,
    /// No wall: an open passage between two cells.
    Open,
    /// Floor surface, below a cell.
    Floor,
    /// Ceiling surface, above a cell.
    Ceiling,
}

/// An edge of a cell: its kind, and whether it lets movement through.
#[derive(Debug, Clone, Copy, PartialEq, Eq, Structural)]
pub struct Edge {
    pub edge_type: EdgeType,
    /// Whether this edge allows movement through it.
    pub passable: bool,
}

impl Edge {
    /// Solid wall, impassable.
    pub fn wall() -> (e: Edge)
        ensures
            e == (Edge { edge_type: EdgeType::Wall, passable: false }),
    {
        Edge { edge_type: EdgeType::Wall, passable: false }
    }

    /// Open passage, passable.
    pub fn open() -> (e: Edge)
        ensures
            e == (Edge { edge_type: EdgeType::Open, passable: true }),
    {
        Edge { edge_type: EdgeType::Open, passable: true }
    }

    /// Floor surface, impassable (one stands on it).
    pub fn floor() -> (e: Edge)
        ensures
            e == (Edge { edge_type: EdgeType::Floor, passable: false }),
    {
        Edge { edge_type: EdgeType::Floor, passable: false }
    }

    /// Ceiling surface, impassable.
    pub fn ceiling() -> (e: Edge)
        ensures
            e == (Edge { edge_type: EdgeType::Ceiling, passable: false }),
    {
        Edge { edge_type: EdgeType::Ceiling, passable: false }
    }
}

/// Of the four kinds of edge, only an open passage lets movement through.
pub proof fn lemma_only_open_edges_pass(e: Edge)
    requires
        e == (Edge { edge_type: EdgeType::Wall, passable: false })
            || e == (Edge { edge_type: EdgeType::Open, passable: true })
            || e == (Edge { edge_type: EdgeType::Floor, passable: false })
            || e == (Edge { edge_type: EdgeType::Ceiling, passable: false }),
    ensures
        e.passable <==> e.edge_type == EdgeType::Open,
{
}

} // verus!
