use vstd::prelude::*;

use std::collections::HashSet;

use crate::cell::{CellId, CellView};
use crate::direction::{CardinalDirection, GridPos};
use crate::movement::{CellTransform, TargetCell, TargetFacing};
use crate::graph::{cell_of, has_cell, CellGraph};
use crate::room::{assigned_room, RoomId, RoomMap, RoomMapView};

verus! {

broadcast use vstd::std_specs::hash::group_hash_axioms;

/// The cells seen by a ray that starts in `cur` and walks through face `dir`
/// for at most `depth` steps. At every cell it enters it also sees the
/// neighbours to the left and right of `dir`, and sends from each of them a
/// ray in the same direction with the steps that remain.
pub open spec fn ray(g: Seq<CellView>, cur: CellId, dir: CardinalDirection, depth: nat) -> Set<CellId>
    decreases depth,
{
    if depth == 0 || !has_cell(g, cur) || !cell_of(g, cur).has_neighbor(dir) {
        Set::empty()
    } else {
        let next = cell_of(g, cur).links[dir];
        let rem = (depth - 1) as nat;
        let side = if has_cell(g, next) {
            let nc = cell_of(g, next);
            let left = if nc.has_neighbor(dir.turn_left()) {
                set![nc.links[dir.turn_left()]].union(ray(g, nc.links[dir.turn_left()], dir, rem))
            } else {
                Set::empty()
            };
            let right = if nc.has_neighbor(dir.turn_right()) {
                set![nc.links[dir.turn_right()]].union(ray(g, nc.links[dir.turn_right()], dir, rem))
            } else {
                Set::empty()
            };
            left.union(right)
        } else {
            Set::empty()
        };
        set![next].union(side).union(ray(g, next, dir, rem))
    }
}

/// The cells visible from `origin` facing `facing`: the origin and what the
/// rays forward, to the left and to the right see.
pub open spec fn visible_from(g: Seq<CellView>, origin: CellId, facing: CardinalDirection, depth: nat) -> Set<
    CellId,
> {
    set![origin].union(ray(g, origin, facing, depth)).union(ray(g, origin, facing.turn_left(), depth)).union(
        ray(g, origin, facing.turn_right(), depth),
    )
}

/// A visible cell is hidden by the player's room when another visible cell at
/// the same grid position belongs to that room and it does not.
pub open spec fn shadowed(
    v: Set<CellId>,
    player_room: RoomId,
    g: Seq<CellView>,
    m: RoomMapView,
    c: CellId,
) -> bool {
    &&& has_cell(g, c)
    &&& assigned_room(m, c) != Some(player_room)
    &&& exists|c2: CellId|
        #![trigger v.contains(c2)]
        v.contains(c2) && has_cell(g, c2) && cell_of(g, c2).position == cell_of(g, c).position && assigned_room(m, c2)
            == Some(player_room)
}

/// The visible cells that remain once the cells hidden by the player's room
/// are taken out.
pub open spec fn pruned(v: Set<CellId>, player_room: RoomId, g: Seq<CellView>, m: RoomMapView) -> Set<CellId> {
    v.filter(|c: CellId| !shadowed(v, player_room, g, m, c))
}

/// The set of cells currently visible to the player.
pub struct VisibleCells {
    cells: HashSet<u32>,
}

impl View for VisibleCells {
    type V = Set<CellId>;

    closed spec fn view(&self) -> Set<CellId> {
        Set::new(|c: CellId| self.cells@.contains(c.0))
    }
}

impl Default for VisibleCells {
    fn default() -> (v: VisibleCells)
        ensures
            v@ == Set::<CellId>::empty(),
    {
        VisibleCells::new()
    }
}

impl VisibleCells {
    /// An empty set of visible cells.
    pub fn new() -> (v: VisibleCells)
        ensures
            v@ == Set::<CellId>::empty(),
    {
        let v = VisibleCells { cells: HashSet::new() };
        assert(v@ =~= Set::<CellId>::empty());
        v
    }

    /// Whether the cell is visible.
    pub fn contains(&self, cell_id: CellId) -> (r: bool)
        ensures
            r == self@.contains(cell_id),
    {
        self.cells.contains(&cell_id.0)
    }

    /// Marks a cell visible.
    pub fn insert(&mut self, cell_id: CellId)
        ensures
            final(self)@ == old(self)@.insert(cell_id),
    {
        self.cells.insert(cell_id.0);
        assert(self@ =~= old(self)@.insert(cell_id));
    }

    /// Marks a cell not visible.
    pub fn remove(&mut self, cell_id: CellId)
        ensures
            final(self)@ == old(self)@.remove(cell_id),
    {
        self.cells.remove(&cell_id.0);
        assert(self@ =~= old(self)@.remove(cell_id));
    }

    /// Marks every cell not visible.
    pub fn clear(&mut self)
        ensures
            final(self)@ == Set::<CellId>::empty(),
    {
        self.cells.clear();
        assert(self@ =~= Set::<CellId>::empty());
    }

    /// The visible cells, each listed once.
    pub fn cells(&self) -> (r: Vec<CellId>)
        ensures
            r@.no_duplicates(),
            forall|c: CellId| r@.contains(c) <==> self@.contains(c),
    {
        crate::cell::list_cell_ids(&self.cells)
    }
}

/// Walks from `origin` through face `direction` for at most `depth` steps,
/// marking visible each cell entered and, at each of them, the neighbours to
/// its left and right together with what rays from those neighbours in the
/// same direction see with the steps that remain.
pub fn cast_ray(origin: CellId, direction: CardinalDirection, depth: u32, graph: &CellGraph, visible: &mut VisibleCells)
    ensures
        final(visible)@ == old(visible)@.union(ray(graph@, origin, direction, depth as nat)),
    decreases depth,
{
    let left = direction.turn_left();
    let right = direction.turn_right();
    let ghost g = graph@;
    let ghost target = old(visible)@.union(ray(g, origin, direction, depth as nat));

    let mut current = origin;
    let mut remaining = depth;
    loop
        invariant
            g == graph@,
            left == direction.turn_left(),
            right == direction.turn_right(),
            remaining <= depth,
            target == old(visible)@.union(ray(g, origin, direction, depth as nat)),
            visible@.union(ray(g, current, direction, remaining as nat)) == target,
        ensures
            visible@ == target,
        decreases remaining,
    {
        let ghost v0 = visible@;
        if remaining == 0 {
            assert(visible@.union(Set::empty()) =~= visible@);
            break;
        }
        let cell = match graph.get_cell(current) {
            Some(c) => c,
            None => {
                assert(visible@.union(Set::empty()) =~= visible@);
                break;
            },
        };
        let next_id = match cell.get_neighbor(direction) {
            Some(id) => id,
            None => {
                assert(visible@.union(Set::empty()) =~= visible@);
                break;
            },
        };
        visible.insert(next_id);
        remaining = remaining - 1;
        let ghost rem = remaining as nat;
        let ghost v1 = visible@;
        let ghost mut side: Set<CellId> = Set::empty();
        match graph.get_cell(next_id) {
            Some(next_cell) => {
                let ghost nc = cell_of(g, next_id);
                let ghost lset: Set<CellId> = if nc.has_neighbor(left) {
                    set![nc.links[left]].union(ray(g, nc.links[left], direction, rem))
                } else {
                    Set::empty()
                };
                let ghost rset: Set<CellId> = if nc.has_neighbor(right) {
                    set![nc.links[right]].union(ray(g, nc.links[right], direction, rem))
                } else {
                    Set::empty()
                };
                match next_cell.get_neighbor(left) {
                    Some(left_id) => {
                        visible.insert(left_id);
                        cast_ray(left_id, direction, remaining, graph, visible);
                    },
                    None => {},
                }
                assert(visible@ =~= v1.union(lset));
                let ghost v2 = visible@;
                match next_cell.get_neighbor(right) {
                    Some(right_id) => {
                        visible.insert(right_id);
                        cast_ray(right_id, direction, remaining, graph, visible);
                    },
                    None => {},
                }
                assert(visible@ =~= v2.union(rset));
                proof {
                    side = lset.union(rset);
                }
            },
            None => {},
        }
        assert(visible@ =~= v0.insert(next_id).union(side));
        assert(ray(g, current, direction, (remaining + 1) as nat) =~= set![next_id].union(side).union(
            ray(g, next_id, direction, rem),
        ));
        assert(visible@.union(ray(g, next_id, direction, rem)) =~= v0.union(
            ray(g, current, direction, (remaining + 1) as nat),
        ));
        current = next_id;
    }
}

/// Marks visible every cell the player sees from `origin` facing `facing`:
/// the origin itself, and what the rays forward, to the left and to the
/// right see within `render_depth` steps.
pub fn compute_visible_cells(
    origin: CellId,
    facing: CardinalDirection,
    graph: &CellGraph,
    visible: &mut VisibleCells,
    render_depth: u32,
)
    ensures
        final(visible)@ == old(visible)@.union(visible_from(graph@, origin, facing, render_depth as nat)),
{
    visible.insert(origin);
    cast_ray(origin, facing, render_depth, graph, visible);
    cast_ray(origin, facing.turn_left(), render_depth, graph, visible);
    cast_ray(origin, facing.turn_right(), render_depth, graph, visible);
    assert(visible@ =~= old(visible)@.union(visible_from(graph@, origin, facing, render_depth as nat)));
}

/// A visible cell whose position marks out the player's room: a cell of the
/// graph assigned to that room.
pub open spec fn is_anchor(g: Seq<CellView>, m: RoomMapView, player_room: RoomId, c: CellId) -> bool {
    has_cell(g, c) && assigned_room(m, c) == Some(player_room)
}

fn contains_pos(v: &Vec<GridPos>, p: GridPos) -> (r: bool)
    ensures
        r == v@.contains(p),
{
    let n = v.len();
    let mut i: usize = 0;
    while i < n
        invariant
            n == v@.len(),
            i <= n,
            forall|j: int| 0 <= j < i ==> v@[j] != p,
        decreases n - i,
    {
        if v[i] == p {
            return true;
        }
        i = i + 1;
    }
    false
}

fn in_room(room_map: &RoomMap, cell_id: CellId, room: RoomId) -> (r: bool)
    ensures
        r == (assigned_room(room_map@, cell_id) == Some(room)),
{
    match room_map.get_cell_room(cell_id) {
        Some(r) => r == room,
        None => false,
    }
}

/// Where several visible cells share one grid position (rooms that overlap
/// in space), keeps the cells of the player's room and takes the others out;
/// positions where no visible cell belongs to the player's room are left
/// alone.
pub fn prune_overlapping_cells(visible: &mut VisibleCells, player_room: RoomId, graph: &CellGraph, room_map: &RoomMap)
    ensures
        final(visible)@ == pruned(old(visible)@, player_room, graph@, room_map@),
{
    let ghost v0 = visible@;
    let ghost g = graph@;
    let ghost m = room_map@;
    let ids = visible.cells();
    let n = ids.len();

    // Positions held by visible cells of the player's room.
    let mut anchors: Vec<GridPos> = Vec::new();
    let mut i: usize = 0;
    while i < n
        invariant
            n == ids@.len(),
            i <= n,
            g == graph@,
            m == room_map@,
            forall|p: GridPos|
                anchors@.contains(p) <==> exists|j: int|
                    0 <= j < i && is_anchor(g, m, player_room, #[trigger] ids@[j]) && cell_of(g, ids@[j]).position
                        == p,
        decreases n - i,
    {
        let c = ids[i];
        if let Some(cell) = graph.get_cell(c) {
            if in_room(room_map, c, player_room) {
                let ghost a0 = anchors@;
                anchors.push(cell.position());
                assert forall|p: GridPos|
                    anchors@.contains(p) <==> exists|j: int|
                        0 <= j < i + 1 && is_anchor(g, m, player_room, #[trigger] ids@[j]) && cell_of(g, ids@[j]).position
                            == p by {
                    if anchors@.contains(p) {
                        let k = choose|k: int| 0 <= k < anchors@.len() && anchors@[k] == p;
                        if k < a0.len() {
                            assert(a0[k] == p);
                            assert(a0.contains(p));
                            let j = choose|j: int|
                                0 <= j < i && is_anchor(g, m, player_room, #[trigger] ids@[j]) && cell_of(
                                    g,
                                    ids@[j],
                                ).position == p;
                            assert(is_anchor(g, m, player_room, ids@[j]));
                        } else {
                            assert(is_anchor(g, m, player_room, ids@[i as int]) && cell_of(g, ids@[i as int]).position
                                == p);
                        }
                    }
                    if exists|j: int|
                        0 <= j < i + 1 && is_anchor(g, m, player_room, #[trigger] ids@[j]) && cell_of(g, ids@[j]).position
                            == p {
                        let j = choose|j: int|
                            0 <= j < i + 1 && is_anchor(g, m, player_room, #[trigger] ids@[j]) && cell_of(
                                g,
                                ids@[j],
                            ).position == p;
                        if j == i {
                            assert(anchors@[a0.len() as int] == p);
                        } else {
                            assert(is_anchor(g, m, player_room, ids@[j]));
                            assert(a0.contains(p));
                            let k = choose|k: int| 0 <= k < a0.len() && a0[k] == p;
                            assert(anchors@[k] == p);
                        }
                    }
                }
            }
        }
        i = i + 1;
    }
    assert forall|c: CellId| has_cell(g, c) implies (#[trigger] anchors@.contains(cell_of(g, c).position) <==> exists|c2: CellId|
        #![trigger v0.contains(c2)]
        v0.contains(c2) && has_cell(g, c2) && cell_of(g, c2).position == cell_of(g, c).position && assigned_room(m, c2)
            == Some(player_room)) by {
        let p = cell_of(g, c).position;
        if anchors@.contains(p) {
            let j = choose|j: int|
                0 <= j < n && is_anchor(g, m, player_room, #[trigger] ids@[j]) && cell_of(g, ids@[j]).position == p;
            assert(ids@.contains(ids@[j]));
            assert(v0.contains(ids@[j]));
        }
        if exists|c2: CellId|
            #![trigger v0.contains(c2)]
            v0.contains(c2) && has_cell(g, c2) && cell_of(g, c2).position == p && assigned_room(m, c2) == Some(
                player_room,
            ) {
            let c2 = choose|c2: CellId|
                #![trigger v0.contains(c2)]
                v0.contains(c2) && has_cell(g, c2) && cell_of(g, c2).position == p && assigned_room(m, c2) == Some(
                    player_room,
                );
            assert(ids@.contains(c2));
            let j = choose|j: int| 0 <= j < ids@.len() && ids@[j] == c2;
            assert(is_anchor(g, m, player_room, ids@[j]));
        }
    }

    assert(anchored(anchors@, v0, player_room, g, m));
    // Take out the visible cells of other rooms at those positions.
    let mut k: usize = 0;
    while k < n
        invariant
            n == ids@.len(),
            k <= n,
            g == graph@,
            m == room_map@,
            ids@.no_duplicates(),
            forall|c: CellId| ids@.contains(c) <==> v0.contains(c),
            anchored(anchors@, v0, player_room, g, m),
            forall|c: CellId|
                #[trigger] visible@.contains(c) <==> (v0.contains(c) && !(ids@.take(k as int).contains(c)
                    && shadowed(v0, player_room, g, m, c))),
        decreases n - k,
    {
        let c = ids[k];
        let ghost vk = visible@;
        let hidden = check_shadowed(&anchors, c, graph, room_map, player_room, Ghost(v0));
        if hidden {
            visible.remove(c);
        }
        proof {
            let t0 = ids@.take(k as int);
            let t1 = ids@.take(k + 1);
            assert(t1 =~= t0.push(c));
            if t0.contains(c) {
                let j = choose|j: int| 0 <= j < t0.len() && t0[j] == c;
                assert(ids@[j] == ids@[k as int]);
            }
            assert forall|x: CellId|
                #[trigger] visible@.contains(x) <==> (v0.contains(x) && !(t1.contains(x) && shadowed(
                    v0,
                    player_room,
                    g,
                    m,
                    x,
                ))) by {
                if x != c {
                    assert(visible@.contains(x) == vk.contains(x));
                    assert(t1.contains(x) == t0.contains(x));
                } else {
                    assert(t1[k as int] == x);
                    assert(t1.contains(x));
                    assert(vk.contains(x) == v0.contains(x));
                }
            }
        }
        k = k + 1;
    }
    proof {
        assert(ids@.take(n as int) =~= ids@);
        assert forall|c: CellId| visible@.contains(c) <==> pruned(v0, player_room, g, m).contains(c) by {
            assert(visible@.contains(c) <==> (v0.contains(c) && !(ids@.take(n as int).contains(c) && shadowed(
                v0,
                player_room,
                g,
                m,
                c,
            ))));
        }
        assert(visible@ =~= pruned(v0, player_room, g, m));
    }
}

/// `anchors` holds exactly the positions of the visible cells of the
/// player's room.
spec fn anchored(anchors: Seq<GridPos>, v0: Set<CellId>, player_room: RoomId, g: Seq<CellView>, m: RoomMapView) -> bool {
    forall|c: CellId|
        has_cell(g, c) ==> (#[trigger] anchors.contains(cell_of(g, c).position) <==> exists|c2: CellId|
            #![trigger v0.contains(c2)]
            v0.contains(c2) && has_cell(g, c2) && cell_of(g, c2).position == cell_of(g, c).position && assigned_room(
                m,
                c2,
            ) == Some(player_room))
}

fn check_shadowed(
    anchors: &Vec<GridPos>,
    c: CellId,
    graph: &CellGraph,
    room_map: &RoomMap,
    player_room: RoomId,
    Ghost(v0): Ghost<Set<CellId>>,
) -> (r: bool)
    requires
        anchored(anchors@, v0, player_room, graph@, room_map@),
    ensures
        r == shadowed(v0, player_room, graph@, room_map@, c),
{
    match graph.get_cell(c) {
        Some(cell) => {
            if in_room(room_map, c, player_room) {
                false
            } else {
                contains_pos(anchors, cell.position())
            }
        },
        None => false,
    }
}

/// What the player's view was last computed from: the cell and facing it
/// was computed for, and whether a move or turn was under way.
#[derive(Debug, Clone, Copy, PartialEq, Eq, Structural)]
pub struct ViewState {
    pub cell: CellId,
    pub facing: CardinalDirection,
    pub transitioning: bool,
}

/// The state the view is computed from: the cell and facing the player is
/// heading for, when it is moving or turning, else those it has.
pub open spec fn spec_view_state(cell_tf: CellTransform, target_cell: TargetCell, target_facing: TargetFacing) -> ViewState {
    ViewState {
        cell: match target_cell.0 {
            Some(c) => c,
            None => cell_tf.cell,
        },
        facing: match target_facing.0 {
            Some(f) => f,
            None => cell_tf.facing,
        },
        transitioning: target_cell.0 is Some || target_facing.0 is Some,
    }
}

/// The visible cells after a recomputation for state `s`: while a move or
/// turn is under way the cells already visible stay visible, otherwise the
/// set starts afresh; then the cells hidden by the player's room, if the
/// cell has one, are taken out.
pub open spec fn recomputed(
    old_visible: Set<CellId>,
    s: ViewState,
    g: Seq<CellView>,
    m: RoomMapView,
    render_depth: nat,
) -> Set<CellId> {
    let base = if s.transitioning {
        old_visible
    } else {
        Set::empty()
    };
    let seen = base.union(visible_from(g, s.cell, s.facing, render_depth));
    match assigned_room(m, s.cell) {
        Some(r) => pruned(seen, r, g, m),
        None => seen,
    }
}

/// Recomputes the visible cells when the state the view depends on has
/// changed since the last call; when it has not, nothing changes.
pub fn update_visible_cells(
    cell_tf: &CellTransform,
    target_cell: &TargetCell,
    target_facing: &TargetFacing,
    graph: &CellGraph,
    room_map: &RoomMap,
    render_depth: u32,
    visible: &mut VisibleCells,
    last_state: &mut Option<ViewState>,
)
    ensures
        ({
            let s = spec_view_state(*cell_tf, *target_cell, *target_facing);
            if *old(last_state) == Some(s) {
                &&& final(visible)@ == old(visible)@
                &&& *final(last_state) == *old(last_state)
            } else {
                &&& final(visible)@ == recomputed(old(visible)@, s, graph@, room_map@, render_depth as nat)
                &&& *final(last_state) == Some(s)
            }
        }),
{
    let effective_cell = match target_cell.0 {
        Some(c) => c,
        None => cell_tf.cell,
    };
    let effective_facing = match target_facing.0 {
        Some(f) => f,
        None => cell_tf.facing,
    };
    let transitioning = target_cell.0.is_some() || target_facing.0.is_some();
    let current = ViewState { cell: effective_cell, facing: effective_facing, transitioning };
    if let Some(last) = *last_state {
        if last == current {
            return;
        }
    }
    *last_state = Some(current);
    if !transitioning {
        visible.clear();
    }
    compute_visible_cells(effective_cell, effective_facing, graph, visible, render_depth);
    if let Some(player_room) = room_map.get_cell_room(effective_cell) {
        prune_overlapping_cells(visible, player_room, graph, room_map);
    }
}

/// The player always sees the cell it stands in; with a render depth of 0,
/// or from a cell with no connections, it sees nothing else.
pub proof fn lemma_origin_always_visible(g: Seq<CellView>, origin: CellId, facing: CardinalDirection, depth: nat)
    ensures
        visible_from(g, origin, facing, depth).contains(origin),
        visible_from(g, origin, facing, 0) == set![origin],
        has_cell(g, origin) && cell_of(g, origin).links.dom() == Set::<CardinalDirection>::empty()
            ==> visible_from(g, origin, facing, depth) == set![origin],
{
    assert(visible_from(g, origin, facing, 0) =~= set![origin]);
    if has_cell(g, origin) && cell_of(g, origin).links.dom() == Set::<CardinalDirection>::empty() {
        assert(!cell_of(g, origin).has_neighbor(facing));
        assert(!cell_of(g, origin).has_neighbor(facing.turn_left()));
        assert(!cell_of(g, origin).has_neighbor(facing.turn_right()));
        assert(visible_from(g, origin, facing, depth) =~= set![origin]);
    }
}

/// A deeper ray sees at least what a shallower one sees.
pub proof fn lemma_ray_grows_with_depth(g: Seq<CellView>, cur: CellId, dir: CardinalDirection, d1: nat, d2: nat)
    requires
        d1 <= d2,
    ensures
        ray(g, cur, dir, d1).subset_of(ray(g, cur, dir, d2)),
    decreases d1,
{
    if d1 > 0 && has_cell(g, cur) && cell_of(g, cur).has_neighbor(dir) {
        let next = cell_of(g, cur).links[dir];
        let r1 = (d1 - 1) as nat;
        let r2 = (d2 - 1) as nat;
        lemma_ray_grows_with_depth(g, next, dir, r1, r2);
        if has_cell(g, next) {
            let nc = cell_of(g, next);
            if nc.has_neighbor(dir.turn_left()) {
                lemma_ray_grows_with_depth(g, nc.links[dir.turn_left()], dir, r1, r2);
            }
            if nc.has_neighbor(dir.turn_right()) {
                lemma_ray_grows_with_depth(g, nc.links[dir.turn_right()], dir, r1, r2);
            }
        }
    }
}

/// A larger render depth shows at least the cells a smaller one shows.
pub proof fn lemma_view_grows_with_depth(g: Seq<CellView>, origin: CellId, facing: CardinalDirection, d1: nat, d2: nat)
    requires
        d1 <= d2,
    ensures
        visible_from(g, origin, facing, d1).subset_of(visible_from(g, origin, facing, d2)),
{
    lemma_ray_grows_with_depth(g, origin, facing, d1, d2);
    lemma_ray_grows_with_depth(g, origin, facing.turn_left(), d1, d2);
    lemma_ray_grows_with_depth(g, origin, facing.turn_right(), d1, d2);
}

/// The cell some cell of the graph leads to through one of its faces.
pub open spec fn linked_into(g: Seq<CellView>, c: CellId) -> bool {
    exists|i: int, e: CardinalDirection| 0 <= i < g.len() && #[trigger] g[i].neighbor(e) == Some(c)
}

/// Rays only see cells that some cell of the graph is connected to: sight
/// passes through connections and never through walls.
pub proof fn lemma_ray_follows_links(g: Seq<CellView>, cur: CellId, dir: CardinalDirection, depth: nat, c: CellId)
    requires
        ray(g, cur, dir, depth).contains(c),
    ensures
        linked_into(g, c),
    decreases depth,
{
    let next = cell_of(g, cur).links[dir];
    let rem = (depth - 1) as nat;
    assert(g[cur.0 as int].neighbor(dir) == Some(next));
    if c == next {
    } else if ray(g, next, dir, rem).contains(c) {
        lemma_ray_follows_links(g, next, dir, rem, c);
    } else {
        let nc = cell_of(g, next);
        let l = nc.links[dir.turn_left()];
        let r = nc.links[dir.turn_right()];
        if nc.has_neighbor(dir.turn_left()) && (c == l || ray(g, l, dir, rem).contains(c)) {
            if c == l {
                assert(g[next.0 as int].neighbor(dir.turn_left()) == Some(l));
            } else {
                lemma_ray_follows_links(g, l, dir, rem, c);
            }
        } else {
            if c == r {
                assert(g[next.0 as int].neighbor(dir.turn_right()) == Some(r));
            } else {
                lemma_ray_follows_links(g, r, dir, rem, c);
            }
        }
    }
}

/// Apart from the player's own cell, every visible cell is one that some
/// cell of the graph is connected to.
pub proof fn lemma_visible_follows_links(g: Seq<CellView>, origin: CellId, facing: CardinalDirection, depth: nat, c: CellId)
    requires
        visible_from(g, origin, facing, depth).contains(c),
        c != origin,
    ensures
        linked_into(g, c),
{
    if ray(g, origin, facing, depth).contains(c) {
        lemma_ray_follows_links(g, origin, facing, depth, c);
    } else if ray(g, origin, facing.turn_left(), depth).contains(c) {
        lemma_ray_follows_links(g, origin, facing.turn_left(), depth, c);
    } else {
        lemma_ray_follows_links(g, origin, facing.turn_right(), depth, c);
    }
}

/// Pruning only takes cells out; it keeps every visible cell of the player's
/// room and every cell that is not in the graph; and no cell that remains
/// shares its position with a visible cell of the player's room unless it
/// belongs to that room itself.
pub proof fn lemma_pruning_keeps_the_players_room(
    v: Set<CellId>,
    player_room: RoomId,
    g: Seq<CellView>,
    m: RoomMapView,
    c: CellId,
)
    ensures
        pruned(v, player_room, g, m).subset_of(v),
        v.contains(c) && assigned_room(m, c) == Some(player_room) ==> pruned(v, player_room, g, m).contains(c),
        v.contains(c) && !has_cell(g, c) ==> pruned(v, player_room, g, m).contains(c),
        pruned(v, player_room, g, m).contains(c) && has_cell(g, c) && assigned_room(m, c) != Some(player_room)
            ==> forall|c2: CellId|
            #![trigger v.contains(c2)]
            v.contains(c2) && has_cell(g, c2) && assigned_room(m, c2) == Some(player_room) ==> cell_of(g, c2).position
                != cell_of(g, c).position,
{
}


/// Whether `path` is a straight corridor that leaves its first cell through
/// face `dir`: each of its cells but the last is a cell of the graph whose
/// neighbour through `dir` is the next one.
pub open spec fn corridor(g: Seq<CellView>, path: Seq<CellId>, dir: CardinalDirection) -> bool {
    forall|i: int|
        0 <= i < path.len() - 1 ==> has_cell(g, #[trigger] path[i]) && cell_of(g, path[i]).neighbor(dir) == Some(
            path[i + 1],
        )
}

/// A ray walks straight on as far as its depth allows: every cell of a
/// corridor that leaves the ray's cell through its direction, and is no
/// longer than the depth, is seen.
pub proof fn lemma_ray_sees_corridor(
    g: Seq<CellView>,
    cur: CellId,
    dir: CardinalDirection,
    depth: nat,
    path: Seq<CellId>,
)
    requires
        path.len() >= 1,
        path[0] == cur,
        path.len() - 1 <= depth,
        corridor(g, path, dir),
    ensures
        forall|i: int| 1 <= i < path.len() ==> ray(g, cur, dir, depth).contains(#[trigger] path[i]),
    decreases path.len(),
{
    if path.len() > 1 {
        let rest = path.subrange(1, path.len() as int);
        assert forall|i: int| 0 <= i < rest.len() - 1 implies has_cell(g, #[trigger] rest[i]) && cell_of(
            g,
            rest[i],
        ).neighbor(dir) == Some(rest[i + 1]) by {
            assert(rest[i] == path[i + 1]);
            assert(rest[i + 1] == path[i + 2]);
            assert(has_cell(g, path[i + 1]));
        }
        lemma_ray_sees_corridor(g, path[1], dir, (depth - 1) as nat, rest);
        assert(has_cell(g, path[0]));
        assert(cell_of(g, cur).neighbor(dir) == Some(path[1]));
        assert forall|i: int| 1 <= i < path.len() implies ray(g, cur, dir, depth).contains(#[trigger] path[i]) by {
            if i > 1 {
                assert(rest[i - 1] == path[i]);
            }
        }
    }
}

/// The player sees along each of its three rays, forward, to the left and to
/// the right, as far as the render depth reaches: every cell of a straight
/// corridor that leaves the player's cell through the facing face or one of
/// the faces beside it, and is no longer than the depth, is visible.
pub proof fn lemma_corridors_are_visible(
    g: Seq<CellView>,
    origin: CellId,
    facing: CardinalDirection,
    depth: nat,
    dir: CardinalDirection,
    path: Seq<CellId>,
)
    requires
        dir == facing || dir == facing.turn_left() || dir == facing.turn_right(),
        path.len() >= 1,
        path[0] == origin,
        path.len() - 1 <= depth,
        corridor(g, path, dir),
    ensures
        forall|i: int| 0 <= i < path.len() ==> visible_from(g, origin, facing, depth).contains(#[trigger] path[i]),
{
    lemma_ray_sees_corridor(g, origin, dir, depth, path);
    assert forall|i: int| 0 <= i < path.len() implies visible_from(g, origin, facing, depth).contains(
        #[trigger] path[i],
    ) by {
        if i > 0 {
            assert(ray(g, origin, dir, depth).contains(path[i]));
        }
    }
}

/// The view follows the player's destination: while a move is under way the
/// view is computed for the cell being entered, and while a turn is under way
/// for the direction being turned to; otherwise for the cell and facing the
/// player has. A recomputed view always shows that cell, and, when the cell
/// belongs to no room, exactly the cells seen from it, added to what was
/// visible before while a move or turn is under way.
pub proof fn lemma_view_follows_the_destination(
    cell_tf: CellTransform,
    target_cell: TargetCell,
    target_facing: TargetFacing,
    old_visible: Set<CellId>,
    g: Seq<CellView>,
    m: RoomMapView,
    depth: nat,
)
    ensures
        ({
            let s = spec_view_state(cell_tf, target_cell, target_facing);
            let v = recomputed(old_visible, s, g, m, depth);
            &&& target_cell.0 matches Some(c) ==> s.cell == c && s.transitioning
            &&& target_cell.0 is None ==> s.cell == cell_tf.cell
            &&& target_facing.0 matches Some(f) ==> s.facing == f && s.transitioning
            &&& target_facing.0 is None ==> s.facing == cell_tf.facing
            &&& target_cell.0 is None && target_facing.0 is None ==> !s.transitioning
            &&& v.contains(s.cell)
            &&& assigned_room(m, s.cell) is None && s.transitioning ==> v == old_visible.union(
                visible_from(g, s.cell, s.facing, depth),
            )
            &&& assigned_room(m, s.cell) is None && !s.transitioning ==> v == visible_from(g, s.cell, s.facing, depth)
        }),
{
    let s = spec_view_state(cell_tf, target_cell, target_facing);
    lemma_origin_always_visible(g, s.cell, s.facing, depth);
    if !s.transitioning {
        assert(Set::<CellId>::empty().union(visible_from(g, s.cell, s.facing, depth)) =~= visible_from(
            g,
            s.cell,
            s.facing,
            depth,
        ));
    }
}

} // verus!
