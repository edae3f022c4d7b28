use vstd::prelude::*;

use crate::cell::CellId;
use crate::direction::{CardinalDirection, GridPos};
use crate::graph::{cell_of, has_cell, CellGraph};

verus! {

/// Whether an entity stands still or is on its way to a neighbouring cell.
#[derive(Debug, Clone, Copy, PartialEq, Eq, Structural)]
pub enum MovementState {
    Idle,
    MovingToTarget,
}

/// The cell an entity is moving towards: set when a move begins, cleared on
/// arrival.
#[derive(Debug, Clone, Copy, PartialEq, Eq, Structural)]
pub struct TargetCell(pub Option<CellId>);

impl Default for TargetCell {
    fn default() -> (t: TargetCell)
        ensures
            t == TargetCell(None),
    {
        TargetCell(None)
    }
}

/// The direction an entity is turning towards: set when a turn begins,
/// cleared when it settles.
#[derive(Debug, Clone, Copy, PartialEq, Eq, Structural)]
pub struct TargetFacing(pub Option<CardinalDirection>);

impl Default for TargetFacing {
    fn default() -> (t: TargetFacing)
        ensures
            t == TargetFacing(None),
    {
        TargetFacing(None)
    }
}

/// The cell an entity occupies and the direction it faces.
#[derive(Debug, Clone, Copy, PartialEq, Eq, Structural)]
pub struct CellTransform {
    /// The cell the entity is currently occupying.
    pub cell: CellId,
    /// The direction the entity is facing (North, South, East or West).
    pub facing: CardinalDirection,
}

/// A quarter turn requested by the player.
#[derive(Debug, Clone, Copy, PartialEq, Eq, Structural)]
pub enum Turn {
    /// Counter-clockwise seen from above.
    Left,
    /// Clockwise seen from above.
    Right,
}

/// The state of one key in the current frame.
#[derive(Debug, Clone, Copy, PartialEq, Eq, Structural)]
pub struct KeyState {
    /// The key is held down.
    pub pressed: bool,
    /// The key went down in this frame.
    pub just_pressed: bool,
}

/// The keys that move and turn the player in the current frame.
#[derive(Debug, Clone, Copy, PartialEq, Eq, Structural)]
pub struct MovementKeys {
    pub move_forward: KeyState,
    pub move_backward: KeyState,
    pub move_left: KeyState,
    pub move_right: KeyState,
    pub rotate_left: KeyState,
    pub rotate_right: KeyState,
}

/// A step counted along the facing direction and along its right-hand side,
/// each -1, 0 or 1.
#[derive(Debug, Clone, Copy, PartialEq, Eq, Structural)]
pub struct Step {
    pub forward: i32,
    pub right: i32,
}

/// What the player asked for in this frame: a step and a turn.
#[derive(Debug, Clone, Copy, PartialEq, Eq, Structural)]
pub struct PlayerRequest {
    /// `None` when the movement keys cancel out or none is active.
    pub movement: Option<Step>,
    pub rotation: Option<Turn>,
}

/// A key counts when it is held and either went down in this frame or has
/// been held for the repeat delay.
pub open spec fn key_active(k: KeyState, repeat_ready: bool) -> bool {
    k.pressed && (k.just_pressed || repeat_ready)
}

pub open spec fn step_count(on: bool) -> int {
    if on {
        1
    } else {
        0
    }
}

/// The request that the keys make: forward and backward add up along the
/// facing direction, right and left along its right-hand side; a right turn
/// takes precedence over a left turn.
pub open spec fn spec_request(keys: MovementKeys, movement_ready: bool, rotation_ready: bool) -> PlayerRequest {
    let f = step_count(key_active(keys.move_forward, movement_ready)) - step_count(
        key_active(keys.move_backward, movement_ready),
    );
    let r = step_count(key_active(keys.move_right, movement_ready)) - step_count(
        key_active(keys.move_left, movement_ready),
    );
    PlayerRequest {
        movement: if f == 0 && r == 0 {
            None
        } else {
            Some(Step { forward: f as i32, right: r as i32 })
        },
        rotation: if key_active(keys.rotate_right, rotation_ready) {
            Some(Turn::Right)
        } else if key_active(keys.rotate_left, rotation_ready) {
            Some(Turn::Left)
        } else {
            None
        },
    }
}

fn active(k: KeyState, repeat_ready: bool) -> (r: bool)
    ensures
        r == key_active(k, repeat_ready),
{
    k.pressed && (k.just_pressed || repeat_ready)
}

/// Reads the player's keys. `movement_ready` and `rotation_ready` tell
/// whether the repeat delay has passed since the last step and the last
/// turn. A player that is moving or turning (`busy`) is not listened to.
pub fn read_player_input(keys: MovementKeys, movement_ready: bool, rotation_ready: bool, busy: bool) -> (r: Option<
    PlayerRequest,
>)
    ensures
        busy ==> r is None,
        !busy ==> r == Some(spec_request(keys, movement_ready, rotation_ready)),
{
    if busy {
        return None;
    }
    let mut forward: i32 = 0;
    let mut right: i32 = 0;
    if active(keys.move_forward, movement_ready) {
        forward = forward + 1;
    }
    if active(keys.move_backward, movement_ready) {
        forward = forward - 1;
    }
    if active(keys.move_left, movement_ready) {
        right = right - 1;
    }
    if active(keys.move_right, movement_ready) {
        right = right + 1;
    }
    let mut rotation: Option<Turn> = None;
    if active(keys.rotate_left, rotation_ready) {
        rotation = Some(Turn::Left);
    }
    if active(keys.rotate_right, rotation_ready) {
        rotation = Some(Turn::Right);
    }
    let movement = if forward == 0 && right == 0 {
        None
    } else {
        Some(Step { forward, right })
    };
    Some(PlayerRequest { movement, rotation })
}

/// The direction of a step given as `forward` units along the facing and
/// `right` units along its right-hand side: the larger component wins, the
/// forward one on a tie, and its sign picks the side.
pub open spec fn spec_move_direction(facing: CardinalDirection, forward: int, right: int) -> CardinalDirection {
    let af = if forward >= 0 { forward } else { -forward };
    let ar = if right >= 0 { right } else { -right };
    if af >= ar {
        if forward >= 0 { facing } else { facing.opposite() }
    } else {
        if right >= 0 { facing.turn_right() } else { facing.turn_left() }
    }
}

/// Resolves a step relative to the facing into an absolute direction.
pub fn resolve_move_direction(facing: CardinalDirection, forward: i32, right: i32) -> (d: CardinalDirection)
    requires
        -1 <= forward <= 1,
        -1 <= right <= 1,
    ensures
        d == spec_move_direction(facing, forward as int, right as int),
{
    let af = if forward >= 0 { forward } else { -forward };
    let ar = if right >= 0 { right } else { -right };
    if af >= ar {
        if forward >= 0 { facing } else { facing.opposite() }
    } else {
        if right >= 0 { facing.turn_right() } else { facing.turn_left() }
    }
}

/// A move that can begin: the direction, the neighbour it leads to and that
/// neighbour's grid position.
#[derive(Debug, Clone, Copy, PartialEq, Eq, Structural)]
pub struct PlannedMove {
    pub direction: CardinalDirection,
    pub target: CellId,
    pub target_position: GridPos,
}

/// Plans the step of an idle entity: it goes through the resolved face of its
/// cell when that face is connected to a cell of the graph, and is blocked
/// (`None`) otherwise.
pub fn plan_cell_move(graph: &CellGraph, cell_tf: &CellTransform, forward: i32, right: i32) -> (r: Option<PlannedMove>)
    requires
        -1 <= forward <= 1,
        -1 <= right <= 1,
    ensures
        ({
            let g = graph@;
            let d = spec_move_direction(cell_tf.facing, forward as int, right as int);
            let n = cell_of(g, cell_tf.cell).links[d];
            &&& r is Some <==> (has_cell(g, cell_tf.cell) && cell_of(g, cell_tf.cell).has_neighbor(d) && has_cell(
                g,
                n,
            ))
            &&& r matches Some(m) ==> m == (PlannedMove {
                direction: d,
                target: n,
                target_position: cell_of(g, n).position,
            })
        }),
{
    let target_dir = resolve_move_direction(cell_tf.facing, forward, right);
    let current_cell = match graph.get_cell(cell_tf.cell) {
        Some(c) => c,
        None => return None,
    };
    let neighbor_id = match current_cell.get_neighbor(target_dir) {
        Some(id) => id,
        None => return None,
    };
    let neighbor_cell = match graph.get_cell(neighbor_id) {
        Some(c) => c,
        None => return None,
    };
    Some(PlannedMove { direction: target_dir, target: neighbor_id, target_position: neighbor_cell.position() })
}

/// Ends a move: the entity now occupies the cell it was moving to, if one
/// was set, and no target remains.
pub fn arrive(cell_tf: &mut CellTransform, target: &mut TargetCell)
    ensures
        final(target).0 is None,
        final(cell_tf).facing == old(cell_tf).facing,
        final(cell_tf).cell == match old(target).0 {
            Some(c) => c,
            None => old(cell_tf).cell,
        },
{
    if let Some(arrived) = target.0 {
        cell_tf.cell = arrived;
    }
    target.0 = None;
}

/// The direction faced after a quarter turn.
pub open spec fn spec_turned(facing: CardinalDirection, turn: Turn) -> CardinalDirection {
    match turn {
        Turn::Left => facing.turn_left(),
        Turn::Right => facing.turn_right(),
    }
}

/// Begins a quarter turn: publishes the direction that will be faced once
/// the turn settles.
pub fn begin_turn(cell_tf: &CellTransform, turn: Turn, target_facing: &mut TargetFacing)
    ensures
        final(target_facing).0 == Some(spec_turned(cell_tf.facing, turn)),
{
    let new_facing = match turn {
        Turn::Left => cell_tf.facing.turn_left(),
        Turn::Right => cell_tf.facing.turn_right(),
    };
    target_facing.0 = Some(new_facing);
}

/// Ends a turn: the entity faces `settled` and no target facing remains.
pub fn settle_turn(cell_tf: &mut CellTransform, settled: CardinalDirection, target_facing: &mut TargetFacing)
    ensures
        final(cell_tf).facing == settled,
        final(cell_tf).cell == old(cell_tf).cell,
        final(target_facing).0 is None,
{
    cell_tf.facing = settled;
    target_facing.0 = None;
}

/// The target cell is set exactly while the entity is moving.
pub open spec fn movement_consistent(state: MovementState, target: TargetCell) -> bool {
    (target.0 is Some) == (state == MovementState::MovingToTarget)
}

/// One frame of cell movement. An idle entity with a planned move starts
/// moving: its target becomes the planned cell. A moving entity that has
/// `reached` the end of its move arrives: it occupies its target cell and is
/// idle again, with no target. In every other case nothing changes. A frame
/// keeps the target set exactly while the entity moves.
pub fn step_movement(
    state: &mut MovementState,
    cell_tf: &mut CellTransform,
    target: &mut TargetCell,
    planned: Option<PlannedMove>,
    reached: bool,
)
    ensures
        match *old(state) {
            MovementState::Idle => match planned {
                Some(m) => {
                    &&& *final(state) == MovementState::MovingToTarget
                    &&& final(target).0 == Some(m.target)
                    &&& *final(cell_tf) == *old(cell_tf)
                },
                None => {
                    &&& *final(state) == *old(state)
                    &&& *final(target) == *old(target)
                    &&& *final(cell_tf) == *old(cell_tf)
                },
            },
            MovementState::MovingToTarget => if reached {
                &&& *final(state) == MovementState::Idle
                &&& final(target).0 is None
                &&& final(cell_tf).facing == old(cell_tf).facing
                &&& final(cell_tf).cell == match old(target).0 {
                    Some(c) => c,
                    None => old(cell_tf).cell,
                }
            } else {
                &&& *final(state) == *old(state)
                &&& *final(target) == *old(target)
                &&& *final(cell_tf) == *old(cell_tf)
            },
        },
        movement_consistent(*old(state), *old(target)) ==> movement_consistent(*final(state), *final(target)),
{
    match *state {
        MovementState::Idle => {
            if let Some(m) = planned {
                target.0 = Some(m.target);
                *state = MovementState::MovingToTarget;
            }
        },
        MovementState::MovingToTarget => {
            if reached {
                arrive(cell_tf, target);
                *state = MovementState::Idle;
            }
        },
    }
}

/// The horizontal direction nearest to a forward vector `(x, _, z)`, from
/// how its components compare: `x_dominant` when `|x| >= |z|`,
/// `x_nonnegative` when `x >= 0` and `z_nonnegative` when `z >= 0`. North
/// is towards negative `z`.
pub fn facing_from_axes(x_dominant: bool, x_nonnegative: bool, z_nonnegative: bool) -> (d: CardinalDirection)
    ensures
        d == (if x_dominant {
            if x_nonnegative {
                CardinalDirection::East
            } else {
                CardinalDirection::West
            }
        } else if z_nonnegative {
            CardinalDirection::South
        } else {
            CardinalDirection::North
        }),
        d.is_horizontal(),
{
    if x_dominant {
        if x_nonnegative {
            CardinalDirection::East
        } else {
            CardinalDirection::West
        }
    } else if z_nonnegative {
        CardinalDirection::South
    } else {
        CardinalDirection::North
    }
}

/// One frame of turning. A turn that `starting` begins publishes the
/// direction it will face; a turn that settles this frame on `settled` makes
/// the entity face it and clears the published direction. A frame keeps the
/// facing, and the published direction, horizontal when the settled
/// direction is.
pub fn step_turn(
    cell_tf: &mut CellTransform,
    target_facing: &mut TargetFacing,
    starting: Option<Turn>,
    settled: Option<CardinalDirection>,
)
    ensures
        final(cell_tf).cell == old(cell_tf).cell,
        final(cell_tf).facing == match settled {
            Some(d) => d,
            None => old(cell_tf).facing,
        },
        final(target_facing).0 == match settled {
            Some(_) => None,
            None => match starting {
                Some(t) => Some(spec_turned(old(cell_tf).facing, t)),
                None => old(target_facing).0,
            },
        },
        old(cell_tf).facing.is_horizontal() && (settled matches Some(d) ==> d.is_horizontal())
            ==> final(cell_tf).facing.is_horizontal(),
        old(cell_tf).facing.is_horizontal() && (old(target_facing).0 matches Some(t) ==> t.is_horizontal())
            ==> (final(target_facing).0 matches Some(t) ==> t.is_horizontal()),
{
    if let Some(t) = starting {
        begin_turn(cell_tf, t, target_facing);
    }
    if let Some(d) = settled {
        settle_turn(cell_tf, d, target_facing);
    }
}

/// A step forward goes through the facing face, a step backward through the
/// opposite one, and sideways steps through the faces to the right and left.
pub proof fn lemma_steps_follow_facing(facing: CardinalDirection)
    ensures
        spec_move_direction(facing, 1, 0) == facing,
        spec_move_direction(facing, -1, 0) == facing.opposite(),
        spec_move_direction(facing, 0, 1) == facing.turn_right(),
        spec_move_direction(facing, 0, -1) == facing.turn_left(),
        spec_move_direction(facing, 1, 1) == facing,
        spec_move_direction(facing, -1, 1) == facing.opposite(),
        spec_move_direction(facing, 1, -1) == facing,
        spec_move_direction(facing, -1, -1) == facing.opposite(),
{
}

/// Facing a horizontal direction, every step stays in the horizontal plane,
/// and a left turn followed by a right turn faces the same way as before.
pub proof fn lemma_moves_stay_level(facing: CardinalDirection, forward: int, right: int)
    requires
        facing.is_horizontal(),
    ensures
        spec_move_direction(facing, forward, right).is_horizontal(),
        spec_turned(spec_turned(facing, Turn::Left), Turn::Right) == facing,
        spec_turned(facing, Turn::Left).is_horizontal(),
        spec_turned(facing, Turn::Right).is_horizontal(),
{
}

/// A move can only be planned through a connection of the graph: the target
/// is the neighbour through the chosen face, and in a graph whose links are
/// mirrored the target leads straight back.
pub proof fn lemma_moves_follow_links(g: Seq<crate::cell::CellView>, from: CellId, m: PlannedMove)
    requires
        has_cell(g, from),
        cell_of(g, from).neighbor(m.direction) == Some(m.target),
        crate::graph::symmetric(g),
    ensures
        cell_of(g, m.target).neighbor(m.direction.opposite()) == Some(from),
        has_cell(g, m.target),
{
    assert(g[from.0 as int].has_neighbor(m.direction));
}


/// The keys with the left and right movement keys swapped.
pub open spec fn mirrored_keys(keys: MovementKeys) -> MovementKeys {
    MovementKeys { move_left: keys.move_right, move_right: keys.move_left, ..keys }
}

/// The movement keys add up: each active key counts one unit along its own
/// axis and sign (forward `(1, 0)`, backward `(-1, 0)`, left `(0, -1)`,
/// right `(0, 1)`), opposite keys cancel, and a request carries a step
/// exactly when the sum is not zero. Swapping the left and right keys
/// mirrors the step sideways.
pub proof fn lemma_movement_keys_add_up(keys: MovementKeys, movement_ready: bool, rotation_ready: bool)
    ensures
        ({
            let req = spec_request(keys, movement_ready, rotation_ready);
            let f = (if key_active(keys.move_forward, movement_ready) { 1int } else { 0int }) - (if key_active(
                keys.move_backward,
                movement_ready,
            ) {
                1int
            } else {
                0int
            });
            let r = (if key_active(keys.move_right, movement_ready) { 1int } else { 0int }) - (if key_active(
                keys.move_left,
                movement_ready,
            ) {
                1int
            } else {
                0int
            });
            &&& req.movement is None <==> (f == 0 && r == 0)
            &&& req.movement matches Some(st) ==> st.forward == f && st.right == r
        }),
        ({
            let req = spec_request(keys, movement_ready, rotation_ready);
            let mreq = spec_request(mirrored_keys(keys), movement_ready, rotation_ready);
            &&& mreq.movement is None <==> req.movement is None
            &&& req.movement matches Some(st) ==> (mreq.movement matches Some(ms) && ms.forward == st.forward && ms.right == -st.right)
        }),
{
}

/// The turn keys: the right one asks for a right turn, else the left one for
/// a left turn; a request carries no turn when neither is active.
pub proof fn lemma_turn_keys(keys: MovementKeys, movement_ready: bool, rotation_ready: bool)
    ensures
        ({
            let req = spec_request(keys, movement_ready, rotation_ready);
            &&& key_active(keys.rotate_right, rotation_ready) ==> req.rotation == Some(Turn::Right)
            &&& !key_active(keys.rotate_right, rotation_ready) && key_active(keys.rotate_left, rotation_ready)
                ==> req.rotation == Some(Turn::Left)
            &&& req.rotation is None <==> !key_active(keys.rotate_right, rotation_ready) && !key_active(
                keys.rotate_left,
                rotation_ready,
            )
        }),
{
}

/// When the forward component is at least as large as the sideways one,
/// the forward component alone decides the direction: the sideways one, of
/// either sign, changes nothing.
pub proof fn lemma_forward_wins_ties(facing: CardinalDirection, forward: int, right: int)
    requires
        (if forward >= 0 { forward } else { -forward }) >= (if right >= 0 { right } else { -right }),
    ensures
        spec_move_direction(facing, forward, right) == spec_move_direction(facing, forward, -right),
        spec_move_direction(facing, forward, right) == spec_move_direction(facing, forward, 0),
{
}

/// Moves turn with the player and reverse with the keys: facing one
/// direction further clockwise turns every move clockwise too, and
/// reversing both components of a non-zero step reverses the move.
pub proof fn lemma_move_direction_symmetries(facing: CardinalDirection, forward: int, right: int)
    requires
        facing.is_horizontal(),
    ensures
        spec_move_direction(facing.turn_right(), forward, right) == spec_move_direction(
            facing,
            forward,
            right,
        ).turn_right(),
        forward != 0 || right != 0 ==> spec_move_direction(facing, -forward, -right) == spec_move_direction(
            facing,
            forward,
            right,
        ).opposite(),
{
}

} // verus!
