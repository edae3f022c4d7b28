use maze::cell::CellId;
use maze::direction::{CardinalDirection, GridPos};
use maze::graph::CellGraph;
use maze::movement::{
    arrive, begin_turn, facing_from_axes, plan_cell_move, read_player_input, resolve_move_direction, settle_turn,
    step_movement, step_turn, CellTransform, KeyState, MovementKeys, MovementState, PlannedMove, Step, TargetCell,
    TargetFacing, Turn,
};

use CardinalDirection::{East, North, South, West};

const UP: KeyState = KeyState { pressed: false, just_pressed: false };
const TAP: KeyState = KeyState { pressed: true, just_pressed: true };
const HELD: KeyState = KeyState { pressed: true, just_pressed: false };

fn keys() -> MovementKeys {
    MovementKeys {
        move_forward: UP,
        move_backward: UP,
        move_left: UP,
        move_right: UP,
        rotate_left: UP,
        rotate_right: UP,
    }
}

#[test]
fn forward_tap_requests_a_forward_step() {
    let k = MovementKeys { move_forward: TAP, ..keys() };
    let r = read_player_input(k, false, false, false).unwrap();
    assert_eq!(r.movement, Some(Step { forward: 1, right: 0 }));
    assert_eq!(r.rotation, None);
}

#[test]
fn held_key_waits_for_the_repeat_delay() {
    let k = MovementKeys { move_left: HELD, ..keys() };
    assert_eq!(read_player_input(k, false, false, false).unwrap().movement, None);
    assert_eq!(read_player_input(k, true, false, false).unwrap().movement, Some(Step { forward: 0, right: -1 }));
}

#[test]
fn opposite_keys_cancel() {
    let k = MovementKeys { move_forward: TAP, move_backward: TAP, ..keys() };
    assert_eq!(read_player_input(k, false, false, false).unwrap().movement, None);
}

#[test]
fn right_turn_wins_over_left_turn() {
    let k = MovementKeys { rotate_left: TAP, rotate_right: TAP, ..keys() };
    assert_eq!(read_player_input(k, false, false, false).unwrap().rotation, Some(Turn::Right));
    let k = MovementKeys { rotate_left: TAP, ..keys() };
    assert_eq!(read_player_input(k, false, false, false).unwrap().rotation, Some(Turn::Left));
}

#[test]
fn busy_player_is_not_listened_to() {
    let k = MovementKeys { move_forward: TAP, rotate_left: TAP, ..keys() };
    assert_eq!(read_player_input(k, true, true, true), None);
}

#[test]
fn resolve_direction_relative_to_facing() {
    assert_eq!(resolve_move_direction(East, 1, 0), East);
    assert_eq!(resolve_move_direction(East, -1, 0), West);
    assert_eq!(resolve_move_direction(East, 0, 1), South);
    assert_eq!(resolve_move_direction(East, 0, -1), North);
    // Diagonal: the forward component wins a tie.
    assert_eq!(resolve_move_direction(North, 1, 1), North);
    assert_eq!(resolve_move_direction(North, -1, -1), South);
}

fn corridor() -> (CellGraph, CellId, CellId) {
    let mut g = CellGraph::new();
    let a = g.add_cell(GridPos::new(0, 0, 0));
    let b = g.add_cell(GridPos::new(0, 0, -1));
    g.connect_cells(a, North, b);
    (g, a, b)
}

#[test]
fn plan_move_through_a_connection() {
    let (g, a, b) = corridor();
    let tf = CellTransform { cell: a, facing: North };
    assert_eq!(
        plan_cell_move(&g, &tf, 1, 0),
        Some(PlannedMove { direction: North, target: b, target_position: GridPos::new(0, 0, -1) })
    );
    let tf = CellTransform { cell: b, facing: North };
    assert_eq!(plan_cell_move(&g, &tf, -1, 0).map(|m| m.target), Some(a));
}

#[test]
fn plan_move_blocked_by_a_wall() {
    let (g, a, _) = corridor();
    let tf = CellTransform { cell: a, facing: North };
    assert_eq!(plan_cell_move(&g, &tf, 0, 1), None);
    assert_eq!(plan_cell_move(&g, &tf, -1, 0), None);
    let tf = CellTransform { cell: CellId(42), facing: North };
    assert_eq!(plan_cell_move(&g, &tf, 1, 0), None);
}

#[test]
fn plan_move_blocked_by_a_dangling_link() {
    let (mut g, a, _) = corridor();
    g.get_cell_mut(a).unwrap().connect(East, CellId(9));
    let tf = CellTransform { cell: a, facing: North };
    assert_eq!(plan_cell_move(&g, &tf, 0, 1), None);
}

#[test]
fn arrive_moves_into_the_target_cell() {
    let mut tf = CellTransform { cell: CellId(0), facing: West };
    let mut target = TargetCell(Some(CellId(3)));
    arrive(&mut tf, &mut target);
    assert_eq!(tf, CellTransform { cell: CellId(3), facing: West });
    assert_eq!(target, TargetCell(None));
    arrive(&mut tf, &mut target);
    assert_eq!(tf.cell, CellId(3));
}

#[test]
fn turning_publishes_and_settles_the_facing() {
    let mut tf = CellTransform { cell: CellId(0), facing: North };
    let mut tfacing = TargetFacing::default();
    begin_turn(&tf, Turn::Left, &mut tfacing);
    assert_eq!(tfacing, TargetFacing(Some(West)));
    begin_turn(&tf, Turn::Right, &mut tfacing);
    assert_eq!(tfacing, TargetFacing(Some(East)));
    settle_turn(&mut tf, East, &mut tfacing);
    assert_eq!(tf.facing, East);
    assert_eq!(tfacing, TargetFacing(None));
    assert_eq!(TargetCell::default(), TargetCell(None));
    assert_eq!(South.turn_left(), East);
}

#[test]
fn a_move_sets_the_target_until_arrival() {
    let mut state = MovementState::Idle;
    let mut tf = CellTransform { cell: CellId(0), facing: North };
    let mut target = TargetCell::default();
    let m = PlannedMove { direction: North, target: CellId(2), target_position: GridPos::new(0, 0, -1) };
    // Idle without a plan: nothing happens.
    step_movement(&mut state, &mut tf, &mut target, None, true);
    assert_eq!(state, MovementState::Idle);
    assert_eq!(target, TargetCell(None));
    // The move begins.
    step_movement(&mut state, &mut tf, &mut target, Some(m), false);
    assert_eq!(state, MovementState::MovingToTarget);
    assert_eq!(target, TargetCell(Some(CellId(2))));
    assert_eq!(tf.cell, CellId(0));
    // Still on the way; a new plan is ignored.
    let other = PlannedMove { direction: East, target: CellId(1), target_position: GridPos::new(1, 0, 0) };
    step_movement(&mut state, &mut tf, &mut target, Some(other), false);
    assert_eq!(state, MovementState::MovingToTarget);
    assert_eq!(target, TargetCell(Some(CellId(2))));
    // Arrival.
    step_movement(&mut state, &mut tf, &mut target, None, true);
    assert_eq!(state, MovementState::Idle);
    assert_eq!(target, TargetCell(None));
    assert_eq!(tf, CellTransform { cell: CellId(2), facing: North });
}

#[test]
fn facing_from_axes_picks_the_nearest_horizontal_direction() {
    assert_eq!(facing_from_axes(true, true, false), East);
    assert_eq!(facing_from_axes(true, false, true), West);
    assert_eq!(facing_from_axes(false, true, true), South);
    assert_eq!(facing_from_axes(false, true, false), North);
}

#[test]
fn a_turn_publishes_its_target_and_settles() {
    let mut tf = CellTransform { cell: CellId(3), facing: North };
    let mut tfac = TargetFacing::default();
    step_turn(&mut tf, &mut tfac, Some(Turn::Right), None);
    assert_eq!(tfac, TargetFacing(Some(East)));
    assert_eq!(tf.facing, North);
    step_turn(&mut tf, &mut tfac, None, None);
    assert_eq!(tfac, TargetFacing(Some(East)));
    step_turn(&mut tf, &mut tfac, None, Some(facing_from_axes(true, true, true)));
    assert_eq!(tfac, TargetFacing(None));
    assert_eq!(tf, CellTransform { cell: CellId(3), facing: East });
    // A turn that starts and settles in one frame.
    step_turn(&mut tf, &mut tfac, Some(Turn::Left), Some(North));
    assert_eq!(tfac, TargetFacing(None));
    assert_eq!(tf.facing, North);
}
