use maze::direction::{CardinalDirection, GridPos};
use maze::edge::{Edge, EdgeType};

use CardinalDirection::{East, Nadir, North, South, West, Zenith};

#[test]
fn opposite_pairs_and_involution() {
    assert_eq!(North.opposite(), South);
    assert_eq!(South.opposite(), North);
    assert_eq!(East.opposite(), West);
    assert_eq!(West.opposite(), East);
    assert_eq!(Zenith.opposite(), Nadir);
    assert_eq!(Nadir.opposite(), Zenith);
    for d in CardinalDirection::all() {
        assert_eq!(d.opposite().opposite(), d);
    }
}

#[test]
fn all_lists_six_directions_in_order() {
    assert_eq!(CardinalDirection::all(), [North, South, East, West, Zenith, Nadir]);
}

#[test]
fn turns_go_round_clockwise() {
    assert_eq!(North.turn_right(), East);
    assert_eq!(East.turn_right(), South);
    assert_eq!(South.turn_right(), West);
    assert_eq!(West.turn_right(), North);
    assert_eq!(North.turn_left(), West);
    assert_eq!(West.turn_left(), South);
    assert_eq!(South.turn_left(), East);
    assert_eq!(East.turn_left(), North);
}

#[test]
fn turns_keep_zenith_and_nadir() {
    assert_eq!(Zenith.turn_right(), Zenith);
    assert_eq!(Zenith.turn_left(), Zenith);
    assert_eq!(Nadir.turn_right(), Nadir);
    assert_eq!(Nadir.turn_left(), Nadir);
}

#[test]
fn turn_laws_on_every_direction() {
    for d in CardinalDirection::all() {
        assert_eq!(d.turn_left().turn_right(), d);
        assert_eq!(d.turn_right().turn_left(), d);
        if d != Zenith && d != Nadir {
            assert_eq!(d.turn_right().turn_right(), d.opposite());
            assert_eq!(d.turn_right().turn_right().turn_right().turn_right(), d);
        }
    }
}

#[test]
fn unit_steps() {
    assert_eq!(North.to_ivec3(), GridPos::new(0, 0, -1));
    assert_eq!(South.to_ivec3(), GridPos::new(0, 0, 1));
    assert_eq!(East.to_ivec3(), GridPos::new(1, 0, 0));
    assert_eq!(West.to_ivec3(), GridPos::new(-1, 0, 0));
    assert_eq!(Zenith.to_ivec3(), GridPos::new(0, 1, 0));
    assert_eq!(Nadir.to_ivec3(), GridPos::new(0, -1, 0));
    for d in CardinalDirection::all() {
        let a = d.to_ivec3();
        let b = d.opposite().to_ivec3();
        assert_eq!((a.x + b.x, a.y + b.y, a.z + b.z), (0, 0, 0));
    }
}

#[test]
fn step_and_step_back() {
    let p = GridPos::new(2, -1, 5);
    assert_eq!(p.step(East), GridPos::new(3, -1, 5));
    assert_eq!(p.step(North), GridPos::new(2, -1, 4));
    for d in CardinalDirection::all() {
        assert_eq!(p.step(d).step(d.opposite()), p);
    }
}

#[test]
fn edge_constructors() {
    assert_eq!(Edge::wall(), Edge { edge_type: EdgeType::Wall, passable: false });
    assert_eq!(Edge::open(), Edge { edge_type: EdgeType::Open, passable: true });
    assert_eq!(Edge::floor(), Edge { edge_type: EdgeType::Floor, passable: false });
    assert_eq!(Edge::ceiling(), Edge { edge_type: EdgeType::Ceiling, passable: false });
}
