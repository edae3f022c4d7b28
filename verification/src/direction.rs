use vstd::prelude::*;

verus! {

/// An integer position on the maze grid.
#[derive(Debug, Clone, Copy, PartialEq, Eq, Hash, Structural)]
pub struct GridPos {
    pub x: i32,
    pub y: i32,
    pub z: i32,
}

impl GridPos {
    /// Creates a grid position from its three coordinates.
    pub fn new(x: i32, y: i32, z: i32) -> (p: GridPos)
        ensures
            p == (GridPos { x, y, z }),
    {
        GridPos { x, y, z }
    }

    /// The origin of the grid.
    pub fn zero() -> (p: GridPos)
        ensures
            p == (GridPos { x: 0, y: 0, z: 0 }),
    {
        GridPos { x: 0, y: 0, z: 0 }
    }

    /// Whether every coordinate lies strictly between the extreme `i32`
    /// values, so that one unit step in any direction stays representable.
    pub open spec fn steppable(self) -> bool {
        &&& i32::MIN < self.x < i32::MAX
        &&& i32::MIN < self.y < i32::MAX
        &&& i32::MIN < self.z < i32::MAX
    }

    /// The coordinate-wise sum of two positions, as mathematical integers.
    pub open spec fn spec_add(self, other: GridPos) -> (int, int, int) {
        (self.x + other.x, self.y + other.y, self.z + other.z)
    }

    /// The position one unit step away in `dir`.
    pub open spec fn spec_step(self, dir: CardinalDirection) -> GridPos {
        let d = dir.spec_to_ivec3();
        GridPos { x: (self.x + d.x) as i32, y: (self.y + d.y) as i32, z: (self.z + d.z) as i32 }
    }

    /// The position one unit step away in `dir`.
    pub fn step(self, dir: CardinalDirection) -> (p: GridPos)
        requires
            self.steppable(),
        ensures
            p == self.spec_step(dir),
            (p.x as int, p.y as int, p.z as int) == self.spec_add(dir.spec_to_ivec3()),
    {
        let d = dir.to_ivec3();
        GridPos { x: self.x + d.x, y: self.y + d.y, z: self.z + d.z }
    }
}

/// The six faces of a grid cell.
#[derive(Debug, Clone, Copy, PartialEq, Eq, Hash, Structural)]
pub enum CardinalDirection {
    /// Towards -Z.
    North,
    /// Towards +Z.
    South,
    /// Towards +X.
    East,
    /// Towards -X.
    West,
    /// Towards +Y.
    Zenith,
    /// Towards -Y.
    Nadir,
}

impl CardinalDirection {
    pub open spec fn spec_opposite(self) -> CardinalDirection {
        match self {
            CardinalDirection::North => CardinalDirection::South,
            CardinalDirection::South => CardinalDirection::North,
            CardinalDirection::East => CardinalDirection::West,
            CardinalDirection::West => CardinalDirection::East,
            CardinalDirection::Zenith => CardinalDirection::Nadir,
            CardinalDirection::Nadir => CardinalDirection::Zenith,
        }
    }

    /// Returns the opposite direction.
    #[verifier::when_used_as_spec(spec_opposite)]
    pub fn opposite(self) -> (r: CardinalDirection)
        ensures
            r == self.spec_opposite(),
    {
        match self {
            CardinalDirection::North => CardinalDirection::South,
            CardinalDirection::South => CardinalDirection::North,
            CardinalDirection::East => CardinalDirection::West,
            CardinalDirection::West => CardinalDirection::East,
            CardinalDirection::Zenith => CardinalDirection::Nadir,
            CardinalDirection::Nadir => CardinalDirection::Zenith,
        }
    }

    pub open spec fn spec_to_ivec3(self) -> GridPos {
        match self {
            CardinalDirection::North => GridPos { x: 0, y: 0, z: -1i32 },
            CardinalDirection::South => GridPos { x: 0, y: 0, z: 1 },
            CardinalDirection::East => GridPos { x: 1, y: 0, z: 0 },
            CardinalDirection::West => GridPos { x: -1i32, y: 0, z: 0 },
            CardinalDirection::Zenith => GridPos { x: 0, y: 1, z: 0 },
            CardinalDirection::Nadir => GridPos { x: 0, y: -1i32, z: 0 },
        }
    }

    /// The integer unit vector (one grid step) of this direction.
    #[verifier::when_used_as_spec(spec_to_ivec3)]
    pub fn to_ivec3(self) -> (v: GridPos)
        ensures
            v == self.spec_to_ivec3(),
    {
        match self {
            CardinalDirection::North => GridPos { x: 0, y: 0, z: -1 },
            CardinalDirection::South => GridPos { x: 0, y: 0, z: 1 },
            CardinalDirection::East => GridPos { x: 1, y: 0, z: 0 },
            CardinalDirection::West => GridPos { x: -1, y: 0, z: 0 },
            CardinalDirection::Zenith => GridPos { x: 0, y: 1, z: 0 },
            CardinalDirection::Nadir => GridPos { x: 0, y: -1, z: 0 },
        }
    }

    /// The six directions, in the order North, South, East, West, Zenith, Nadir.
    pub open spec fn spec_all() -> Seq<CardinalDirection> {
        seq![
            CardinalDirection::North,
            CardinalDirection::South,
            CardinalDirection::East,
            CardinalDirection::West,
            CardinalDirection::Zenith,
            CardinalDirection::Nadir,
        ]
    }

    /// Returns all six directions.
    pub fn all() -> (r: [CardinalDirection; 6])
        ensures
            r@ == Self::spec_all(),
    {
        let r = [
            CardinalDirection::North,
            CardinalDirection::South,
            CardinalDirection::East,
            CardinalDirection::West,
            CardinalDirection::Zenith,
            CardinalDirection::Nadir,
        ];
        assert(r@ =~= Self::spec_all());
        r
    }

    pub open spec fn spec_turn_right(self) -> CardinalDirection {
        match self {
            CardinalDirection::North => CardinalDirection::East,
            CardinalDirection::East => CardinalDirection::South,
            CardinalDirection::South => CardinalDirection::West,
            CardinalDirection::West => CardinalDirection::North,
            _ => self,
        }
    }

    /// The direction 90 degrees clockwise seen from above; Zenith and Nadir
    /// are left as they are.
    #[verifier::when_used_as_spec(spec_turn_right)]
    pub fn turn_right(self) -> (r: CardinalDirection)
        ensures
            r == self.spec_turn_right(),
    {
        match self {
            CardinalDirection::North => CardinalDirection::East,
            CardinalDirection::East => CardinalDirection::South,
            CardinalDirection::South => CardinalDirection::West,
            CardinalDirection::West => CardinalDirection::North,
            _ => self,
        }
    }

    pub open spec fn spec_turn_left(self) -> CardinalDirection {
        match self {
            CardinalDirection::North => CardinalDirection::West,
            CardinalDirection::West => CardinalDirection::South,
            CardinalDirection::South => CardinalDirection::East,
            CardinalDirection::East => CardinalDirection::North,
            _ => self,
        }
    }

    /// The direction 90 degrees counter-clockwise seen from above; Zenith and
    /// Nadir are left as they are.
    #[verifier::when_used_as_spec(spec_turn_left)]
    pub fn turn_left(self) -> (r: CardinalDirection)
        ensures
            r == self.spec_turn_left(),
    {
        match self {
            CardinalDirection::North => CardinalDirection::West,
            CardinalDirection::West => CardinalDirection::South,
            CardinalDirection::South => CardinalDirection::East,
            CardinalDirection::East => CardinalDirection::North,
            _ => self,
        }
    }

    /// Whether the direction lies in the horizontal plane.
    pub open spec fn is_horizontal(self) -> bool {
        self != CardinalDirection::Zenith && self != CardinalDirection::Nadir
    }
}

/// Taking the opposite direction twice gives back the direction.
pub proof fn lemma_opposite_involutive(d: CardinalDirection)
    ensures
        d.opposite().opposite() == d,
        d.opposite() != d,
{
}

/// A right turn undoes a left turn and a left turn undoes a right turn.
pub proof fn lemma_turns_undo_each_other(d: CardinalDirection)
    ensures
        d.turn_left().turn_right() == d,
        d.turn_right().turn_left() == d,
{
}

/// Two quarter turns the same way face the opposite direction, and four
/// bring the direction back, for every horizontal direction.
pub proof fn lemma_half_and_full_turns(d: CardinalDirection)
    requires
        d.is_horizontal(),
    ensures
        d.turn_right().turn_right() == d.opposite(),
        d.turn_left().turn_left() == d.opposite(),
        d.turn_right().turn_right().turn_right().turn_right() == d,
        d.turn_right() != d,
        d.turn_right() != d.opposite(),
{
}

/// Turning leaves Zenith and Nadir unchanged; turning and reversing keep a
/// horizontal direction horizontal.
pub proof fn lemma_turns_and_the_vertical(d: CardinalDirection)
    ensures
        !d.is_horizontal() ==> d.turn_right() == d && d.turn_left() == d,
        d.is_horizontal() ==> d.turn_right().is_horizontal() && d.turn_left().is_horizontal()
            && d.opposite().is_horizontal(),
{
}

/// The unit step of the opposite direction is the negated unit step.
pub proof fn lemma_opposite_step_negates(d: CardinalDirection)
    ensures
        d.opposite().to_ivec3().x == -d.to_ivec3().x,
        d.opposite().to_ivec3().y == -d.to_ivec3().y,
        d.opposite().to_ivec3().z == -d.to_ivec3().z,
{
}

/// Every direction occurs exactly once in the list of all directions.
pub proof fn lemma_all_lists_each_once(d: CardinalDirection)
    ensures
        CardinalDirection::spec_all().len() == 6,
        CardinalDirection::spec_all().contains(d),
        CardinalDirection::spec_all().no_duplicates(),
{
    let s = CardinalDirection::spec_all();
    let i: int = match d {
        CardinalDirection::North => 0,
        CardinalDirection::South => 1,
        CardinalDirection::East => 2,
        CardinalDirection::West => 3,
        CardinalDirection::Zenith => 4,
        CardinalDirection::Nadir => 5,
    };
    assert(s[i] == d);
}

/// A step in a direction followed by a step in the opposite direction comes
/// back to the starting position.
pub proof fn lemma_step_back(p: GridPos, d: CardinalDirection)
    requires
        p.steppable(),
    ensures
        p.spec_step(d).spec_step(d.opposite()) == p,
{
}

} // verus!
