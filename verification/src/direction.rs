//! The six base directions of the game's math library, their flags, and
//! the three axes.
use vstd::prelude::*;

verus! {

/// One of the six base directions (`VRageMath.Base6Directions.Direction`).
#[derive(Clone, Copy, Debug, PartialEq, Eq, Hash, PartialOrd, Ord, Structural, Default)]
pub enum Direction {
    #[default]
    Forward,
    Backward,
    Left,
    Right,
    Up,
    Down,
}

impl Direction {
    /// The number that stands for the variant.
    pub open spec fn spec_id(self) -> nat {
        match self {
            Direction::Forward => 0,
            Direction::Backward => 1,
            Direction::Left => 2,
            Direction::Right => 3,
            Direction::Up => 4,
            Direction::Down => 5,
        }
    }

    /// The variant a number stands for.
    pub open spec fn spec_from_id(id: nat) -> Option<Direction> {
        if id == 0 {
            Some(Direction::Forward)
        } else if id == 1 {
            Some(Direction::Backward)
        } else if id == 2 {
            Some(Direction::Left)
        } else if id == 3 {
            Some(Direction::Right)
        } else if id == 4 {
            Some(Direction::Up)
        } else if id == 5 {
            Some(Direction::Down)
        } else {
            None
        }
    }

    /// The number that stands for the variant.
    pub fn id(&self) -> (r: u64)
        ensures
            r == self.spec_id(),
    {
        match self {
            Direction::Forward => 0,
            Direction::Backward => 1,
            Direction::Left => 2,
            Direction::Right => 3,
            Direction::Up => 4,
            Direction::Down => 5,
        }
    }

    /// The variant a number stands for.
    pub fn from_id(id: u64) -> (r: Option<Direction>)
        ensures
            r == Direction::spec_from_id(id as nat),
    {
        if id == 0 {
            Some(Direction::Forward)
        } else if id == 1 {
            Some(Direction::Backward)
        } else if id == 2 {
            Some(Direction::Left)
        } else if id == 3 {
            Some(Direction::Right)
        } else if id == 4 {
            Some(Direction::Up)
        } else if id == 5 {
            Some(Direction::Down)
        } else {
            None
        }
    }
}


/// One of the three axes (`VRageMath.Base6Directions.Axis`).
#[derive(Clone, Copy, Debug, PartialEq, Eq, Hash, Structural, Default)]
pub enum Axis {
    #[default]
    ForwardBackward,
    LeftRight,
    UpDown,
}

impl Axis {
    /// The number that stands for the variant.
    pub open spec fn spec_id(self) -> nat {
        match self {
            Axis::ForwardBackward => 0,
            Axis::LeftRight => 1,
            Axis::UpDown => 2,
        }
    }

    /// The variant a number stands for.
    pub open spec fn spec_from_id(id: nat) -> Option<Axis> {
        if id == 0 {
            Some(Axis::ForwardBackward)
        } else if id == 1 {
            Some(Axis::LeftRight)
        } else if id == 2 {
            Some(Axis::UpDown)
        } else {
            None
        }
    }

    /// The number that stands for the variant.
    pub fn id(&self) -> (r: u64)
        ensures
            r == self.spec_id(),
    {
        match self {
            Axis::ForwardBackward => 0,
            Axis::LeftRight => 1,
            Axis::UpDown => 2,
        }
    }

    /// The variant a number stands for.
    pub fn from_id(id: u64) -> (r: Option<Axis>)
        ensures
            r == Axis::spec_from_id(id as nat),
    {
        if id == 0 {
            Some(Axis::ForwardBackward)
        } else if id == 1 {
            Some(Axis::LeftRight)
        } else if id == 2 {
            Some(Axis::UpDown)
        } else {
            None
        }
    }
}


/// A set member of the base directions
/// (`VRageMath.Base6Directions.DirectionFlags`): each direction is one bit
/// of a byte, in declaration order.
#[derive(Clone, Copy, Debug, PartialEq, Eq, Structural, Default)]
pub enum DirectionFlags {
    #[default]
    Forward,
    Backward,
    Left,
    Right,
    Up,
    Down,
}

impl DirectionFlags {
    /// The bit of a flag.
    pub open spec fn spec_bits(self) -> u8 {
        match self {
            DirectionFlags::Forward => 1,
            DirectionFlags::Backward => 2,
            DirectionFlags::Left => 4,
            DirectionFlags::Right => 8,
            DirectionFlags::Up => 16,
            DirectionFlags::Down => 32,
        }
    }

    /// The bit of a flag.
    pub fn bits(&self) -> (b: u8)
        ensures
            b == self.spec_bits(),
    {
        match self {
            DirectionFlags::Forward => 1,
            DirectionFlags::Backward => 2,
            DirectionFlags::Left => 4,
            DirectionFlags::Right => 8,
            DirectionFlags::Up => 16,
            DirectionFlags::Down => 32,
        }
    }
}


/// The number of each base direction: forward 0, backward 1, left 2,
/// right 3, up 4, down 5.
///
/// An identifier names exactly the variant whose identifier it is, and
/// nothing else.
pub proof fn lemma_direction_table()
    ensures
        Direction::Forward.spec_id() == 0,
        Direction::Backward.spec_id() == 1,
        Direction::Left.spec_id() == 2,
        Direction::Right.spec_id() == 3,
        Direction::Up.spec_id() == 4,
        Direction::Down.spec_id() == 5,
        forall|id: nat, v: Direction| #![trigger Direction::spec_from_id(id), v.spec_id()] Direction::spec_from_id(id) == Some(v) <==> v.spec_id() == id,
        forall|id: nat| #[trigger] Direction::spec_from_id(id) is None <==> (forall|v: Direction| v.spec_id() != id),
{
    assert forall|id: nat, v: Direction| #![trigger Direction::spec_from_id(id), v.spec_id()] Direction::spec_from_id(id) == Some(v) <==> v.spec_id() == id by {
        match v {
            Direction::Forward => {},
            Direction::Backward => {},
            Direction::Left => {},
            Direction::Right => {},
            Direction::Up => {},
            Direction::Down => {},
        }
    }
    assert forall|id: nat| #[trigger] Direction::spec_from_id(id) is None <==> (forall|v: Direction| v.spec_id() != id) by {
        if Direction::spec_from_id(id) is None {
            assert forall|v: Direction| v.spec_id() != id by {
                match v {
                    Direction::Forward => {},
                    Direction::Backward => {},
                    Direction::Left => {},
                    Direction::Right => {},
                    Direction::Up => {},
                    Direction::Down => {},
                }
            }
        } else {
            let v = Direction::spec_from_id(id).unwrap();
            assert(v.spec_id() == id);
        }
    }
}

/// The number of each axis: forward-backward 0, left-right 1, up-down 2.
///
/// An identifier names exactly the variant whose identifier it is, and
/// nothing else.
pub proof fn lemma_axis_table()
    ensures
        Axis::ForwardBackward.spec_id() == 0,
        Axis::LeftRight.spec_id() == 1,
        Axis::UpDown.spec_id() == 2,
        forall|id: nat, v: Axis| #![trigger Axis::spec_from_id(id), v.spec_id()] Axis::spec_from_id(id) == Some(v) <==> v.spec_id() == id,
        forall|id: nat| #[trigger] Axis::spec_from_id(id) is None <==> (forall|v: Axis| v.spec_id() != id),
{
    assert forall|id: nat, v: Axis| #![trigger Axis::spec_from_id(id), v.spec_id()] Axis::spec_from_id(id) == Some(v) <==> v.spec_id() == id by {
        match v {
            Axis::ForwardBackward => {},
            Axis::LeftRight => {},
            Axis::UpDown => {},
        }
    }
    assert forall|id: nat| #[trigger] Axis::spec_from_id(id) is None <==> (forall|v: Axis| v.spec_id() != id) by {
        if Axis::spec_from_id(id) is None {
            assert forall|v: Axis| v.spec_id() != id by {
                match v {
                    Axis::ForwardBackward => {},
                    Axis::LeftRight => {},
                    Axis::UpDown => {},
                }
            }
        } else {
            let v = Axis::spec_from_id(id).unwrap();
            assert(v.spec_id() == id);
        }
    }
}

} // verus!
