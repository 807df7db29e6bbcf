use vstd::prelude::*;

use crate::random::random_in;

verus! {

/// One of the nine swing directions of a note: eight compass directions and
/// `Omni`, which may be cut from any side.
#[derive(Clone, Copy, Debug, PartialEq, Eq, Structural)]
pub enum CutDirection {
    Up,
    Down,
    Left,
    Right,
    UpLeft,
    UpRight,
    DownLeft,
    DownRight,
    Omni,
}

/// The number of cut directions.
pub const DIRECTION_COUNT: u64 = 9;

/// The numeric code of a direction in the map format.
pub open spec fn code_of(d: CutDirection) -> nat {
    match d {
        CutDirection::Up => 0,
        CutDirection::Down => 1,
        CutDirection::Left => 2,
        CutDirection::Right => 3,
        CutDirection::UpLeft => 4,
        CutDirection::UpRight => 5,
        CutDirection::DownLeft => 6,
        CutDirection::DownRight => 7,
        CutDirection::Omni => 8,
    }
}

/// The direction with code `c`, for `c < 9`.
pub open spec fn direction_of_code(c: nat) -> CutDirection {
    if c == 0 {
        CutDirection::Up
    } else if c == 1 {
        CutDirection::Down
    } else if c == 2 {
        CutDirection::Left
    } else if c == 3 {
        CutDirection::Right
    } else if c == 4 {
        CutDirection::UpLeft
    } else if c == 5 {
        CutDirection::UpRight
    } else if c == 6 {
        CutDirection::DownLeft
    } else if c == 7 {
        CutDirection::DownRight
    } else {
        CutDirection::Omni
    }
}

/// Horizontal unit component of the swing (towards higher lanes is positive).
pub open spec fn dx_of(d: CutDirection) -> int {
    match d {
        CutDirection::Left | CutDirection::UpLeft | CutDirection::DownLeft => -1,
        CutDirection::Right | CutDirection::UpRight | CutDirection::DownRight => 1,
        _ => 0,
    }
}

/// Vertical unit component of the swing (towards higher rows is positive).
pub open spec fn dy_of(d: CutDirection) -> int {
    match d {
        CutDirection::Up | CutDirection::UpLeft | CutDirection::UpRight => 1,
        CutDirection::Down | CutDirection::DownLeft | CutDirection::DownRight => -1,
        _ => 0,
    }
}

/// The direction pointing the other way; `Omni` is its own opposite.
pub open spec fn opposite_of(d: CutDirection) -> CutDirection {
    match d {
        CutDirection::Up => CutDirection::Down,
        CutDirection::Down => CutDirection::Up,
        CutDirection::Left => CutDirection::Right,
        CutDirection::Right => CutDirection::Left,
        CutDirection::UpLeft => CutDirection::DownRight,
        CutDirection::DownRight => CutDirection::UpLeft,
        CutDirection::UpRight => CutDirection::DownLeft,
        CutDirection::DownLeft => CutDirection::UpRight,
        CutDirection::Omni => CutDirection::Omni,
    }
}

/// The nine equally likely successors of a swing. A direction listed several
/// times is that much more likely to follow.
pub open spec fn transitions(d: CutDirection) -> Seq<CutDirection> {
    match d {
        CutDirection::Up => seq![
            CutDirection::Down, CutDirection::Down, CutDirection::Down, CutDirection::Down,
            CutDirection::DownLeft, CutDirection::DownLeft,
            CutDirection::DownRight, CutDirection::DownRight,
            CutDirection::Omni,
        ],
        CutDirection::Down => seq![
            CutDirection::Up, CutDirection::Up, CutDirection::Up, CutDirection::Up,
            CutDirection::UpLeft, CutDirection::UpLeft,
            CutDirection::UpRight, CutDirection::UpRight,
            CutDirection::Omni,
        ],
        CutDirection::Left => seq![
            CutDirection::Right, CutDirection::Right, CutDirection::Right, CutDirection::Right,
            CutDirection::UpRight, CutDirection::UpRight,
            CutDirection::DownRight, CutDirection::DownRight,
            CutDirection::Omni,
        ],
        CutDirection::Right => seq![
            CutDirection::Left, CutDirection::Left, CutDirection::Left, CutDirection::Left,
            CutDirection::UpLeft, CutDirection::UpLeft,
            CutDirection::DownLeft, CutDirection::DownLeft,
            CutDirection::Omni,
        ],
        CutDirection::UpLeft => seq![
            CutDirection::DownRight, CutDirection::DownRight, CutDirection::DownRight,
            CutDirection::DownRight, CutDirection::DownRight,
            CutDirection::Down, CutDirection::Down,
            CutDirection::Omni, CutDirection::Omni,
        ],
        CutDirection::UpRight => seq![
            CutDirection::DownLeft, CutDirection::DownLeft, CutDirection::DownLeft,
            CutDirection::DownLeft, CutDirection::DownLeft,
            CutDirection::Down, CutDirection::Down,
            CutDirection::Omni, CutDirection::Omni,
        ],
        CutDirection::DownLeft => seq![
            CutDirection::UpRight, CutDirection::UpRight, CutDirection::UpRight,
            CutDirection::UpRight, CutDirection::UpRight,
            CutDirection::Up, CutDirection::Up,
            CutDirection::Omni, CutDirection::Omni,
        ],
        CutDirection::DownRight => seq![
            CutDirection::UpLeft, CutDirection::UpLeft, CutDirection::UpLeft,
            CutDirection::UpLeft, CutDirection::UpLeft,
            CutDirection::Up, CutDirection::Up,
            CutDirection::Omni, CutDirection::Omni,
        ],
        CutDirection::Omni => seq![
            CutDirection::Up, CutDirection::Down, CutDirection::Left, CutDirection::Right,
            CutDirection::UpLeft, CutDirection::UpRight,
            CutDirection::DownLeft, CutDirection::DownRight,
            CutDirection::Omni,
        ],
    }
}

impl CutDirection {
    /// The numeric code of the direction in the map format.
    pub fn code(self) -> (r: u64)
        ensures
            r == code_of(self),
    {
        match self {
            CutDirection::Up => 0,
            CutDirection::Down => 1,
            CutDirection::Left => 2,
            CutDirection::Right => 3,
            CutDirection::UpLeft => 4,
            CutDirection::UpRight => 5,
            CutDirection::DownLeft => 6,
            CutDirection::DownRight => 7,
            CutDirection::Omni => 8,
        }
    }

    /// The direction with the given code; `None` for a code outside `0..9`.
    pub fn from_code(c: u64) -> (r: Option<CutDirection>)
        ensures
            r is Some <==> c < DIRECTION_COUNT,
            r is Some ==> r->0 == direction_of_code(c as nat) && code_of(r->0) == c,
    {
        if c == 0 {
            Some(CutDirection::Up)
        } else if c == 1 {
            Some(CutDirection::Down)
        } else if c == 2 {
            Some(CutDirection::Left)
        } else if c == 3 {
            Some(CutDirection::Right)
        } else if c == 4 {
            Some(CutDirection::UpLeft)
        } else if c == 5 {
            Some(CutDirection::UpRight)
        } else if c == 6 {
            Some(CutDirection::DownLeft)
        } else if c == 7 {
            Some(CutDirection::DownRight)
        } else if c == 8 {
            Some(CutDirection::Omni)
        } else {
            None
        }
    }

    /// Horizontal unit component of the swing.
    pub fn dx(self) -> (r: i64)
        ensures
            r == dx_of(self),
    {
        match self {
            CutDirection::Left | CutDirection::UpLeft | CutDirection::DownLeft => -1,
            CutDirection::Right | CutDirection::UpRight | CutDirection::DownRight => 1,
            _ => 0,
        }
    }

    /// Vertical unit component of the swing.
    pub fn dy(self) -> (r: i64)
        ensures
            r == dy_of(self),
    {
        match self {
            CutDirection::Up | CutDirection::UpLeft | CutDirection::UpRight => 1,
            CutDirection::Down | CutDirection::DownLeft | CutDirection::DownRight => -1,
            _ => 0,
        }
    }

    /// The direction pointing the other way.
    pub fn opposite(self) -> (r: CutDirection)
        ensures
            r == opposite_of(self),
    {
        match self {
            CutDirection::Up => CutDirection::Down,
            CutDirection::Down => CutDirection::Up,
            CutDirection::Left => CutDirection::Right,
            CutDirection::Right => CutDirection::Left,
            CutDirection::UpLeft => CutDirection::DownRight,
            CutDirection::DownRight => CutDirection::UpLeft,
            CutDirection::UpRight => CutDirection::DownLeft,
            CutDirection::DownLeft => CutDirection::UpRight,
            CutDirection::Omni => CutDirection::Omni,
        }
    }

    /// Entry `k` of the transition table of this direction.
    pub fn transition(self, k: u64) -> (r: CutDirection)
        requires
            k < DIRECTION_COUNT,
        ensures
            r == transitions(self)[k as int],
    {
        let table: [CutDirection; 9] = match self {
            CutDirection::Up => [
                CutDirection::Down, CutDirection::Down, CutDirection::Down, CutDirection::Down,
                CutDirection::DownLeft, CutDirection::DownLeft,
                CutDirection::DownRight, CutDirection::DownRight,
                CutDirection::Omni,
            ],
            CutDirection::Down => [
                CutDirection::Up, CutDirection::Up, CutDirection::Up, CutDirection::Up,
                CutDirection::UpLeft, CutDirection::UpLeft,
                CutDirection::UpRight, CutDirection::UpRight,
                CutDirection::Omni,
            ],
            CutDirection::Left => [
                CutDirection::Right, CutDirection::Right, CutDirection::Right, CutDirection::Right,
                CutDirection::UpRight, CutDirection::UpRight,
                CutDirection::DownRight, CutDirection::DownRight,
                CutDirection::Omni,
            ],
            CutDirection::Right => [
                CutDirection::Left, CutDirection::Left, CutDirection::Left, CutDirection::Left,
                CutDirection::UpLeft, CutDirection::UpLeft,
                CutDirection::DownLeft, CutDirection::DownLeft,
                CutDirection::Omni,
            ],
            CutDirection::UpLeft => [
                CutDirection::DownRight, CutDirection::DownRight, CutDirection::DownRight,
                CutDirection::DownRight, CutDirection::DownRight,
                CutDirection::Down, CutDirection::Down,
                CutDirection::Omni, CutDirection::Omni,
            ],
            CutDirection::UpRight => [
                CutDirection::DownLeft, CutDirection::DownLeft, CutDirection::DownLeft,
                CutDirection::DownLeft, CutDirection::DownLeft,
                CutDirection::Down, CutDirection::Down,
                CutDirection::Omni, CutDirection::Omni,
            ],
            CutDirection::DownLeft => [
                CutDirection::UpRight, CutDirection::UpRight, CutDirection::UpRight,
                CutDirection::UpRight, CutDirection::UpRight,
                CutDirection::Up, CutDirection::Up,
                CutDirection::Omni, CutDirection::Omni,
            ],
            CutDirection::DownRight => [
                CutDirection::UpLeft, CutDirection::UpLeft, CutDirection::UpLeft,
                CutDirection::UpLeft, CutDirection::UpLeft,
                CutDirection::Up, CutDirection::Up,
                CutDirection::Omni, CutDirection::Omni,
            ],
            CutDirection::Omni => [
                CutDirection::Up, CutDirection::Down, CutDirection::Left, CutDirection::Right,
                CutDirection::UpLeft, CutDirection::UpRight,
                CutDirection::DownLeft, CutDirection::DownRight,
                CutDirection::Omni,
            ],
        };
        assert(table@ =~= transitions(self));
        table[k as usize]
    }
}

/// Draws the swing that follows `d`, uniformly from its transition table.
pub fn get_next_cut(d: CutDirection) -> (r: CutDirection)
    ensures
        transitions(d).contains(r),
{
    let k = random_in(0, DIRECTION_COUNT);
    let r = d.transition(k);
    assert(transitions(d)[k as int] == r);
    r
}

/// Draws one of the nine directions, each with the same chance.
pub fn random_direction() -> CutDirection {
    CutDirection::Omni.transition(random_in(0, DIRECTION_COUNT))
}

/// Turning a direction around twice gives it back, and `Omni` is unchanged
/// by turning it around.
pub proof fn lemma_opposite_involutive(d: CutDirection)
    ensures
        opposite_of(opposite_of(d)) == d,
        opposite_of(CutDirection::Omni) == CutDirection::Omni,
{
}

} // verus!
