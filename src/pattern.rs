use vstd::prelude::*;

use crate::direction::CutDirection;

verus! {

/// Which saber a note is for; `Bomb` marks a note that must not be cut.
#[derive(Clone, Copy, Debug, PartialEq, Eq, Structural)]
pub enum Hand {
    Left,
    Right,
    Bomb,
}

/// The note type of a hand in the map format.
pub open spec fn hand_code(h: Hand) -> u64 {
    match h {
        Hand::Left => 0,
        Hand::Right => 1,
        Hand::Bomb => 3,
    }
}

impl Hand {
    /// The note type of this hand in the map format.
    pub fn code(self) -> (r: u64)
        ensures
            r == hand_code(self),
            hand_of_type(r as int) == Some(self),
    {
        match self {
            Hand::Left => 0,
            Hand::Right => 1,
            Hand::Bomb => 3,
        }
    }
}

/// A note of a pattern. `None` in a field is a wildcard, resolved when the
/// pattern is placed; `time_offset` counts peaks from the pattern's anchor.
#[derive(Clone, Debug)]
pub struct NoteTemplate {
    pub x: Option<u64>,
    pub y: Option<u64>,
    pub cut_direction: Option<CutDirection>,
    pub hand: Option<Hand>,
    pub time_offset: usize,
    pub label: String,
}

/// An obstacle of a pattern. Durations and padding are in thousandths of a
/// beat; a `None` duration stretches the obstacle to the pattern's last note.
#[derive(Clone, Debug)]
pub struct ObstacleTemplate {
    pub x: u64,
    pub y: u64,
    pub duration: Option<u32>,
    pub padding: u32,
    pub width: u64,
    pub kind: u64,
    pub time_offset: usize,
    pub label: String,
}

/// A reusable group of notes and obstacles with relative timing.
#[derive(Clone, Debug)]
pub struct PatternTemplate {
    pub label: String,
    pub notes: Vec<NoteTemplate>,
    pub obstacles: Vec<ObstacleTemplate>,
}

/// The pattern library, one bin per difficulty tier.
#[derive(Clone, Debug)]
pub struct PatternCatalog {
    pub easy: Vec<PatternTemplate>,
    pub normal: Vec<PatternTemplate>,
    pub hard: Vec<PatternTemplate>,
}

/// A difficulty tier of the catalog.
#[derive(Clone, Copy, Debug, PartialEq, Eq, Structural)]
pub enum Tier {
    Easy,
    Normal,
    Hard,
}

/// What can stop the generation of a map.
#[derive(Clone, Copy, Debug, PartialEq, Eq, Structural)]
pub enum MapError {
    /// A template names a hand or a cut direction outside the closed set.
    MalformedPattern,
    /// The tier chosen for a peak holds no pattern.
    EmptyCatalogTier,
    /// The collision pass of a dynamic pattern ran out of retries.
    CollisionResolutionExhausted,
}

/// Percent of the highest pitch at or under which a peak takes a hard pattern.
pub const HARD_PERCENT: u64 = 25;

/// Percent of the highest pitch at or under which a peak takes a normal pattern.
pub const NORMAL_PERCENT: u64 = 65;

/// The tier for a peak of pitch `pitch` when the loudest peak has `highest`.
pub open spec fn tier_for(pitch: int, highest: int) -> Tier {
    if pitch * 100 <= highest * HARD_PERCENT {
        Tier::Hard
    } else if pitch * 100 <= highest * NORMAL_PERCENT {
        Tier::Normal
    } else {
        Tier::Easy
    }
}

/// The tier of the catalog that a peak of pitch `pitch` draws from.
pub fn select_tier(pitch: u32, highest: u32) -> (r: Tier)
    ensures
        r == tier_for(pitch as int, highest as int),
{
    let p = pitch as u64 * 100;
    if p <= highest as u64 * HARD_PERCENT {
        Tier::Hard
    } else if p <= highest as u64 * NORMAL_PERCENT {
        Tier::Normal
    } else {
        Tier::Easy
    }
}

impl PatternCatalog {
    /// The bin of tier `t`.
    pub open spec fn bin(&self, t: Tier) -> Seq<PatternTemplate> {
        match t {
            Tier::Easy => self.easy@,
            Tier::Normal => self.normal@,
            Tier::Hard => self.hard@,
        }
    }

    /// Whether every tier holds at least one pattern.
    pub open spec fn complete(&self) -> bool {
        &&& self.easy@.len() > 0
        &&& self.normal@.len() > 0
        &&& self.hard@.len() > 0
    }

    /// The patterns of tier `t`.
    pub fn tier(&self, t: Tier) -> (r: &Vec<PatternTemplate>)
        ensures
            r@ == self.bin(t),
    {
        match t {
            Tier::Easy => &self.easy,
            Tier::Normal => &self.normal,
            Tier::Hard => &self.hard,
        }
    }
}

/// The hand that a raw note type stands for: 0 left, 1 right, 3 bomb;
/// a negative type is a wildcard.
pub open spec fn hand_of_type(t: int) -> Option<Hand> {
    if t == 0 {
        Some(Hand::Left)
    } else if t == 1 {
        Some(Hand::Right)
    } else {
        Some(Hand::Bomb)
    }
}

/// Whether a raw note type is a hand, a bomb or a wildcard.
pub open spec fn valid_note_type(t: int) -> bool {
    t < 0 || t == 0 || t == 1 || t == 3
}

/// A coordinate read from a template; negative values are wildcards.
pub open spec fn coordinate_of(v: int) -> Option<u64> {
    if v < 0 {
        None
    } else {
        Some(v as u64)
    }
}

impl NoteTemplate {
    /// Builds a note template from its stored form, in which negative numbers
    /// are wildcards. Fails on a note type other than 0, 1 or 3 and on a cut
    /// direction code above 8.
    pub fn from_raw(
        x: i64,
        y: i64,
        cut_direction: i64,
        note_type: i64,
        time_offset: usize,
        label: String,
    ) -> (r: Result<NoteTemplate, MapError>)
        ensures
            r is Ok <==> valid_note_type(note_type as int) && cut_direction < 9,
            r is Err ==> r->Err_0 == MapError::MalformedPattern,
            r matches Ok(t) ==> {
                &&& t.x == coordinate_of(x as int)
                &&& t.y == coordinate_of(y as int)
                &&& t.hand == (if note_type < 0 { None } else { hand_of_type(note_type as int) })
                &&& cut_direction < 0 ==> t.cut_direction is None
                &&& cut_direction >= 0 ==> t.cut_direction == Some(
                    crate::direction::direction_of_code(cut_direction as nat),
                )
                &&& t.time_offset == time_offset
                &&& t.label == label
            },
    {
        let hand = if note_type < 0 {
            None
        } else if note_type == 0 {
            Some(Hand::Left)
        } else if note_type == 1 {
            Some(Hand::Right)
        } else if note_type == 3 {
            Some(Hand::Bomb)
        } else {
            return Err(MapError::MalformedPattern);
        };
        let dir = if cut_direction < 0 {
            None
        } else {
            match CutDirection::from_code(cut_direction as u64) {
                Some(d) => Some(d),
                None => {
                    return Err(MapError::MalformedPattern);
                },
            }
        };
        let nx = if x < 0 {
            None
        } else {
            Some(x as u64)
        };
        let ny = if y < 0 {
            None
        } else {
            Some(y as u64)
        };
        Ok(NoteTemplate { x: nx, y: ny, cut_direction: dir, hand, time_offset, label })
    }
}

} // verus!
