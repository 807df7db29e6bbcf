use vstd::prelude::*;

use crate::direction::{dx_of, dy_of, get_next_cut, transitions, CutDirection};
use crate::pattern::{Hand, MapError, NoteTemplate, PatternTemplate};
use crate::random::random_in;

verus! {

/// Where a saber last was and how it last swung.
#[derive(Clone, Copy, Debug, PartialEq, Eq, Structural)]
pub struct HandState {
    pub x: u64,
    pub y: u64,
    pub direction: CutDirection,
}

impl HandState {
    /// Whether the position lies on the grid of dynamic patterns.
    pub open spec fn wf(&self) -> bool {
        self.x <= 3 && self.y <= 2
    }
}

/// The fewest note pairs of a dynamic pattern.
pub const MIN_PATTERN_PAIRS: u64 = 4;

/// The most note pairs of a dynamic pattern.
pub const MAX_PATTERN_PAIRS: u64 = 8;

/// How many times the collision pass may move a right-hand note.
pub const MAX_COLLISION_RETRIES: u64 = 16;

/// The move along one axis: the drawn magnitude, in the sense of the swing's
/// unit component, or in the drawn sense where that component is zero.
pub open spec fn step_delta(component: int, positive: bool, magnitude: int) -> int {
    if component > 0 || (component == 0 && positive) {
        magnitude
    } else {
        -magnitude
    }
}

/// `v` limited to `[lo, hi]`.
pub open spec fn clamp(v: int, lo: int, hi: int) -> int {
    if v < lo {
        lo
    } else if v > hi {
        hi
    } else {
        v
    }
}

/// The lane after moving `delta` from `prev`: the left hand stays on lanes 0
/// and 1, the right hand on lanes 2 and 3, and every note on the grid.
pub open spec fn lane_after(hand: Hand, prev: int, delta: int) -> int {
    let v = prev + delta;
    let v = if hand == Hand::Left && v > 1 {
        1
    } else if hand == Hand::Right && v < 2 {
        2
    } else {
        v
    };
    clamp(v, 0, 3)
}

/// The row after moving `delta` from `prev`, kept on rows 0 to 2.
pub open spec fn row_after(prev: int, delta: int) -> int {
    clamp(prev + delta, 0, 2)
}

/// A lane that left the grid re-enters it from the other side.
pub open spec fn wrap_lane(v: int) -> int {
    if v < 0 {
        3
    } else if v > 3 {
        0
    } else {
        v
    }
}

/// A row that left the grid re-enters it from the other side.
pub open spec fn wrap_row(v: int) -> int {
    if v < 0 {
        2
    } else if v > 2 {
        0
    } else {
        v
    }
}

/// The lane for the next note of `hand` swinging `direction` from lane `prev_x`,
/// given the drawn sign and magnitude.
pub fn next_lane(hand: Hand, direction: CutDirection, prev_x: u64, positive: bool, magnitude: u64) -> (r: u64)
    requires
        prev_x <= 3,
        1 <= magnitude <= 2,
    ensures
        r == lane_after(hand, prev_x as int, step_delta(dx_of(direction), positive, magnitude as int)),
{
    let unit = direction.dx();
    let delta: i64 = if unit > 0 || (unit == 0 && positive) {
        magnitude as i64
    } else {
        -(magnitude as i64)
    };
    let mut v: i64 = prev_x as i64 + delta;
    if hand == Hand::Left && v > 1 {
        v = 1;
    } else if hand == Hand::Right && v < 2 {
        v = 2;
    }
    if v < 0 {
        v = 0;
    } else if v > 3 {
        v = 3;
    }
    v as u64
}

/// The row for the next note swinging `direction` from row `prev_y`, given
/// the drawn sign and magnitude.
pub fn next_row(direction: CutDirection, prev_y: u64, positive: bool, magnitude: u64) -> (r: u64)
    requires
        prev_y <= 2,
        1 <= magnitude <= 2,
    ensures
        r == row_after(prev_y as int, step_delta(dy_of(direction), positive, magnitude as int)),
{
    let unit = direction.dy();
    let delta: i64 = if unit > 0 || (unit == 0 && positive) {
        magnitude as i64
    } else {
        -(magnitude as i64)
    };
    let mut v: i64 = prev_y as i64 + delta;
    if v < 0 {
        v = 0;
    } else if v > 2 {
        v = 2;
    }
    v as u64
}

/// Draws the lane of the next note of `hand` swinging `direction` from `prev_x`.
pub fn get_next_x(hand: Hand, direction: CutDirection, prev_x: u64) -> (r: u64)
    requires
        prev_x <= 3,
    ensures
        exists|p: bool, m: int|
            1 <= m <= 2 && r == lane_after(hand, prev_x as int, step_delta(dx_of(direction), p, m)),
        r <= 3,
        hand == Hand::Left ==> r <= 1,
        hand == Hand::Right ==> r >= 2,
{
    let positive = random_in(0, 2) == 1;
    let magnitude = random_in(1, 3);
    let r = next_lane(hand, direction, prev_x, positive, magnitude);
    assert(1 <= magnitude as int <= 2 && r == lane_after(
        hand,
        prev_x as int,
        step_delta(dx_of(direction), positive, magnitude as int),
    ));
    r
}

/// Draws the row of the next note swinging `direction` from `prev_y`.
pub fn get_next_y(direction: CutDirection, prev_y: u64) -> (r: u64)
    requires
        prev_y <= 2,
    ensures
        exists|p: bool, m: int|
            1 <= m <= 2 && r == row_after(prev_y as int, step_delta(dy_of(direction), p, m)),
        r <= 2,
{
    let positive = random_in(0, 2) == 1;
    let magnitude = random_in(1, 3);
    let r = next_row(direction, prev_y, positive, magnitude);
    assert(1 <= magnitude as int <= 2 && r == row_after(
        prev_y as int,
        step_delta(dy_of(direction), positive, magnitude as int),
    ));
    r
}

/// Moves a right-hand note out of the way along its own swing, given the drawn
/// signs and magnitudes; positions that leave the grid wrap around.
pub fn shift_wrapped(
    direction: CutDirection,
    x: u64,
    y: u64,
    x_positive: bool,
    x_magnitude: u64,
    y_positive: bool,
    y_magnitude: u64,
) -> (r: (u64, u64))
    requires
        x <= 3,
        y <= 2,
        1 <= x_magnitude <= 2,
        1 <= y_magnitude <= 2,
    ensures
        r.0 == wrap_lane(x + step_delta(dx_of(direction), x_positive, x_magnitude as int)),
        r.1 == wrap_row(y + step_delta(dy_of(direction), y_positive, y_magnitude as int)),
{
    let ux = direction.dx();
    let dx: i64 = if ux > 0 || (ux == 0 && x_positive) {
        x_magnitude as i64
    } else {
        -(x_magnitude as i64)
    };
    let uy = direction.dy();
    let dy: i64 = if uy > 0 || (uy == 0 && y_positive) {
        y_magnitude as i64
    } else {
        -(y_magnitude as i64)
    };
    let mut nx: i64 = x as i64 + dx;
    let mut ny: i64 = y as i64 + dy;
    if nx < 0 {
        nx = 3;
    } else if nx > 3 {
        nx = 0;
    }
    if ny < 0 {
        ny = 2;
    } else if ny > 2 {
        ny = 0;
    }
    (nx as u64, ny as u64)
}

/// A wrapped move along a lane never lands where it started.
pub proof fn lemma_wrapped_move_leaves_lane(x: int, component: int, positive: bool, magnitude: int)
    requires
        0 <= x <= 3,
        1 <= magnitude <= 2,
    ensures
        wrap_lane(x + step_delta(component, positive, magnitude)) != x,
{
}

/// Moves the right-hand note at `(rx, ry)` off the left-hand note at
/// `(lx, ly)` of the same time slot, if they coincide. Only the right-hand
/// note moves; a note that does not collide stays where it is.
pub fn resolve_collision(lx: u64, ly: u64, rx: u64, ry: u64, direction: CutDirection) -> (r: Result<(u64, u64), MapError>)
    requires
        lx <= 3,
        ly <= 2,
        rx <= 3,
        ry <= 2,
    ensures
        r is Ok,
        r matches Ok(p) ==> p.0 <= 3 && p.1 <= 2 && (p.0 != lx || p.1 != ly),
        (rx != lx || ry != ly) ==> r == Ok::<(u64, u64), MapError>((rx, ry)),
{
    let mut x = rx;
    let mut y = ry;
    let mut tries: u64 = 0;
    while (x == lx && y == ly) && tries < MAX_COLLISION_RETRIES
        invariant
            x <= 3,
            y <= 2,
            tries <= MAX_COLLISION_RETRIES,
            tries > 0 ==> (x != lx || y != ly),
            tries == 0 ==> x == rx && y == ry,
            tries > 0 ==> rx == lx && ry == ly,
        decreases MAX_COLLISION_RETRIES - tries,
    {
        let x_positive = random_in(0, 2) == 1;
        let x_magnitude = random_in(1, 3);
        let y_positive = random_in(0, 2) == 1;
        let y_magnitude = random_in(1, 3);
        let moved = shift_wrapped(direction, x, y, x_positive, x_magnitude, y_positive, y_magnitude);
        proof {
            lemma_wrapped_move_leaves_lane(x as int, dx_of(direction), x_positive, x_magnitude as int);
        }
        x = moved.0;
        y = moved.1;
        tries = tries + 1;
    }
    if x == lx && y == ly {
        Err(MapError::CollisionResolutionExhausted)
    } else {
        Ok((x, y))
    }
}

/// A dynamic pattern with the hand states that its last notes leave behind.
#[derive(Clone, Debug)]
pub struct DynamicPattern {
    pub pattern: PatternTemplate,
    pub left: HandState,
    pub right: HandState,
}

/// The note of the left hand in time slot `i` of a dynamic pattern.
#[verifier::opaque]
pub open spec fn left_at(notes: Seq<NoteTemplate>, i: int) -> NoteTemplate {
    notes[2 * i]
}

/// The note of the right hand in time slot `i` of a dynamic pattern.
#[verifier::opaque]
pub open spec fn right_at(notes: Seq<NoteTemplate>, i: int) -> NoteTemplate {
    notes[2 * i + 1]
}

/// The hand state that a fully fixed note leaves behind.
pub open spec fn state_of(n: NoteTemplate) -> HandState {
    HandState { x: n.x->0, y: n.y->0, direction: n.cut_direction->0 }
}

/// Whether `n` is a fixed note of `hand` in slot `slot` that a saber in state
/// `prev` can reach: its swing is in the transition table of the previous
/// swing and its lane and row are one drawn step away.
#[verifier::opaque]
pub open spec fn follows(prev: HandState, hand: Hand, slot: int, n: NoteTemplate) -> bool {
    &&& n.x is Some
    &&& n.y is Some
    &&& n.cut_direction is Some
    &&& n.hand == Some(hand)
    &&& n.time_offset == slot
    &&& transitions(prev.direction).contains(n.cut_direction->0)
    &&& exists|p: bool, m: int|
        1 <= m <= 2 && n.x->0 == lane_after(
            hand,
            prev.x as int,
            step_delta(dx_of(n.cut_direction->0), p, m),
        )
    &&& exists|p: bool, m: int|
        1 <= m <= 2 && n.y->0 == row_after(
            prev.y as int,
            step_delta(dy_of(n.cut_direction->0), p, m),
        )
    &&& n.x->0 <= 3
    &&& n.y->0 <= 2
}

/// The state of a hand before slot `i`, given its state before the pattern and
/// its notes in the slots before.
#[verifier::opaque]
pub open spec fn left_before(notes: Seq<NoteTemplate>, start: HandState, i: int) -> HandState {
    if i == 0 {
        start
    } else {
        state_of(left_at(notes, i - 1))
    }
}

/// The state of the right hand before slot `i`.
#[verifier::opaque]
pub open spec fn right_before(notes: Seq<NoteTemplate>, start: HandState, i: int) -> HandState {
    if i == 0 {
        start
    } else {
        state_of(right_at(notes, i - 1))
    }
}

/// Whether `notes` is a dynamic pattern of `pairs` time slots for hands that
/// start in `left` and `right`: slot `i` holds a left note then a right note,
/// each reachable from the hand's previous note, and the two never share a
/// grid position.
pub open spec fn dynamic_notes(notes: Seq<NoteTemplate>, pairs: int, left: HandState, right: HandState) -> bool {
    &&& notes.len() == 2 * pairs
    &&& forall|i: int| 0 <= i < pairs ==> follows(left_before(notes, left, i), Hand::Left, i, #[trigger] left_at(notes, i))
    &&& forall|i: int| 0 <= i < pairs ==> follows(right_before(notes, right, i), Hand::Right, i, #[trigger] right_at(notes, i))
    &&& forall|i: int| 0 <= i < pairs ==> apart(#[trigger] left_at(notes, i), right_at(notes, i))
}

/// Whether two notes lie on different grid positions.
pub open spec fn apart(a: NoteTemplate, b: NoteTemplate) -> bool {
    a.x != b.x || a.y != b.y
}

/// Whether `dp` is a dynamic pattern for hands that start in `hands`: four to
/// eight slots of reachable, apart notes, no obstacle, and the hand states of
/// its last notes.
pub open spec fn dynamic_ok(dp: DynamicPattern, hands: (HandState, HandState)) -> bool {
    let notes = dp.pattern.notes@;
    let pairs = notes.len() as int / 2;
    &&& MIN_PATTERN_PAIRS <= pairs <= MAX_PATTERN_PAIRS
    &&& dynamic_notes(notes, pairs, hands.0, hands.1)
    &&& dp.pattern.obstacles@.len() == 0
    &&& dp.left == state_of(left_at(notes, pairs - 1))
    &&& dp.right == state_of(right_at(notes, pairs - 1))
    &&& dp.left.wf()
    &&& dp.right.wf()
}

/// Draws the notes of both hands for slot `slot`, from hands in states `l`
/// and `rt`, and moves the right-hand note off the left-hand one.
fn next_pair(l: HandState, rt: HandState, slot: u64) -> (r: Result<
    (NoteTemplate, NoteTemplate, HandState, HandState),
    MapError,
>)
    requires
        l.wf(),
        rt.wf(),
        slot < MAX_PATTERN_PAIRS,
    ensures
        r is Ok,
        r matches Ok(t) ==> {
            &&& follows(l, Hand::Left, slot as int, t.0)
            &&& follows(rt, Hand::Right, slot as int, t.1)
            &&& apart(t.0, t.1)
            &&& t.2 == state_of(t.0)
            &&& t.3 == state_of(t.1)
            &&& t.2.wf()
            &&& t.3.wf()
        },
{
    let ld = get_next_cut(l.direction);
    let lx = get_next_x(Hand::Left, ld, l.x);
    let ly = get_next_y(ld, l.y);
    let rd = get_next_cut(rt.direction);
    let rx0 = get_next_x(Hand::Right, rd, rt.x);
    let ry0 = get_next_y(rd, rt.y);
    let (rx, ry) = match resolve_collision(lx, ly, rx0, ry0, rd) {
        Ok(p) => p,
        Err(e) => {
            return Err(e);
        },
    };
    let ln = NoteTemplate {
        x: Some(lx),
        y: Some(ly),
        cut_direction: Some(ld),
        hand: Some(Hand::Left),
        time_offset: slot as usize,
        label: String::new(),
    };
    let rn = NoteTemplate {
        x: Some(rx),
        y: Some(ry),
        cut_direction: Some(rd),
        hand: Some(Hand::Right),
        time_offset: slot as usize,
        label: String::new(),
    };
    proof {
        reveal(follows);
        assert(rx == rx0 && ry == ry0);
    }
    Ok((ln, rn, HandState { x: lx, y: ly, direction: ld }, HandState { x: rx, y: ry, direction: rd }))
}

/// Appending one slot to a sequence of whole slots keeps the earlier slots.
proof fn lemma_slots_after_push(old_notes: Seq<NoteTemplate>, i: int, ln: NoteTemplate, rn: NoteTemplate)
    requires
        0 <= i,
        old_notes.len() == 2 * i,
    ensures
        left_at(old_notes.push(ln).push(rn), i) == ln,
        right_at(old_notes.push(ln).push(rn), i) == rn,
        forall|j: int|
            0 <= j < i ==> #[trigger] left_at(old_notes.push(ln).push(rn), j) == left_at(old_notes, j),
        forall|j: int|
            0 <= j < i ==> #[trigger] right_at(old_notes.push(ln).push(rn), j) == right_at(old_notes, j),
{
    reveal(left_at);
    reveal(right_at);
    let notes = old_notes.push(ln).push(rn);
    assert forall|j: int| 0 <= j < i implies #[trigger] left_at(notes, j) == left_at(old_notes, j) by {
        assert(notes[2 * j] == old_notes[2 * j]);
    }
    assert forall|j: int| 0 <= j < i implies #[trigger] right_at(notes, j) == right_at(old_notes, j) by {
        assert(notes[2 * j + 1] == old_notes[2 * j + 1]);
    }
}

/// Appending a slot whose notes follow the hands' last notes and lie apart
/// extends a dynamic pattern by one slot.
proof fn lemma_extend_dynamic(
    old_notes: Seq<NoteTemplate>,
    notes: Seq<NoteTemplate>,
    i: int,
    left: HandState,
    right: HandState,
    ln: NoteTemplate,
    rn: NoteTemplate,
)
    requires
        0 <= i,
        dynamic_notes(old_notes, i, left, right),
        notes == old_notes.push(ln).push(rn),
        follows(left_before(old_notes, left, i), Hand::Left, i, ln),
        follows(right_before(old_notes, right, i), Hand::Right, i, rn),
        apart(ln, rn),
    ensures
        dynamic_notes(notes, i + 1, left, right),
        left_at(notes, i) == ln,
        right_at(notes, i) == rn,
        left_before(notes, left, i + 1) == state_of(ln),
        right_before(notes, right, i + 1) == state_of(rn),
{
    lemma_slots_after_push(old_notes, i, ln, rn);
    assert forall|j: int| 0 <= j < i + 1 implies left_before(notes, left, j) == left_before(
        old_notes,
        left,
        j,
    ) && right_before(notes, right, j) == right_before(old_notes, right, j) by {
        reveal(left_before);
        reveal(right_before);
        if j > 0 {
            assert(left_at(notes, j - 1) == left_at(old_notes, j - 1));
            assert(right_at(notes, j - 1) == right_at(old_notes, j - 1));
        }
    }
    assert forall|j: int| 0 <= j < i + 1 implies follows(
        left_before(notes, left, j),
        Hand::Left,
        j,
        #[trigger] left_at(notes, j),
    ) by {
        assert(left_before(notes, left, j) == left_before(old_notes, left, j));
    }
    assert forall|j: int| 0 <= j < i + 1 implies follows(
        right_before(notes, right, j),
        Hand::Right,
        j,
        #[trigger] right_at(notes, j),
    ) by {
        assert(right_before(notes, right, j) == right_before(old_notes, right, j));
    }
    assert(left_before(notes, left, i + 1) == state_of(ln)) by {
        reveal(left_before);
    }
    assert(right_before(notes, right, i + 1) == state_of(rn)) by {
        reveal(right_before);
    }
    assert forall|j: int| 0 <= j < i + 1 implies apart(#[trigger] left_at(notes, j), right_at(notes, j)) by {
    }
}

/// Builds a fresh pattern of four to eight time slots, each with one note per
/// hand. Each hand's swing follows its previous swing by the transition table
/// and its position moves one drawn step along that swing; the left hand keeps
/// to lanes 0 and 1, the right to lanes 2 and 3, all notes to rows 0 to 2. A
/// collision pass then moves any right-hand note that shares its slot's
/// left-hand position.
pub fn generate_dynamic_pattern(left: HandState, right: HandState) -> (r: Result<DynamicPattern, MapError>)
    requires
        left.wf(),
        right.wf(),
    ensures
        r is Ok,
        r matches Ok(dp) ==> dynamic_ok(dp, (left, right)),
{
    let pairs = random_in(MIN_PATTERN_PAIRS, MAX_PATTERN_PAIRS + 1);
    let mut notes: Vec<NoteTemplate> = Vec::new();
    let mut l = left;
    let mut rt = right;
    let mut i: u64 = 0;
    assert(l == left_before(notes@, left, 0) && rt == right_before(notes@, right, 0)) by {
        reveal(left_before);
        reveal(right_before);
    }
    while i < pairs
        invariant
            i <= pairs <= MAX_PATTERN_PAIRS,
            l.wf(),
            rt.wf(),
            dynamic_notes(notes@, i as int, left, right),
            l == left_before(notes@, left, i as int),
            rt == right_before(notes@, right, i as int),
        decreases pairs - i,
    {
        let (ln, rn, ls, rs) = match next_pair(l, rt, i) {
            Ok(p) => p,
            Err(e) => {
                return Err(e);
            },
        };
        let ghost old_notes = notes@;
        notes.push(ln);
        notes.push(rn);
        proof {
            lemma_extend_dynamic(old_notes, notes@, i as int, left, right, ln, rn);
        }
        l = ls;
        rt = rs;
        i = i + 1;
    }
    proof {
        let ns = notes@;
        assert(ns.len() as int / 2 == pairs as int);
        assert(l == state_of(left_at(ns, pairs - 1)) && rt == state_of(right_at(ns, pairs - 1))) by {
            reveal(left_before);
            reveal(right_before);
        }
    }
    let pattern = PatternTemplate { label: String::new(), notes, obstacles: Vec::new() };
    Ok(DynamicPattern { pattern, left: l, right: rt })
}

/// Note `k` of a dynamic pattern is the left-hand note of slot `k / 2` when
/// `k` is even, and the right-hand note of that slot when `k` is odd.
proof fn lemma_dynamic_note_at(notes: Seq<NoteTemplate>, pairs: int, left: HandState, right: HandState, k: int)
    requires
        dynamic_notes(notes, pairs, left, right),
        0 <= k < notes.len(),
    ensures
        k % 2 == 0 ==> follows(left_before(notes, left, k / 2), Hand::Left, k / 2, notes[k]),
        k % 2 == 1 ==> follows(right_before(notes, right, k / 2), Hand::Right, k / 2, notes[k]),
        k % 2 == 0 ==> notes[k] == left_at(notes, k / 2),
        k % 2 == 1 ==> notes[k] == right_at(notes, k / 2),
{
    reveal(left_at);
    reveal(right_at);
    let i = k / 2;
    assert(0 <= i < pairs);
    if k % 2 == 0 {
        assert(left_at(notes, i) == notes[k]);
    } else {
        assert(right_at(notes, i) == notes[k]);
    }
}

/// Every note of a dynamic pattern has a fixed position on lanes 0 to 3 and
/// rows 0 to 2, and a fixed swing.
pub proof fn lemma_dynamic_notes_on_grid(notes: Seq<NoteTemplate>, pairs: int, left: HandState, right: HandState)
    requires
        dynamic_notes(notes, pairs, left, right),
    ensures
        forall|k: int|
            0 <= k < notes.len() ==> {
                &&& (#[trigger] notes[k]).x is Some
                &&& notes[k].y is Some
                &&& notes[k].cut_direction is Some
                &&& notes[k].x->0 <= 3
                &&& notes[k].y->0 <= 2
            },
{
    reveal(follows);
    assert forall|k: int| 0 <= k < notes.len() implies {
        &&& (#[trigger] notes[k]).x is Some
        &&& notes[k].y is Some
        &&& notes[k].cut_direction is Some
        &&& notes[k].x->0 <= 3
        &&& notes[k].y->0 <= 2
    } by {
        lemma_dynamic_note_at(notes, pairs, left, right, k);
    }
}

/// In a dynamic pattern, a left-hand note and a right-hand note with the same
/// relative time never share a grid position.
pub proof fn lemma_dynamic_no_collision(notes: Seq<NoteTemplate>, pairs: int, left: HandState, right: HandState)
    requires
        dynamic_notes(notes, pairs, left, right),
    ensures
        forall|j: int, k: int|
            0 <= j < notes.len() && 0 <= k < notes.len() && (#[trigger] notes[j]).hand == Some(Hand::Left)
                && (#[trigger] notes[k]).hand == Some(Hand::Right) && notes[j].time_offset
                == notes[k].time_offset ==> notes[j].x != notes[k].x || notes[j].y != notes[k].y,
{
    reveal(follows);
    assert forall|j: int, k: int|
        0 <= j < notes.len() && 0 <= k < notes.len() && (#[trigger] notes[j]).hand == Some(Hand::Left)
            && (#[trigger] notes[k]).hand == Some(Hand::Right) && notes[j].time_offset
            == notes[k].time_offset implies notes[j].x != notes[k].x || notes[j].y != notes[k].y by {
        lemma_dynamic_note_at(notes, pairs, left, right, j);
        lemma_dynamic_note_at(notes, pairs, left, right, k);
        assert(j % 2 == 0);
        assert(k % 2 == 1);
        assert(j / 2 == k / 2);
        assert(apart(left_at(notes, j / 2), right_at(notes, j / 2)));
    }
}

} // verus!
