use vstd::prelude::*;

use crate::direction::{random_direction, CutDirection};
use crate::pattern::{Hand, NoteTemplate, ObstacleTemplate, PatternTemplate};
use crate::peaks::{beat_time, lemma_beat_time_range, time_sorted, to_beats, PeakEvent, MAX_BEAT_TIME};
use crate::random::random_in;

verus! {

/// A note placed on the map; `time_beats` is in thousandths of a beat.
#[derive(Clone, Debug)]
pub struct PlacedNote {
    pub hand: Hand,
    pub x: u64,
    pub y: u64,
    pub cut_direction: CutDirection,
    pub time_beats: u64,
    pub label: String,
}

/// An obstacle placed on the map; times are in thousandths of a beat.
#[derive(Clone, Copy, Debug, PartialEq, Eq, Structural)]
pub struct PlacedObstacle {
    pub x: u64,
    pub y: u64,
    pub start_beats: u64,
    pub duration_beats: u64,
    pub width: u64,
    pub kind: u64,
}

/// The number of rows a wildcard row is drawn from.
pub const ROW_CHOICES: u64 = 3;

/// The index of the peak `offset` peaks after `anchor`, held to the last peak.
pub open spec fn slot_index(anchor: int, offset: int, len: int) -> int {
    if anchor + offset >= len {
        len - 1
    } else {
        anchor + offset
    }
}

/// The peak that a template entry with offset `offset` lands on.
pub open spec fn slot_peak(beats: Seq<PeakEvent>, anchor: int, offset: int) -> PeakEvent {
    beats[slot_index(anchor, offset, beats.len() as int)]
}

/// The beat time, in thousandths of a beat, of a template entry.
pub open spec fn slot_beats(beats: Seq<PeakEvent>, anchor: int, offset: int, tempo: int) -> int {
    beat_time(slot_peak(beats, anchor, offset).time_ms as int, tempo)
}

/// The hand of a note: its own, or the one drawn for the whole pattern.
pub open spec fn note_hand(t: NoteTemplate, pattern_hand: Hand) -> Hand {
    match t.hand {
        Some(h) => h,
        None => pattern_hand,
    }
}

/// The first lane a wildcard lane of a note of `hand` is drawn from.
pub open spec fn lane_low(hand: Hand) -> int {
    match hand {
        Hand::Right => 2,
        _ => 0,
    }
}

/// How many lanes a wildcard lane of a note of `hand` is drawn from.
pub open spec fn lane_count(hand: Hand) -> int {
    match hand {
        Hand::Bomb => 4,
        _ => 2,
    }
}

/// A fixed coordinate, held on the grid.
pub open spec fn on_grid(v: u64) -> u64 {
    if v > 3 {
        3
    } else {
        v
    }
}

/// The note that template `t` becomes at beat time `time` with the drawn lane
/// offset, row and direction standing in for its wildcards.
pub open spec fn resolved_note(
    t: NoteTemplate,
    pattern_hand: Hand,
    time: int,
    x_draw: int,
    y_draw: int,
    dir_draw: CutDirection,
) -> PlacedNote {
    let hand = note_hand(t, pattern_hand);
    PlacedNote {
        hand,
        x: match t.x {
            Some(v) => on_grid(v),
            None => (lane_low(hand) + x_draw) as u64,
        },
        y: match t.y {
            Some(v) => on_grid(v),
            None => y_draw as u64,
        },
        cut_direction: match t.cut_direction {
            Some(d) => d,
            None => dir_draw,
        },
        time_beats: time as u64,
        label: t.label,
    }
}

/// Whether `n` is a placement of template `t` at beat time `time` for some
/// draw of its wildcards: fixed fields are kept (coordinates held on the
/// grid), a wildcard lane lies in the hand's lanes, a wildcard row on rows 0
/// to 2.
pub open spec fn note_fits(t: NoteTemplate, pattern_hand: Hand, time: int, n: PlacedNote) -> bool {
    let hand = note_hand(t, pattern_hand);
    &&& n.hand == hand
    &&& n.time_beats == time
    &&& n.label == t.label
    &&& n.x <= 3
    &&& n.y <= 3
    &&& t.x matches Some(v) ==> n.x == on_grid(v)
    &&& t.x is None ==> lane_low(hand) <= n.x < lane_low(hand) + lane_count(hand)
    &&& t.y matches Some(v) ==> n.y == on_grid(v)
    &&& t.y is None ==> n.y < ROW_CHOICES
    &&& t.cut_direction matches Some(d) ==> n.cut_direction == d
}

/// Resolves the wildcards of a note template with the given draws: `x_draw`
/// counts lanes from the first lane of the note's hand, `y_draw` is the row.
pub fn resolve_note(
    t: &NoteTemplate,
    pattern_hand: Hand,
    time_beats: u64,
    x_draw: u64,
    y_draw: u64,
    dir_draw: CutDirection,
) -> (r: PlacedNote)
    requires
        x_draw < lane_count(note_hand(*t, pattern_hand)),
        y_draw < ROW_CHOICES,
    ensures
        r == resolved_note(*t, pattern_hand, time_beats as int, x_draw as int, y_draw as int, dir_draw),
        note_fits(*t, pattern_hand, time_beats as int, r),
{
    let hand = match t.hand {
        Some(h) => h,
        None => pattern_hand,
    };
    let x = match t.x {
        Some(v) => if v > 3 {
            3
        } else {
            v
        },
        None => match hand {
            Hand::Right => 2 + x_draw,
            _ => x_draw,
        },
    };
    let y = match t.y {
        Some(v) => if v > 3 {
            3
        } else {
            v
        },
        None => y_draw,
    };
    let cut_direction = match t.cut_direction {
        Some(d) => d,
        None => dir_draw,
    };
    PlacedNote { hand, x, y, cut_direction, time_beats, label: t.label.clone() }
}

/// Places one note template at beat time `time_beats`, drawing its wildcards:
/// the lane among the lanes of its hand, the row among rows 0 to 2, the
/// direction among all nine.
pub fn place_note(t: &NoteTemplate, pattern_hand: Hand, time_beats: u64) -> (r: PlacedNote)
    ensures
        note_fits(*t, pattern_hand, time_beats as int, r),
{
    let hand = match t.hand {
        Some(h) => h,
        None => pattern_hand,
    };
    let lanes: u64 = match hand {
        Hand::Bomb => 4,
        _ => 2,
    };
    let x_draw = random_in(0, lanes);
    let y_draw = random_in(0, ROW_CHOICES);
    let dir_draw = random_direction();
    resolve_note(t, pattern_hand, time_beats, x_draw, y_draw, dir_draw)
}

/// The obstacle that template `o` becomes when it starts at beat time `start`
/// and the pattern's last note falls at `last_note`; `None` where nothing is
/// left of it after its padding.
pub open spec fn placed_obstacle(o: ObstacleTemplate, start: int, last_note: int) -> Option<PlacedObstacle> {
    let d = match o.duration {
        Some(d) => d as int,
        None => last_note - start,
    };
    if d - o.padding > 0 {
        Some(
            PlacedObstacle {
                x: o.x,
                y: o.y,
                start_beats: (start + o.padding) as u64,
                duration_beats: (d - o.padding) as u64,
                width: o.width,
                kind: o.kind,
            },
        )
    } else {
        None
    }
}

/// The beat time of the last note of a pattern placed at `anchor` (zero for a
/// pattern without notes).
pub open spec fn last_note_beats(notes: Seq<NoteTemplate>, beats: Seq<PeakEvent>, anchor: int, tempo: int) -> int {
    if notes.len() == 0 {
        0
    } else {
        slot_beats(beats, anchor, notes.last().time_offset as int, tempo)
    }
}

/// The obstacles that the templates `obs` of a pattern placed at `anchor`
/// become, in order, leaving out those with nothing left after padding.
pub open spec fn placed_obstacles(
    obs: Seq<ObstacleTemplate>,
    beats: Seq<PeakEvent>,
    anchor: int,
    tempo: int,
    last_note: int,
) -> Seq<PlacedObstacle>
    decreases obs.len(),
{
    if obs.len() == 0 {
        Seq::empty()
    } else {
        let rest = placed_obstacles(obs.drop_last(), beats, anchor, tempo, last_note);
        match placed_obstacle(
            obs.last(),
            slot_beats(beats, anchor, obs.last().time_offset as int, tempo),
            last_note,
        ) {
            Some(p) => rest.push(p),
            None => rest,
        }
    }
}

/// The latest time, in milliseconds, of the peaks that the notes of a pattern
/// placed at `anchor` land on (zero when there is no note).
pub open spec fn latest_note_ms(notes: Seq<NoteTemplate>, beats: Seq<PeakEvent>, anchor: int) -> int
    decreases notes.len(),
{
    if notes.len() == 0 {
        0
    } else {
        let t = slot_peak(beats, anchor, notes.last().time_offset as int).time_ms as int;
        let rest = latest_note_ms(notes.drop_last(), beats, anchor);
        if notes.len() > 1 && rest >= t {
            rest
        } else {
            t
        }
    }
}

/// The end time, in milliseconds, after a pattern placed at `anchor`: the
/// latest time its notes touch, or the previous end where it has no note.
pub open spec fn end_after(notes: Seq<NoteTemplate>, beats: Seq<PeakEvent>, anchor: int, prev_end: int) -> int {
    if notes.len() == 0 {
        prev_end
    } else {
        latest_note_ms(notes, beats, anchor)
    }
}

/// Whether `placed` are the notes of `notes` placed at `anchor`, one for one,
/// with `pattern_hand` for wildcard hands.
pub open spec fn notes_placed(
    notes: Seq<NoteTemplate>,
    beats: Seq<PeakEvent>,
    anchor: int,
    tempo: int,
    pattern_hand: Hand,
    placed: Seq<PlacedNote>,
) -> bool {
    &&& placed.len() == notes.len()
    &&& forall|j: int|
        0 <= j < notes.len() ==> note_fits(
            #[trigger] notes[j],
            pattern_hand,
            slot_beats(beats, anchor, notes[j].time_offset as int, tempo),
            placed[j],
        )
}

/// Every obstacle that a pattern's templates become has a positive duration.
pub proof fn lemma_placed_obstacles_positive(
    obs: Seq<ObstacleTemplate>,
    beats: Seq<PeakEvent>,
    anchor: int,
    tempo: int,
    last_note: int,
)
    requires
        0 <= anchor < beats.len(),
        0 <= tempo <= u32::MAX as int,
        0 <= last_note <= MAX_BEAT_TIME,
    ensures
        forall|k: int|
            0 <= k < placed_obstacles(obs, beats, anchor, tempo, last_note).len() ==> #[trigger] placed_obstacles(
                obs,
                beats,
                anchor,
                tempo,
                last_note,
            )[k].duration_beats > 0,
    decreases obs.len(),
{
    if obs.len() > 0 {
        lemma_placed_obstacles_positive(obs.drop_last(), beats, anchor, tempo, last_note);
        let o = obs.last();
        let idx = slot_index(anchor, o.time_offset as int, beats.len() as int);
        lemma_beat_time_range(beats[idx].time_ms as int, tempo);
        let start = slot_beats(beats, anchor, o.time_offset as int, tempo);
        let rest = placed_obstacles(obs.drop_last(), beats, anchor, tempo, last_note);
        let all = placed_obstacles(obs, beats, anchor, tempo, last_note);
        match placed_obstacle(o, start, last_note) {
            Some(p) => {
                assert(all == rest.push(p));
                assert(p.duration_beats > 0);
                assert forall|k: int| 0 <= k < all.len() implies #[trigger] all[k].duration_beats > 0 by {
                    if k < rest.len() {
                        assert(all[k] == rest[k]);
                    }
                }
            },
            None => {
                assert(all == rest);
            },
        }
    }
}

/// On peaks in order of time, the notes of a pattern end no earlier than its
/// anchor, and no note lands after that end.
pub proof fn lemma_latest_note_bounds(notes: Seq<NoteTemplate>, beats: Seq<PeakEvent>, anchor: int)
    requires
        0 <= anchor < beats.len(),
        time_sorted(beats),
    ensures
        notes.len() > 0 ==> latest_note_ms(notes, beats, anchor) >= beats[anchor].time_ms,
        forall|j: int|
            0 <= j < notes.len() ==> latest_note_ms(notes, beats, anchor) >= (#[trigger] slot_peak(
                beats,
                anchor,
                notes[j].time_offset as int,
            )).time_ms,
    decreases notes.len(),
{
    if notes.len() > 0 {
        let rest = notes.drop_last();
        lemma_latest_note_bounds(rest, beats, anchor);
        let idx = slot_index(anchor, notes.last().time_offset as int, beats.len() as int);
        assert(beats[anchor].time_ms <= beats[idx].time_ms);
        assert forall|j: int| 0 <= j < notes.len() implies latest_note_ms(notes, beats, anchor) >= (
        #[trigger] slot_peak(beats, anchor, notes[j].time_offset as int)).time_ms by {
            if j < rest.len() {
                assert(notes[j] == rest[j]);
            }
        }
    }
}

/// Whether note `n` falls on the beat time of a peak at or after peak `from`.
pub open spec fn on_peak(n: PlacedNote, beats: Seq<PeakEvent>, from: int, tempo: int) -> bool {
    exists|i: int| from <= i < beats.len() && n.time_beats == beat_time(#[trigger] beats[i].time_ms as int, tempo)
}

/// The index of the peak a template entry lands on.
fn slot_of(anchor: usize, offset: usize, len: usize) -> (r: usize)
    requires
        anchor < len,
    ensures
        r == slot_index(anchor as int, offset as int, len as int),
        r < len,
{
    if offset >= len - anchor {
        len - 1
    } else {
        anchor + offset
    }
}

/// Places `pattern` with its first slot on peak `anchor`, with `pattern_hand`
/// for the hand of every note that names none: appends its notes to `notes`
/// and the obstacles that keep a positive duration to `obstacles`, and
/// returns the new end time, in milliseconds, from the previous `end_ms`.
pub fn place_pattern(
    pattern: &PatternTemplate,
    pattern_hand: Hand,
    beats: &Vec<PeakEvent>,
    anchor: usize,
    tempo: u32,
    end_ms: u64,
    notes: &mut Vec<PlacedNote>,
    obstacles: &mut Vec<PlacedObstacle>,
) -> (r: u64)
    requires
        anchor < beats@.len(),
    ensures
        final(notes)@.len() == old(notes)@.len() + pattern.notes@.len(),
        final(notes)@.subrange(0, old(notes)@.len() as int) == old(notes)@,
        notes_placed(
            pattern.notes@,
            beats@,
            anchor as int,
            tempo as int,
            pattern_hand,
            final(notes)@.subrange(old(notes)@.len() as int, final(notes)@.len() as int),
        ),
        final(obstacles)@ == old(obstacles)@ + placed_obstacles(
            pattern.obstacles@,
            beats@,
            anchor as int,
            tempo as int,
            last_note_beats(pattern.notes@, beats@, anchor as int, tempo as int),
        ),
        r == end_after(pattern.notes@, beats@, anchor as int, end_ms as int),
        forall|k: int|
            old(obstacles)@.len() <= k < final(obstacles)@.len() ==> #[trigger] final(obstacles)@[k].duration_beats > 0,
        forall|k: int|
            old(notes)@.len() <= k < final(notes)@.len() ==> #[trigger] final(notes)@[k].x <= 3 && final(notes)@[k].y <= 3,
        forall|k: int|
            old(notes)@.len() <= k < final(notes)@.len() ==> on_peak(#[trigger] final(notes)@[k], beats@, anchor as int, tempo as int),
{
    let n = beats.len();
    let start_len = notes.len();
    let mut end: u64 = end_ms;
    let mut last_note: u64 = 0;
    let mut j: usize = 0;
    while j < pattern.notes.len()
        invariant
            n == beats@.len(),
            anchor < n,
            j <= pattern.notes@.len(),
            notes@.len() == start_len + j,
            start_len == old(notes)@.len(),
            notes@.subrange(0, start_len as int) == old(notes)@,
            forall|k: int|
                0 <= k < j ==> note_fits(
                    #[trigger] pattern.notes@[k],
                    pattern_hand,
                    slot_beats(beats@, anchor as int, pattern.notes@[k].time_offset as int, tempo as int),
                    notes@[start_len + k],
                ),
            end == end_after(pattern.notes@.subrange(0, j as int), beats@, anchor as int, end_ms as int),
            last_note == last_note_beats(pattern.notes@.subrange(0, j as int), beats@, anchor as int, tempo as int),
            last_note <= MAX_BEAT_TIME,
        decreases pattern.notes@.len() - j,
    {
        let t = &pattern.notes[j];
        let s = slot_of(anchor, t.time_offset, n);
        let peak_ms = beats[s].time_ms as u64;
        let time = to_beats(peak_ms, tempo);
        let placed = place_note(t, pattern_hand, time);
        let ghost before = notes@;
        notes.push(placed);
        proof {
            let pre = pattern.notes@.subrange(0, j as int);
            let post = pattern.notes@.subrange(0, j + 1);
            assert(post.drop_last() =~= pre);
            assert(post.last() == *t);
            assert forall|k: int| 0 <= k < start_len implies notes@[k] == before[k] by {}
            assert(notes@.subrange(0, start_len as int) =~= before.subrange(0, start_len as int));
        }
        if j == 0 || peak_ms > end {
            end = peak_ms;
        }
        last_note = time;
        j = j + 1;
    }
    proof {
        assert(pattern.notes@.subrange(0, j as int) =~= pattern.notes@);
        let added = notes@.subrange(start_len as int, notes@.len() as int);
        assert forall|k: int| 0 <= k < pattern.notes@.len() implies note_fits(
            #[trigger] pattern.notes@[k],
            pattern_hand,
            slot_beats(beats@, anchor as int, pattern.notes@[k].time_offset as int, tempo as int),
            added[k],
        ) by {
            assert(added[k] == notes@[start_len + k]);
        }
    }
    let ghost obs_start = obstacles@;
    let mut i: usize = 0;
    while i < pattern.obstacles.len()
        invariant
            n == beats@.len(),
            anchor < n,
            i <= pattern.obstacles@.len(),
            last_note == last_note_beats(pattern.notes@, beats@, anchor as int, tempo as int),
            last_note <= MAX_BEAT_TIME,
            obs_start == old(obstacles)@,
            obstacles@ == obs_start + placed_obstacles(
                pattern.obstacles@.subrange(0, i as int),
                beats@,
                anchor as int,
                tempo as int,
                last_note as int,
            ),
        decreases pattern.obstacles@.len() - i,
    {
        let o = &pattern.obstacles[i];
        let s = slot_of(anchor, o.time_offset, n);
        let start = to_beats(beats[s].time_ms as u64, tempo);
        let d: i64 = match o.duration {
            Some(d) => d as i64,
            None => last_note as i64 - start as i64,
        };
        let ghost pre = obstacles@;
        if d - (o.padding as i64) > 0 {
            obstacles.push(
                PlacedObstacle {
                    x: o.x,
                    y: o.y,
                    start_beats: start + o.padding as u64,
                    duration_beats: (d - o.padding as i64) as u64,
                    width: o.width,
                    kind: o.kind,
                },
            );
        }
        proof {
            let post = pattern.obstacles@.subrange(0, i + 1);
            assert(post.drop_last() =~= pattern.obstacles@.subrange(0, i as int));
            assert(post.last() == *o);
            assert(obstacles@ =~= obs_start + placed_obstacles(post, beats@, anchor as int, tempo as int, last_note as int));
        }
        i = i + 1;
    }
    proof {
        assert(pattern.obstacles@.subrange(0, i as int) =~= pattern.obstacles@);
        let added = placed_obstacles(
            pattern.obstacles@,
            beats@,
            anchor as int,
            tempo as int,
            last_note as int,
        );
        lemma_placed_obstacles_positive(pattern.obstacles@, beats@, anchor as int, tempo as int, last_note as int);
        assert forall|k: int| start_len <= k < notes@.len() implies (#[trigger] notes@[k]).x <= 3 && notes@[k].y <= 3
            && on_peak(notes@[k], beats@, anchor as int, tempo as int) by {
            let t = pattern.notes@[k - start_len];
            assert(note_fits(
                t,
                pattern_hand,
                slot_beats(beats@, anchor as int, t.time_offset as int, tempo as int),
                notes@[k],
            ));
            let i = slot_index(anchor as int, t.time_offset as int, beats@.len() as int);
            lemma_beat_time_range(beats@[i].time_ms as int, tempo as int);
            assert(notes@[k].time_beats == beat_time(beats@[i].time_ms as int, tempo as int));
        }
        assert forall|k: int| obs_start.len() <= k < obstacles@.len() implies #[trigger] obstacles@[k].duration_beats
            > 0 by {
            assert(obstacles@[k] == added[k - obs_start.len()]);
        }
    }
    end
}

/// Places `pattern` with its first slot on peak `anchor`, as `place_pattern`
/// does, with one coin flip between the left and the right hand standing for
/// every note of the pattern that names no hand. Returns the new end time and
/// the hand drawn.
pub fn add_pattern(
    pattern: &PatternTemplate,
    beats: &Vec<PeakEvent>,
    anchor: usize,
    tempo: u32,
    end_ms: u64,
    notes: &mut Vec<PlacedNote>,
    obstacles: &mut Vec<PlacedObstacle>,
) -> (r: (u64, Hand))
    requires
        anchor < beats@.len(),
    ensures
        final(notes)@.len() == old(notes)@.len() + pattern.notes@.len(),
        final(notes)@.subrange(0, old(notes)@.len() as int) == old(notes)@,
        r.1 == Hand::Left || r.1 == Hand::Right,
        notes_placed(
            pattern.notes@,
            beats@,
            anchor as int,
            tempo as int,
            r.1,
            final(notes)@.subrange(old(notes)@.len() as int, final(notes)@.len() as int),
        ),
        final(obstacles)@ == old(obstacles)@ + placed_obstacles(
            pattern.obstacles@,
            beats@,
            anchor as int,
            tempo as int,
            last_note_beats(pattern.notes@, beats@, anchor as int, tempo as int),
        ),
        r.0 == end_after(pattern.notes@, beats@, anchor as int, end_ms as int),
        forall|k: int|
            old(obstacles)@.len() <= k < final(obstacles)@.len() ==> #[trigger] final(obstacles)@[k].duration_beats > 0,
        forall|k: int|
            old(notes)@.len() <= k < final(notes)@.len() ==> #[trigger] final(notes)@[k].x <= 3 && final(notes)@[k].y <= 3,
        forall|k: int|
            old(notes)@.len() <= k < final(notes)@.len() ==> on_peak(#[trigger] final(notes)@[k], beats@, anchor as int, tempo as int),
{
    let hand = if random_in(0, 2) == 0 {
        Hand::Left
    } else {
        Hand::Right
    };
    let end = place_pattern(pattern, hand, beats, anchor, tempo, end_ms, notes, obstacles);
    (end, hand)
}

} // verus!
