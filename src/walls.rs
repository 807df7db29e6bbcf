use vstd::prelude::*;

use crate::peaks::{beat_time, is_quiet, quiet, to_beats, PeakEvent};
use crate::placement::PlacedObstacle;

verus! {

/// The gap, in milliseconds, kept between a silence span's walls and the
/// peaks around it.
pub const WALL_BUFFER_MS: u32 = 100;

/// The lanes that filler walls stand on.
pub const WALL_LANES: (u64, u64) = (0, 3);

/// The time a silence span ends at, for the peak (or end of song) at `t`
/// milliseconds: `buffer` before it, and never before time zero.
pub open spec fn span_end(t: int, buffer: int) -> int {
    if t >= buffer {
        t - buffer
    } else {
        0
    }
}

/// The filler walls for a silence span from `start_ms` to `end_ms`: one on
/// each outer lane over the span, where the span lasts, in beats, at least
/// twice the buffer and more than nothing; none otherwise.
pub open spec fn span_walls(start_ms: int, end_ms: int, tempo: int, buffer: int) -> Seq<PlacedObstacle> {
    let sb = beat_time(start_ms, tempo);
    let eb = beat_time(end_ms, tempo);
    let d = eb - sb;
    if d > 0 && d >= 2 * beat_time(buffer, tempo) {
        seq![wall(WALL_LANES.0, sb, d), wall(WALL_LANES.1, sb, d)]
    } else {
        Seq::empty()
    }
}

/// A full-height, one-lane filler wall on lane `x`.
pub open spec fn wall(x: u64, start: int, duration: int) -> PlacedObstacle {
    PlacedObstacle { x, y: 0, start_beats: start as u64, duration_beats: duration as u64, width: 1, kind: 0 }
}

/// The start (milliseconds) of the silence span open after `beats`, if any: a
/// span opens, `buffer` after the peak, at a quiet peak while none is open,
/// and closes at the next peak above the floor.
pub open spec fn open_span(beats: Seq<PeakEvent>, lowest: int, buffer: int) -> Option<u64>
    decreases beats.len(),
{
    if beats.len() == 0 {
        None
    } else {
        let s = open_span(beats.drop_last(), lowest, buffer);
        let b = beats.last();
        if quiet(b.pitch as int, lowest) {
            match s {
                None => Some((b.time_ms + buffer) as u64),
                Some(start) => Some(start),
            }
        } else {
            None
        }
    }
}

/// The walls for the spans that peaks of `beats` close.
pub open spec fn closed_walls(beats: Seq<PeakEvent>, lowest: int, tempo: int, buffer: int) -> Seq<PlacedObstacle>
    decreases beats.len(),
{
    if beats.len() == 0 {
        Seq::empty()
    } else {
        let rest = closed_walls(beats.drop_last(), lowest, tempo, buffer);
        let b = beats.last();
        match open_span(beats.drop_last(), lowest, buffer) {
            Some(start) => if !quiet(b.pitch as int, lowest) {
                rest + span_walls(start as int, span_end(b.time_ms as int, buffer), tempo, buffer)
            } else {
                rest
            },
            None => rest,
        }
    }
}

/// All filler walls: those of the spans the peaks close, then those of a span
/// still open at the end of the song, closed there.
pub open spec fn song_walls(beats: Seq<PeakEvent>, lowest: int, tempo: int, buffer: int, song_end: int) -> Seq<
    PlacedObstacle,
> {
    let closed = closed_walls(beats, lowest, tempo, buffer);
    match open_span(beats, lowest, buffer) {
        Some(start) => closed + span_walls(start as int, span_end(song_end, buffer), tempo, buffer),
        None => closed,
    }
}

/// Appends the walls of the silence span from `start_ms` to `end_ms`.
fn push_span(walls: &mut Vec<PlacedObstacle>, start_ms: u64, end_ms: u64, tempo: u32, buffer_ms: u32)
    requires
        start_ms <= 2 * (u32::MAX as u64),
        end_ms <= u32::MAX,
    ensures
        final(walls)@ == old(walls)@ + span_walls(start_ms as int, end_ms as int, tempo as int, buffer_ms as int),
        forall|k: int|
            old(walls)@.len() <= k < final(walls)@.len() ==> #[trigger] final(walls)@[k].duration_beats > 0
                && final(walls)@[k].duration_beats >= 2 * beat_time(buffer_ms as int, tempo as int),
{
    let sb = to_beats(start_ms, tempo);
    let eb = to_beats(end_ms, tempo);
    let bb = to_beats(buffer_ms as u64, tempo);
    let ghost before = walls@;
    if eb > sb && eb - sb >= 2 * bb {
        let d = eb - sb;
        walls.push(PlacedObstacle { x: WALL_LANES.0, y: 0, start_beats: sb, duration_beats: d, width: 1, kind: 0 });
        walls.push(PlacedObstacle { x: WALL_LANES.1, y: 0, start_beats: sb, duration_beats: d, width: 1, kind: 0 });
        assert(walls@ =~= before + span_walls(start_ms as int, end_ms as int, tempo as int, buffer_ms as int));
    } else {
        assert(walls@ =~= before + span_walls(start_ms as int, end_ms as int, tempo as int, buffer_ms as int));
    }
}

/// Scans all of `beats` for silence spans, quiet runs at or under the floor
/// (110% of `lowest`), and returns filler walls for each span that lasts long
/// enough. The end of the song, at `song_end_ms`, closes a span still open.
/// Every wall lasts more than nothing and at least twice the buffer, in beats.
pub fn generate_walls(beats: &Vec<PeakEvent>, lowest: u32, tempo: u32, buffer_ms: u32, song_end_ms: u32) -> (r: Vec<
    PlacedObstacle,
>)
    ensures
        r@ == song_walls(beats@, lowest as int, tempo as int, buffer_ms as int, song_end_ms as int),
        forall|k: int|
            0 <= k < r@.len() ==> #[trigger] r@[k].duration_beats > 0 && r@[k].duration_beats >= 2 * beat_time(
                buffer_ms as int,
                tempo as int,
            ),
{
    let mut walls: Vec<PlacedObstacle> = Vec::new();
    let mut start: Option<u64> = None;
    let mut i: usize = 0;
    while i < beats.len()
        invariant
            i <= beats@.len(),
            start == open_span(beats@.subrange(0, i as int), lowest as int, buffer_ms as int),
            start matches Some(s) ==> s <= 2 * (u32::MAX as u64),
            walls@ == closed_walls(beats@.subrange(0, i as int), lowest as int, tempo as int, buffer_ms as int),
            forall|k: int|
                0 <= k < walls@.len() ==> #[trigger] walls@[k].duration_beats > 0 && walls@[k].duration_beats >= 2
                    * beat_time(buffer_ms as int, tempo as int),
        decreases beats@.len() - i,
    {
        let b = beats[i];
        let q = is_quiet(b.pitch, lowest);
        proof {
            let pre = beats@.subrange(0, i as int);
            let post = beats@.subrange(0, i + 1);
            assert(post.drop_last() =~= pre);
            assert(post.last() == b);
        }
        match start {
            None => {
                if q {
                    start = Some(b.time_ms as u64 + buffer_ms as u64);
                }
            },
            Some(s) => {
                if !q {
                    let end = if b.time_ms >= buffer_ms {
                        b.time_ms - buffer_ms
                    } else {
                        0
                    };
                    push_span(&mut walls, s, end as u64, tempo, buffer_ms);
                    start = None;
                }
            },
        }
        i = i + 1;
    }
    proof {
        assert(beats@.subrange(0, i as int) =~= beats@);
    }
    if let Some(s) = start {
        let end = if song_end_ms >= buffer_ms {
            song_end_ms - buffer_ms
        } else {
            0
        };
        push_span(&mut walls, s, end as u64, tempo, buffer_ms);
    }
    walls
}

} // verus!
