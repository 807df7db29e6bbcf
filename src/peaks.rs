use vstd::prelude::*;

verus! {

/// A detected onset: its time in milliseconds, an identifier and a
/// nonnegative intensity.
#[derive(Clone, Copy, Debug, PartialEq, Eq, Structural)]
pub struct PeakEvent {
    pub time_ms: u32,
    pub id: u64,
    pub pitch: u32,
}

/// Peaks closer than this to the peak before them are dropped on ingestion.
pub const MIN_BEAT_SPACING_MS: u32 = 50;

/// Percent of the lowest pitch at or under which a peak counts as quiet.
pub const LOW_FLOOR_PERCENT: u64 = 110;

/// Time `ms` (milliseconds) as a beat time in thousandths of a beat, at a
/// tempo given in thousandths of a beat per minute.
pub open spec fn beat_time(ms: int, tempo: int) -> int {
    ms * tempo / 60000
}

/// No beat time that this library computes exceeds this bound.
pub const MAX_BEAT_TIME: u64 = 0x1000_0000_0000_0000;

/// Converts milliseconds to thousandths of a beat at `tempo` thousandths of a
/// beat per minute.
pub fn to_beats(ms: u64, tempo: u32) -> (r: u64)
    requires
        ms <= 2 * (u32::MAX as u64),
    ensures
        r == beat_time(ms as int, tempo as int),
        r <= MAX_BEAT_TIME,
{
    proof {
        assert(0 <= (ms as int) * (tempo as int) <= 2 * (u32::MAX as int) * (u32::MAX as int))
            by (nonlinear_arith)
            requires
                ms <= 2 * (u32::MAX as u64),
                tempo <= u32::MAX,
        ;
    }
    let p: u128 = ms as u128 * tempo as u128;
    (p / 60000) as u64
}

/// Beat times of times and tempos that fit the library's integer types are
/// nonnegative and within `MAX_BEAT_TIME`.
pub proof fn lemma_beat_time_range(ms: int, tempo: int)
    requires
        0 <= ms <= 2 * (u32::MAX as int),
        0 <= tempo <= u32::MAX as int,
    ensures
        0 <= beat_time(ms, tempo) <= MAX_BEAT_TIME,
{
    assert(0 <= ms * tempo <= 2 * (u32::MAX as int) * (u32::MAX as int)) by (nonlinear_arith)
        requires
            0 <= ms <= 2 * (u32::MAX as int),
            0 <= tempo <= u32::MAX as int,
    ;
}

/// A later time never has an earlier beat time.
pub proof fn lemma_beat_time_monotone(a: int, b: int, tempo: int)
    requires
        0 <= a <= b,
        0 <= tempo,
    ensures
        beat_time(a, tempo) <= beat_time(b, tempo),
{
    assert(a * tempo <= b * tempo) by (nonlinear_arith)
        requires
            0 <= a <= b,
            0 <= tempo,
    ;
    vstd::arithmetic::div_mod::lemma_div_is_ordered(a * tempo, b * tempo, 60000);
}

/// Whether a peak of pitch `pitch` is too quiet to anchor a pattern when the
/// quietest peak has pitch `lowest`.
pub open spec fn quiet(pitch: int, lowest: int) -> bool {
    pitch * 100 <= lowest * LOW_FLOOR_PERCENT
}

/// Whether a peak of pitch `pitch` lies at or under the intensity floor.
pub fn is_quiet(pitch: u32, lowest: u32) -> (r: bool)
    ensures
        r == quiet(pitch as int, lowest as int),
{
    pitch as u64 * 100 <= lowest as u64 * LOW_FLOOR_PERCENT
}

/// Whether the peaks come in order of time.
pub open spec fn time_sorted(beats: Seq<PeakEvent>) -> bool {
    forall|i: int, j: int| 0 <= i <= j < beats.len() ==> #[trigger] beats[i].time_ms <= #[trigger] beats[j].time_ms
}

/// Whether peak `i` of the raw series is kept: it is the first, or it comes
/// at least `gap` milliseconds after the raw peak before it.
pub open spec fn spaced(raw: Seq<PeakEvent>, i: int, gap: int) -> bool {
    i == 0 || raw[i].time_ms as int >= raw[i - 1].time_ms as int + gap
}

/// The raw series with every peak dropped that follows its predecessor by
/// less than `gap` milliseconds.
pub open spec fn spaced_peaks(raw: Seq<PeakEvent>, gap: int) -> Seq<PeakEvent>
    decreases raw.len(),
{
    if raw.len() == 0 {
        Seq::empty()
    } else {
        let rest = spaced_peaks(raw.drop_last(), gap);
        if spaced(raw, raw.len() - 1, gap) {
            rest.push(raw.last())
        } else {
            rest
        }
    }
}

/// Dropping peaks from a series in order of time leaves it in order, and no
/// kept peak comes after the last raw one.
pub proof fn lemma_spaced_sorted(raw: Seq<PeakEvent>, gap: int)
    requires
        time_sorted(raw),
    ensures
        time_sorted(spaced_peaks(raw, gap)),
        raw.len() > 0 ==> forall|k: int|
            0 <= k < spaced_peaks(raw, gap).len() ==> #[trigger] spaced_peaks(raw, gap)[k].time_ms
                <= raw.last().time_ms,
    decreases raw.len(),
{
    if raw.len() > 0 {
        let rest = raw.drop_last();
        lemma_spaced_sorted(rest, gap);
        let s = spaced_peaks(raw, gap);
        let r = spaced_peaks(rest, gap);
        if rest.len() > 0 {
            assert(rest.last().time_ms <= raw.last().time_ms);
        } else {
            assert(r.len() == 0);
        }
        assert forall|k: int| 0 <= k < r.len() implies #[trigger] r[k].time_ms <= raw.last().time_ms by {}
        if spaced(raw, raw.len() - 1, gap) {
            assert(s == r.push(raw.last()));
            assert forall|k: int| 0 <= k < s.len() implies #[trigger] s[k].time_ms <= raw.last().time_ms by {
                if k < r.len() {
                    assert(s[k] == r[k]);
                }
            }
            assert forall|a: int, b: int| 0 <= a <= b < s.len() implies #[trigger] s[a].time_ms
                <= #[trigger] s[b].time_ms by {
                if b < r.len() {
                    assert(s[a] == r[a] && s[b] == r[b]);
                } else if a < r.len() {
                    assert(s[a] == r[a]);
                }
            }
        }
    }
}

/// Whether `lowest` and `highest` are the extreme pitches of `beats`
/// (both zero when there is no peak).
pub open spec fn pitch_bounds(beats: Seq<PeakEvent>, lowest: int, highest: int) -> bool {
    if beats.len() == 0 {
        lowest == 0 && highest == 0
    } else {
        &&& forall|i: int| 0 <= i < beats.len() ==> lowest <= #[trigger] beats[i].pitch <= highest
        &&& exists|i: int| 0 <= i < beats.len() && #[trigger] beats[i].pitch == lowest
        &&& exists|i: int| 0 <= i < beats.len() && #[trigger] beats[i].pitch == highest
    }
}

/// A peak series ready for map generation, with its extreme pitches.
#[derive(Clone, Debug)]
pub struct PeakSeries {
    pub beats: Vec<PeakEvent>,
    pub lowest_pitch: u32,
    pub highest_pitch: u32,
}

impl PeakSeries {
    /// Whether the recorded pitches are the extremes of the series.
    pub open spec fn wf(&self) -> bool {
        pitch_bounds(self.beats@, self.lowest_pitch as int, self.highest_pitch as int)
    }
}

/// Ingests raw peaks: keeps the first and drops each later peak that follows
/// the raw peak before it by less than `gap_ms`, and finds the lowest and highest pitch of those kept,
/// in one pass.
pub fn ingest_peaks(raw: &Vec<PeakEvent>, gap_ms: u32) -> (r: PeakSeries)
    ensures
        r.beats@ == spaced_peaks(raw@, gap_ms as int),
        r.wf(),
{
    let mut beats: Vec<PeakEvent> = Vec::new();
    let mut lowest: u32 = 0;
    let mut highest: u32 = 0;
    let mut prev: u32 = 0;
    let mut i: usize = 0;
    while i < raw.len()
        invariant
            0 <= i <= raw@.len(),
            beats@ == spaced_peaks(raw@.subrange(0, i as int), gap_ms as int),
            pitch_bounds(beats@, lowest as int, highest as int),
            i > 0 ==> prev == raw@[i - 1].time_ms,
        decreases raw@.len() - i,
    {
        let p = raw[i];
        let keep = i == 0 || p.time_ms as u64 >= prev as u64 + gap_ms as u64;
        proof {
            let s = raw@.subrange(0, i + 1);
            assert(s.drop_last() =~= raw@.subrange(0, i as int));
            assert(s.last() == p);
            assert(keep == spaced(s, i as int, gap_ms as int));
        }
        if keep {
            let ghost old_beats = beats@;
            let ghost old_low = lowest;
            let ghost old_high = highest;
            if beats.len() == 0 {
                lowest = p.pitch;
                highest = p.pitch;
            } else {
                if p.pitch < lowest {
                    lowest = p.pitch;
                }
                if p.pitch > highest {
                    highest = p.pitch;
                }
            }
            beats.push(p);
            proof {
                let n = old_beats.len() as int;
                assert(beats@[n] == p);
                assert forall|j: int| 0 <= j < n implies beats@[j] == old_beats[j] by {}
                if n > 0 {
                    let jl = choose|j: int| 0 <= j < n && #[trigger] old_beats[j].pitch == old_low;
                    let jh = choose|j: int| 0 <= j < n && #[trigger] old_beats[j].pitch == old_high;
                    if lowest == old_low {
                        assert(beats@[jl].pitch == lowest);
                    } else {
                        assert(beats@[n].pitch == lowest);
                    }
                    if highest == old_high {
                        assert(beats@[jh].pitch == highest);
                    } else {
                        assert(beats@[n].pitch == highest);
                    }
                    assert forall|j: int| 0 <= j < beats@.len() implies lowest <= #[trigger] beats@[j].pitch
                        <= highest by {
                        if j < n {
                            assert(old_beats[j].pitch == beats@[j].pitch);
                        }
                    }
                } else {
                    assert(beats@[0].pitch == lowest);
                }
            }
        }
        prev = p.time_ms;
        i = i + 1;
    }
    assert(raw@.subrange(0, raw@.len() as int) =~= raw@);
    PeakSeries { beats, lowest_pitch: lowest, highest_pitch: highest }
}

} // verus!
