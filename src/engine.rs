use vstd::prelude::*;

use crate::direction::CutDirection;
use crate::pattern::{select_tier, Hand, MapError, PatternCatalog, PatternTemplate, Tier, tier_for};
use crate::peaks::{
    beat_time, ingest_peaks, is_quiet, lemma_beat_time_monotone, lemma_spaced_sorted, pitch_bounds, quiet, spaced_peaks, time_sorted, PeakEvent,
    MIN_BEAT_SPACING_MS,
};
use crate::placement::{
    add_pattern, end_after, last_note_beats, note_fits, slot_beats, slot_index, slot_peak, latest_note_ms, lemma_latest_note_bounds, notes_placed, on_peak,
    placed_obstacles, PlacedNote, PlacedObstacle,
};
use crate::random::random_in;
use crate::synth::{dynamic_ok, generate_dynamic_pattern, lemma_dynamic_notes_on_grid, DynamicPattern, HandState};
use crate::walls::{generate_walls, song_walls};

verus! {

/// Where the pattern of a placement came from.
#[derive(Clone, Debug)]
pub enum PatternSource {
    /// A pattern built on the spot for the hands' last states.
    Dynamic(DynamicPattern),
    /// Pattern `index` of the catalog bin of a tier.
    Catalog(Tier, usize),
}

/// Where a pattern was placed: the index and time (milliseconds) of its anchor
/// peak, the end time (milliseconds) it left behind, the roll (0 to 99) that
/// chose between a dynamic and a catalog pattern, the hand drawn for its
/// notes without one, the pattern, and the ends of its runs of notes and
/// obstacles in the map (each run starts where the previous placement's ends).
#[derive(Clone, Debug)]
pub struct Placement {
    pub anchor: usize,
    pub anchor_ms: u64,
    pub end_ms: u64,
    pub roll: u64,
    pub hand: Hand,
    pub source: PatternSource,
    pub notes_end: usize,
    pub obstacles_end: usize,
}

/// A generated map: its notes, its obstacles, and where each pattern went.
#[derive(Clone, Debug)]
pub struct MapDocument {
    pub notes: Vec<PlacedNote>,
    pub obstacles: Vec<PlacedObstacle>,
    pub placements: Vec<Placement>,
}

/// Percent chance (a roll of 0 to 99 at or under it) that an anchor takes a
/// dynamic pattern rather than one from the catalog.
pub const DYNAMIC_PATTERN_CHANCE: u64 = 50;

/// The hand states before the first dynamic pattern: both hands on the top
/// row, left on lane 1 and right on lane 2, free to swing any way.
pub open spec fn start_hands() -> (HandState, HandState) {
    (
        HandState { x: 1, y: 2, direction: CutDirection::Omni },
        HandState { x: 2, y: 2, direction: CutDirection::Omni },
    )
}

/// The end time in force before placement `k`: zero before the first.
pub open spec fn end_before(placements: Seq<Placement>, k: int) -> int {
    if k == 0 {
        0
    } else {
        placements[k - 1].end_ms as int
    }
}

/// The index of the first note of placement `k`.
pub open spec fn notes_from(placements: Seq<Placement>, k: int) -> int {
    if k == 0 {
        0
    } else {
        placements[k - 1].notes_end as int
    }
}

/// The index of the first obstacle of placement `k`.
pub open spec fn obstacles_from(placements: Seq<Placement>, k: int) -> int {
    if k == 0 {
        0
    } else {
        placements[k - 1].obstacles_end as int
    }
}

/// The hand states in force before placement `k`: those the last dynamic
/// pattern before it left behind, or the starting states.
pub open spec fn hands_before(placements: Seq<Placement>, k: int) -> (HandState, HandState)
    decreases k,
{
    if k <= 0 {
        start_hands()
    } else {
        match placements[k - 1].source {
            PatternSource::Dynamic(dp) => (dp.left, dp.right),
            PatternSource::Catalog(_, _) => hands_before(placements, k - 1),
        }
    }
}

/// The pattern that a placement put on the map.
pub open spec fn template_of(p: Placement, catalog: PatternCatalog) -> PatternTemplate {
    match p.source {
        PatternSource::Dynamic(dp) => dp.pattern,
        PatternSource::Catalog(tier, index) => catalog.bin(tier)[index as int],
    }
}

/// Whether placement `k` is one step of the assembly pass: a roll at or under
/// `DYNAMIC_PATTERN_CHANCE` took a dynamic pattern built from the hand states
/// in force, a higher roll a pattern of the tier that the anchor's pitch
/// selects; its run of notes places the pattern's notes at its anchor with
/// its drawn hand, its run of obstacles is what the pattern's obstacles
/// become, and its end time follows from the end time in force.
#[verifier::opaque]
pub open spec fn placement_ok(
    placements: Seq<Placement>,
    k: int,
    beats: Seq<PeakEvent>,
    catalog: PatternCatalog,
    highest: int,
    tempo: int,
    notes: Seq<PlacedNote>,
    obstacles: Seq<PlacedObstacle>,
) -> bool {
    let p = placements[k];
    let t = template_of(p, catalog);
    let a = p.anchor as int;
    let ns = notes_from(placements, k);
    let os = obstacles_from(placements, k);
    &&& 0 <= ns <= p.notes_end <= notes.len()
    &&& 0 <= os <= p.obstacles_end <= obstacles.len()
    &&& p.roll < 100
    &&& p.hand == Hand::Left || p.hand == Hand::Right
    &&& notes_placed(t.notes@, beats, a, tempo, p.hand, notes.subrange(ns, p.notes_end as int))
    &&& obstacles.subrange(os, p.obstacles_end as int) == placed_obstacles(
        t.obstacles@,
        beats,
        a,
        tempo,
        last_note_beats(t.notes@, beats, a, tempo),
    )
    &&& p.end_ms == end_after(t.notes@, beats, a, end_before(placements, k))
    &&& match p.source {
        PatternSource::Dynamic(dp) => p.roll <= DYNAMIC_PATTERN_CHANCE && dynamic_ok(
            dp,
            hands_before(placements, k),
        ),
        PatternSource::Catalog(tier, index) => {
            &&& p.roll > DYNAMIC_PATTERN_CHANCE
            &&& tier == tier_for(beats[a].pitch as int, highest)
            &&& index < catalog.bin(tier).len()
        },
    }
}

/// Whether peak `i` anchors one of the placements.
pub open spec fn anchored(placements: Seq<Placement>, i: int) -> bool {
    exists|k: int| 0 <= k < placements.len() && #[trigger] placements[k].anchor == i
}

/// Whether a time `t` at peak `i` falls inside a pattern placed before it.
pub open spec fn covered(placements: Seq<Placement>, i: int, t: int) -> bool {
    exists|k: int| 0 <= k < placements.len() && #[trigger] placements[k].anchor < i && t <= placements[k].end_ms
}

/// Whether the placements over the first `upto` peaks of `beats` are those of
/// the assembly pass: each anchors a peak above the floor and starts after the
/// end time in force, end times never move back, and every peak above the
/// floor either anchors a pattern or lies inside an earlier one (or at time
/// zero, the end time in force before any pattern).
pub open spec fn placements_valid(placements: Seq<Placement>, beats: Seq<PeakEvent>, lowest: int, upto: int) -> bool {
    &&& forall|k: int|
        #![trigger placements[k]]
        0 <= k < placements.len() ==> {
            let p = placements[k];
            &&& p.anchor < upto
            &&& p.anchor_ms == beats[p.anchor as int].time_ms
            &&& !quiet(beats[p.anchor as int].pitch as int, lowest)
            &&& p.anchor_ms > end_before(placements, k)
            &&& p.end_ms >= end_before(placements, k)
        }
    &&& forall|k: int, l: int| 0 <= k < l < placements.len() ==> #[trigger] placements[k].anchor < #[trigger] placements[l].anchor
    &&& forall|i: int|
        0 <= i < upto && !quiet(#[trigger] beats[i].pitch as int, lowest) ==> anchored(placements, i) || covered(
            placements,
            i,
            beats[i].time_ms as int,
        ) || beats[i].time_ms == 0
}

/// Whether every note lies on the grid and every obstacle lasts.
pub open spec fn contents_valid(notes: Seq<PlacedNote>, obstacles: Seq<PlacedObstacle>) -> bool {
    &&& forall|k: int| 0 <= k < notes.len() ==> #[trigger] notes[k].x <= 3 && notes[k].y <= 3
    &&& forall|k: int| 0 <= k < obstacles.len() ==> #[trigger] obstacles[k].duration_beats > 0
}

/// Whether every note falls on the beat time of one of the peaks.
pub open spec fn notes_on_peaks(notes: Seq<PlacedNote>, beats: Seq<PeakEvent>, tempo: int) -> bool {
    forall|k: int| 0 <= k < notes.len() ==> on_peak(#[trigger] notes[k], beats, 0, tempo)
}

/// Whether a map over the first `upto` peaks of `beats` is what the assembly
/// pass makes: valid placements, each a step of the pass, whose runs of notes
/// cover all the notes and whose runs of obstacles start the obstacles.
#[verifier::opaque]
pub open spec fn map_valid(
    pl: Seq<Placement>,
    notes: Seq<PlacedNote>,
    obstacles: Seq<PlacedObstacle>,
    beats: Seq<PeakEvent>,
    catalog: PatternCatalog,
    lowest: int,
    highest: int,
    tempo: int,
    upto: int,
) -> bool {
    &&& placements_valid(pl, beats, lowest, upto)
    &&& forall|k: int|
        0 <= k < pl.len() ==> #[trigger] placement_ok(
            pl,
            k,
            beats,
            catalog,
            highest,
            tempo,
            notes,
            obstacles,
        )
    &&& contents_valid(notes, obstacles)
    &&& notes_on_peaks(notes, beats, tempo)
    &&& notes_from(pl, pl.len() as int) == notes.len()
    &&& obstacles_from(pl, pl.len() as int) <= obstacles.len()
}

/// No pattern starts before the end time recorded by any pattern placed before
/// it: the anchor time of a later placement exceeds the end time of every
/// earlier one.
pub proof fn lemma_placements_disjoint(placements: Seq<Placement>, beats: Seq<PeakEvent>, lowest: int, upto: int)
    requires
        placements_valid(placements, beats, lowest, upto),
    ensures
        forall|k: int, l: int|
            0 <= k < l < placements.len() ==> #[trigger] placements[l].anchor_ms > #[trigger] placements[k].end_ms,
{
    assert forall|k: int, l: int| 0 <= k < l < placements.len() implies #[trigger] placements[l].anchor_ms
        > #[trigger] placements[k].end_ms by {
        lemma_ends_increase(placements, beats, lowest, upto, k, l);
    }
}

/// Along valid placements, the end time in force before placement `l` is no
/// earlier than the end time of any placement `k` before it.
proof fn lemma_ends_increase(placements: Seq<Placement>, beats: Seq<PeakEvent>, lowest: int, upto: int, k: int, l: int)
    requires
        placements_valid(placements, beats, lowest, upto),
        0 <= k < l < placements.len(),
    ensures
        end_before(placements, l) >= placements[k].end_ms,
        placements[l].anchor_ms > placements[k].end_ms,
    decreases l - k,
{
    lemma_valid_at(placements, beats, lowest, upto, l);
    lemma_valid_at(placements, beats, lowest, upto, l - 1);
    if l - 1 > k {
        lemma_ends_increase(placements, beats, lowest, upto, k, l - 1);
    }
}

/// On peaks in order of time, no note of a later pattern comes before a note
/// of an earlier one: note `a` of placement `k` is no later than note `b` of
/// placement `l` whenever `k < l`.
pub proof fn lemma_notes_in_order(
    placements: Seq<Placement>,
    notes: Seq<PlacedNote>,
    obstacles: Seq<PlacedObstacle>,
    beats: Seq<PeakEvent>,
    catalog: PatternCatalog,
    lowest: int,
    highest: int,
    tempo: int,
    upto: int,
    k: int,
    l: int,
    a: int,
    b: int,
)
    requires
        time_sorted(beats),
        0 <= tempo,
        map_valid(placements, notes, obstacles, beats, catalog, lowest, highest, tempo, upto),
        upto <= beats.len(),
        0 <= k < l < placements.len(),
        notes_from(placements, k) <= a < placements[k].notes_end,
        notes_from(placements, l) <= b < placements[l].notes_end,
    ensures
        notes[a].time_beats <= notes[b].time_beats,
{
    assert(placements_valid(placements, beats, lowest, upto) && placement_ok(
        placements,
        k,
        beats,
        catalog,
        highest,
        tempo,
        notes,
        obstacles,
    ) && placement_ok(placements, l, beats, catalog, highest, tempo, notes, obstacles)) by {
        reveal(map_valid);
    }
    lemma_valid_at(placements, beats, lowest, upto, k);
    lemma_valid_at(placements, beats, lowest, upto, l);
    let ms_a = lemma_run_note(placements, k, beats, catalog, highest, tempo, notes, obstacles, a);
    let ms_b = lemma_run_note(placements, l, beats, catalog, highest, tempo, notes, obstacles, b);
    lemma_ends_increase(placements, beats, lowest, upto, k, l);
    lemma_beat_time_monotone(ms_a, ms_b, tempo);
}

/// In a map made by the pass, every note that a dynamic pattern placed lies
/// on lanes 0 to 3 and rows 0 to 2.
pub proof fn lemma_dynamic_notes_in_map(
    placements: Seq<Placement>,
    notes: Seq<PlacedNote>,
    obstacles: Seq<PlacedObstacle>,
    beats: Seq<PeakEvent>,
    catalog: PatternCatalog,
    lowest: int,
    highest: int,
    tempo: int,
    upto: int,
    k: int,
    a: int,
)
    requires
        map_valid(placements, notes, obstacles, beats, catalog, lowest, highest, tempo, upto),
        0 <= k < placements.len(),
        placements[k].source is Dynamic,
        notes_from(placements, k) <= a < placements[k].notes_end,
    ensures
        notes[a].x <= 3,
        notes[a].y <= 2,
{
    assert(placement_ok(placements, k, beats, catalog, highest, tempo, notes, obstacles)) by {
        reveal(map_valid);
    }
    reveal(placement_ok);
    let pk = placements[k];
    let dp = pk.source->Dynamic_0;
    let tk = dp.pattern.notes@;
    let hands = hands_before(placements, k);
    lemma_dynamic_notes_on_grid(tk, tk.len() as int / 2, hands.0, hands.1);
    let j = a - notes_from(placements, k);
    let run = notes.subrange(notes_from(placements, k), pk.notes_end as int);
    assert(run[j] == notes[a]);
    assert(tk[j].y is Some && tk[j].y->0 <= 2);
    assert(note_fits(tk[j], pk.hand, slot_beats(beats, pk.anchor as int, tk[j].time_offset as int, tempo), run[j]));
}

/// On peaks in order of time, note `a` of the run of placement `k` falls on
/// the beat time of a peak time `ms` between the anchor's time and the
/// placement's end time.
proof fn lemma_run_note(
    placements: Seq<Placement>,
    k: int,
    beats: Seq<PeakEvent>,
    catalog: PatternCatalog,
    highest: int,
    tempo: int,
    notes: Seq<PlacedNote>,
    obstacles: Seq<PlacedObstacle>,
    a: int,
) -> (ms: int)
    requires
        time_sorted(beats),
        0 <= k < placements.len(),
        placements[k].anchor < beats.len(),
        placement_ok(placements, k, beats, catalog, highest, tempo, notes, obstacles),
        notes_from(placements, k) <= a < placements[k].notes_end,
    ensures
        0 <= ms,
        beats[placements[k].anchor as int].time_ms <= ms <= placements[k].end_ms,
        notes[a].time_beats == beat_time(ms, tempo),
{
    reveal(placement_ok);
    let pk = placements[k];
    let tk = template_of(pk, catalog).notes@;
    let j = a - notes_from(placements, k);
    let run = notes.subrange(notes_from(placements, k), pk.notes_end as int);
    assert(run[j] == notes[a]);
    assert(note_fits(tk[j], pk.hand, slot_beats(beats, pk.anchor as int, tk[j].time_offset as int, tempo), run[j]));
    lemma_latest_note_bounds(tk, beats, pk.anchor as int);
    let i = slot_index(pk.anchor as int, tk[j].time_offset as int, beats.len() as int);
    assert(beats[pk.anchor as int].time_ms <= beats[i].time_ms);
    let ms = beats[i].time_ms as int;
    assert(slot_peak(beats, pk.anchor as int, tk[j].time_offset as int).time_ms <= latest_note_ms(tk, beats, pk.anchor as int));
    ms
}

/// What valid placements state of placement `k`, the end times around it.
proof fn lemma_valid_at(placements: Seq<Placement>, beats: Seq<PeakEvent>, lowest: int, upto: int, k: int)
    requires
        placements_valid(placements, beats, lowest, upto),
        0 <= k < placements.len(),
    ensures
        placements[k].anchor < upto,
        placements[k].anchor_ms > end_before(placements, k),
        placements[k].end_ms >= end_before(placements, k),
{
    let p = placements[k];
}

/// Appending notes that fall on peaks at or after `anchor` keeps every note on
/// a peak.
proof fn lemma_on_peaks_extend(
    old_notes: Seq<PlacedNote>,
    notes: Seq<PlacedNote>,
    beats: Seq<PeakEvent>,
    tempo: int,
    anchor: int,
)
    requires
        0 <= anchor,
        notes_on_peaks(old_notes, beats, tempo),
        old_notes.len() <= notes.len(),
        notes.subrange(0, old_notes.len() as int) == old_notes,
        forall|k: int| old_notes.len() <= k < notes.len() ==> on_peak(#[trigger] notes[k], beats, anchor, tempo),
    ensures
        notes_on_peaks(notes, beats, tempo),
{
    assert forall|k: int| 0 <= k < notes.len() implies on_peak(#[trigger] notes[k], beats, 0, tempo) by {
        if k < old_notes.len() {
            assert(notes[k] == notes.subrange(0, old_notes.len() as int)[k]);
        } else {
            let i = choose|i: int|
                anchor <= i < beats.len() && notes[k].time_beats == crate::peaks::beat_time(
                    #[trigger] beats[i].time_ms as int,
                    tempo,
                );
            assert(0 <= i < beats.len());
        }
    }
}

/// Appending grid-bound notes and lasting obstacles keeps a map's contents valid.
proof fn lemma_contents_extend(
    old_notes: Seq<PlacedNote>,
    notes: Seq<PlacedNote>,
    old_obstacles: Seq<PlacedObstacle>,
    obstacles: Seq<PlacedObstacle>,
)
    requires
        contents_valid(old_notes, old_obstacles),
        old_notes.len() <= notes.len(),
        notes.subrange(0, old_notes.len() as int) == old_notes,
        forall|k: int| old_notes.len() <= k < notes.len() ==> #[trigger] notes[k].x <= 3 && notes[k].y <= 3,
        old_obstacles.len() <= obstacles.len(),
        obstacles.subrange(0, old_obstacles.len() as int) == old_obstacles,
        forall|k: int| old_obstacles.len() <= k < obstacles.len() ==> #[trigger] obstacles[k].duration_beats > 0,
    ensures
        contents_valid(notes, obstacles),
{
    assert forall|k: int| 0 <= k < notes.len() implies #[trigger] notes[k].x <= 3 && notes[k].y <= 3 by {
        if k < old_notes.len() {
            assert(notes[k] == notes.subrange(0, old_notes.len() as int)[k]);
        }
    }
    assert forall|k: int| 0 <= k < obstacles.len() implies #[trigger] obstacles[k].duration_beats > 0 by {
        if k < old_obstacles.len() {
            assert(obstacles[k] == obstacles.subrange(0, old_obstacles.len() as int)[k]);
        }
    }
}

/// Appending a placement leaves the hand states in force before the earlier
/// ones unchanged.
proof fn lemma_hands_push(placements: Seq<Placement>, p: Placement, k: int)
    requires
        0 <= k <= placements.len(),
    ensures
        hands_before(placements.push(p), k) == hands_before(placements, k),
    decreases k,
{
    if k > 0 {
        assert(placements.push(p)[k - 1] == placements[k - 1]);
        lemma_hands_push(placements, p, k - 1);
    }
}

/// A step of the pass stays one when notes and obstacles are appended to the map.
proof fn lemma_ok_grow(
    placements: Seq<Placement>,
    k: int,
    beats: Seq<PeakEvent>,
    catalog: PatternCatalog,
    highest: int,
    tempo: int,
    notes: Seq<PlacedNote>,
    obstacles: Seq<PlacedObstacle>,
    notes2: Seq<PlacedNote>,
    obstacles2: Seq<PlacedObstacle>,
)
    requires
        0 <= k < placements.len(),
        placement_ok(placements, k, beats, catalog, highest, tempo, notes, obstacles),
        notes.len() <= notes2.len(),
        notes2.subrange(0, notes.len() as int) == notes,
        obstacles.len() <= obstacles2.len(),
        obstacles2.subrange(0, obstacles.len() as int) == obstacles,
    ensures
        placement_ok(placements, k, beats, catalog, highest, tempo, notes2, obstacles2),
{
    reveal(placement_ok);
    let q = placements[k];
    let ns = notes_from(placements, k);
    let os = obstacles_from(placements, k);
    assert(notes2.subrange(ns, q.notes_end as int) =~= notes.subrange(ns, q.notes_end as int));
    assert(obstacles2.subrange(os, q.obstacles_end as int) =~= obstacles.subrange(os, q.obstacles_end as int));
}

/// A step of the pass stays one when a placement is appended after it.
proof fn lemma_ok_push(
    placements: Seq<Placement>,
    p: Placement,
    k: int,
    beats: Seq<PeakEvent>,
    catalog: PatternCatalog,
    highest: int,
    tempo: int,
    notes: Seq<PlacedNote>,
    obstacles: Seq<PlacedObstacle>,
)
    requires
        0 <= k < placements.len(),
        placement_ok(placements, k, beats, catalog, highest, tempo, notes, obstacles),
    ensures
        placement_ok(placements.push(p), k, beats, catalog, highest, tempo, notes, obstacles),
{
    reveal(placement_ok);
    let pl = placements.push(p);
    assert(pl[k] == placements[k]);
    if k > 0 {
        assert(pl[k - 1] == placements[k - 1]);
    }
    lemma_hands_push(placements, p, k);
}

/// Appending lasting obstacles after the runs of the placements keeps a map
/// valid.
proof fn lemma_map_more_obstacles(
    placements: Seq<Placement>,
    notes: Seq<PlacedNote>,
    obstacles: Seq<PlacedObstacle>,
    extra: Seq<PlacedObstacle>,
    beats: Seq<PeakEvent>,
    catalog: PatternCatalog,
    lowest: int,
    highest: int,
    tempo: int,
    upto: int,
)
    requires
        map_valid(placements, notes, obstacles, beats, catalog, lowest, highest, tempo, upto),
        forall|k: int| 0 <= k < extra.len() ==> #[trigger] extra[k].duration_beats > 0,
    ensures
        map_valid(placements, notes, obstacles + extra, beats, catalog, lowest, highest, tempo, upto),
{
    reveal(map_valid);
    let all = obstacles + extra;
    assert(all.subrange(0, obstacles.len() as int) =~= obstacles);
    assert(notes.subrange(0, notes.len() as int) =~= notes);
    assert forall|k: int| 0 <= k < placements.len() implies #[trigger] placement_ok(
        placements,
        k,
        beats,
        catalog,
        highest,
        tempo,
        notes,
        all,
    ) by {
        lemma_ok_grow(placements, k, beats, catalog, highest, tempo, notes, obstacles, notes, all);
    }
    assert forall|k: int| 0 <= k < all.len() implies #[trigger] all[k].duration_beats > 0 by {
        if k >= obstacles.len() {
            assert(all[k] == extra[k - obstacles.len()]);
        } else {
            assert(all[k] == obstacles[k]);
        }
    }
}

/// A placement made from the facts of one step of the pass, appended after
/// the placements whose runs end where its own start, is a step of the pass.
proof fn lemma_new_ok(
    placements: Seq<Placement>,
    p: Placement,
    beats: Seq<PeakEvent>,
    catalog: PatternCatalog,
    highest: int,
    tempo: int,
    old_notes: Seq<PlacedNote>,
    notes: Seq<PlacedNote>,
    old_obstacles: Seq<PlacedObstacle>,
    obstacles: Seq<PlacedObstacle>,
)
    requires
        notes_from(placements, placements.len() as int) == old_notes.len(),
        obstacles_from(placements, placements.len() as int) == old_obstacles.len(),
        p.notes_end == notes.len(),
        p.obstacles_end == obstacles.len(),
        notes.len() == old_notes.len() + template_of(p, catalog).notes@.len(),
        p.roll < 100,
        p.hand == Hand::Left || p.hand == Hand::Right,
        notes_placed(
            template_of(p, catalog).notes@,
            beats,
            p.anchor as int,
            tempo,
            p.hand,
            notes.subrange(old_notes.len() as int, notes.len() as int),
        ),
        obstacles == old_obstacles + placed_obstacles(
            template_of(p, catalog).obstacles@,
            beats,
            p.anchor as int,
            tempo,
            last_note_beats(template_of(p, catalog).notes@, beats, p.anchor as int, tempo),
        ),
        p.end_ms == end_after(
            template_of(p, catalog).notes@,
            beats,
            p.anchor as int,
            end_before(placements, placements.len() as int),
        ),
        match p.source {
            PatternSource::Dynamic(dp) => p.roll <= DYNAMIC_PATTERN_CHANCE && dynamic_ok(
                dp,
                hands_before(placements, placements.len() as int),
            ),
            PatternSource::Catalog(tier, index) => {
                &&& p.roll > DYNAMIC_PATTERN_CHANCE
                &&& tier == tier_for(beats[p.anchor as int].pitch as int, highest)
                &&& index < catalog.bin(tier).len()
            },
        },
    ensures
        placement_ok(
            placements.push(p),
            placements.len() as int,
            beats,
            catalog,
            highest,
            tempo,
            notes,
            obstacles,
        ),
{
    reveal(placement_ok);
    let n = placements.len() as int;
    let pl = placements.push(p);
    assert(pl[n] == p);
    if n > 0 {
        assert(pl[n - 1] == placements[n - 1]);
    }
    lemma_hands_push(placements, p, n);
    assert(obstacles.subrange(old_obstacles.len() as int, obstacles.len() as int) =~= placed_obstacles(
        template_of(p, catalog).obstacles@,
        beats,
        p.anchor as int,
        tempo,
        last_note_beats(template_of(p, catalog).notes@, beats, p.anchor as int, tempo),
    ));
}

/// Appending a step of the pass, with its notes and obstacles, keeps every
/// placement a step of the pass.
proof fn lemma_all_ok_extend(
    placements: Seq<Placement>,
    p: Placement,
    beats: Seq<PeakEvent>,
    catalog: PatternCatalog,
    highest: int,
    tempo: int,
    old_notes: Seq<PlacedNote>,
    notes: Seq<PlacedNote>,
    old_obstacles: Seq<PlacedObstacle>,
    obstacles: Seq<PlacedObstacle>,
)
    requires
        forall|k: int|
            0 <= k < placements.len() ==> #[trigger] placement_ok(
                placements,
                k,
                beats,
                catalog,
                highest,
                tempo,
                old_notes,
                old_obstacles,
            ),
        placement_ok(placements.push(p), placements.len() as int, beats, catalog, highest, tempo, notes, obstacles),
        old_notes.len() <= notes.len(),
        notes.subrange(0, old_notes.len() as int) == old_notes,
        old_obstacles.len() <= obstacles.len(),
        obstacles.subrange(0, old_obstacles.len() as int) == old_obstacles,
    ensures
        forall|k: int|
            0 <= k < placements.len() + 1 ==> #[trigger] placement_ok(
                placements.push(p),
                k,
                beats,
                catalog,
                highest,
                tempo,
                notes,
                obstacles,
            ),
{
    assert forall|k: int| 0 <= k < placements.len() + 1 implies #[trigger] placement_ok(
        placements.push(p),
        k,
        beats,
        catalog,
        highest,
        tempo,
        notes,
        obstacles,
    ) by {
        if k < placements.len() {
            lemma_ok_grow(
                placements,
                k,
                beats,
                catalog,
                highest,
                tempo,
                old_notes,
                old_obstacles,
                notes,
                obstacles,
            );
            lemma_ok_push(placements, p, k, beats, catalog, highest, tempo, notes, obstacles);
        }
    }
}

/// Appending one step of the pass, for peak `i`, to a map valid over the first
/// `i` peaks gives a map valid over the first `i + 1`.
proof fn lemma_map_extend(
    placements: Seq<Placement>,
    p: Placement,
    beats: Seq<PeakEvent>,
    catalog: PatternCatalog,
    lowest: int,
    highest: int,
    tempo: int,
    i: int,
    old_notes: Seq<PlacedNote>,
    notes: Seq<PlacedNote>,
    old_obstacles: Seq<PlacedObstacle>,
    obstacles: Seq<PlacedObstacle>,
)
    requires
        0 <= i < beats.len(),
        map_valid(placements, old_notes, old_obstacles, beats, catalog, lowest, highest, tempo, i),
        obstacles_from(placements, placements.len() as int) == old_obstacles.len(),
        placement_ok(placements.push(p), placements.len() as int, beats, catalog, highest, tempo, notes, obstacles),
        p.anchor == i,
        p.anchor_ms == beats[i].time_ms,
        !quiet(beats[i].pitch as int, lowest),
        p.anchor_ms > end_before(placements, placements.len() as int),
        p.end_ms >= end_before(placements, placements.len() as int),
        p.notes_end == notes.len(),
        p.obstacles_end == obstacles.len(),
        old_notes.len() <= notes.len(),
        notes.subrange(0, old_notes.len() as int) == old_notes,
        old_obstacles.len() <= obstacles.len(),
        obstacles.subrange(0, old_obstacles.len() as int) == old_obstacles,
        forall|k: int| old_notes.len() <= k < notes.len() ==> #[trigger] notes[k].x <= 3 && notes[k].y <= 3,
        forall|k: int| old_obstacles.len() <= k < obstacles.len() ==> #[trigger] obstacles[k].duration_beats > 0,
        forall|k: int| old_notes.len() <= k < notes.len() ==> on_peak(#[trigger] notes[k], beats, i, tempo),
    ensures
        map_valid(placements.push(p), notes, obstacles, beats, catalog, lowest, highest, tempo, i + 1),
        obstacles_from(placements.push(p), placements.len() + 1 as int) == obstacles.len(),
{
    reveal(map_valid);
    let pl = placements.push(p);
    let n = placements.len() as int;
    assert(pl[n] == p);
    lemma_placements_extend(placements, p, beats, lowest, i);
    lemma_all_ok_extend(placements, p, beats, catalog, highest, tempo, old_notes, notes, old_obstacles, obstacles);
    lemma_contents_extend(old_notes, notes, old_obstacles, obstacles);
    lemma_on_peaks_extend(old_notes, notes, beats, tempo, i);
}

/// A placement anchored at peak `i`, above the floor and after the end time in
/// force, extends valid placements over the first `i` peaks to the first `i + 1`.
proof fn lemma_placements_extend(
    placements: Seq<Placement>,
    p: Placement,
    beats: Seq<PeakEvent>,
    lowest: int,
    i: int,
)
    requires
        0 <= i < beats.len(),
        placements_valid(placements, beats, lowest, i),
        p.anchor == i,
        p.anchor_ms == beats[i].time_ms,
        !quiet(beats[i].pitch as int, lowest),
        p.anchor_ms > end_before(placements, placements.len() as int),
        p.end_ms >= end_before(placements, placements.len() as int),
    ensures
        placements_valid(placements.push(p), beats, lowest, i + 1),
{
    let np = placements.push(p);
    let n = placements.len() as int;
    assert(np[n] == p);
    assert forall|k: int| 0 <= k < n implies #[trigger] np[k] == placements[k] by {}
    assert forall|k: int| 0 <= k <= n implies end_before(np, k) == end_before(placements, k) by {
        if k > 0 {
            assert(np[k - 1] == placements[k - 1]);
        }
    }
    assert forall|j: int|
        0 <= j < i + 1 && !quiet(#[trigger] beats[j].pitch as int, lowest) implies anchored(np, j) || covered(
        np,
        j,
        beats[j].time_ms as int,
    ) || beats[j].time_ms == 0 by {
        if j == i {
            assert(np[n].anchor == j);
        } else if anchored(placements, j) {
            let k = choose|k: int| 0 <= k < placements.len() && #[trigger] placements[k].anchor == j;
            assert(np[k].anchor == j);
        } else if covered(placements, j, beats[j].time_ms as int) {
            let k = choose|k: int|
                0 <= k < placements.len() && #[trigger] placements[k].anchor < j && beats[j].time_ms
                    <= placements[k].end_ms;
            assert(np[k].anchor < j);
        }
    }
}

/// A peak that is quiet, or that falls at or before the end time in force,
/// extends valid placements over the first `i` peaks to the first `i + 1`.
proof fn lemma_placements_skip(placements: Seq<Placement>, beats: Seq<PeakEvent>, lowest: int, i: int)
    requires
        0 <= i < beats.len(),
        placements_valid(placements, beats, lowest, i),
        quiet(beats[i].pitch as int, lowest) || beats[i].time_ms <= end_before(
            placements,
            placements.len() as int,
        ),
    ensures
        placements_valid(placements, beats, lowest, i + 1),
{
    let n = placements.len() as int;
    if !quiet(beats[i].pitch as int, lowest) && n > 0 {
        assert(placements[n - 1].anchor < i);
        assert(covered(placements, i, beats[i].time_ms as int));
    }
}

/// A peak that is quiet, or that falls at or before the end time in force,
/// extends a map valid over the first `i` peaks to the first `i + 1`.
proof fn lemma_map_skip(
    placements: Seq<Placement>,
    notes: Seq<PlacedNote>,
    obstacles: Seq<PlacedObstacle>,
    beats: Seq<PeakEvent>,
    catalog: PatternCatalog,
    lowest: int,
    highest: int,
    tempo: int,
    i: int,
)
    requires
        0 <= i < beats.len(),
        map_valid(placements, notes, obstacles, beats, catalog, lowest, highest, tempo, i),
        quiet(beats[i].pitch as int, lowest) || beats[i].time_ms <= end_before(
            placements,
            placements.len() as int,
        ),
    ensures
        map_valid(placements, notes, obstacles, beats, catalog, lowest, highest, tempo, i + 1),
{
    reveal(map_valid);
    lemma_placements_skip(placements, beats, lowest, i);
}

/// One step of the pass at peak `i`: a placement whose pattern was placed at
/// its anchor from the end time in force keeps the map valid.
proof fn lemma_step(
    placements: Seq<Placement>,
    p: Placement,
    beats: Seq<PeakEvent>,
    catalog: PatternCatalog,
    lowest: int,
    highest: int,
    tempo: int,
    i: int,
    old_notes: Seq<PlacedNote>,
    notes: Seq<PlacedNote>,
    old_obstacles: Seq<PlacedObstacle>,
    obstacles: Seq<PlacedObstacle>,
)
    requires
        0 <= i < beats.len(),
        time_sorted(beats),
        map_valid(placements, old_notes, old_obstacles, beats, catalog, lowest, highest, tempo, i),
        obstacles_from(placements, placements.len() as int) == old_obstacles.len(),
        p.anchor == i,
        p.anchor_ms == beats[i].time_ms,
        !quiet(beats[i].pitch as int, lowest),
        p.anchor_ms > end_before(placements, placements.len() as int),
        p.notes_end == notes.len(),
        p.obstacles_end == obstacles.len(),
        p.roll < 100,
        p.hand == Hand::Left || p.hand == Hand::Right,
        notes.len() == old_notes.len() + template_of(p, catalog).notes@.len(),
        notes.subrange(0, old_notes.len() as int) == old_notes,
        notes_placed(
            template_of(p, catalog).notes@,
            beats,
            i,
            tempo,
            p.hand,
            notes.subrange(old_notes.len() as int, notes.len() as int),
        ),
        obstacles == old_obstacles + placed_obstacles(
            template_of(p, catalog).obstacles@,
            beats,
            i,
            tempo,
            last_note_beats(template_of(p, catalog).notes@, beats, i, tempo),
        ),
        p.end_ms == end_after(template_of(p, catalog).notes@, beats, i, end_before(placements, placements.len() as int)),
        forall|k: int| old_notes.len() <= k < notes.len() ==> #[trigger] notes[k].x <= 3 && notes[k].y <= 3,
        forall|k: int| old_obstacles.len() <= k < obstacles.len() ==> #[trigger] obstacles[k].duration_beats > 0,
        forall|k: int| old_notes.len() <= k < notes.len() ==> on_peak(#[trigger] notes[k], beats, i, tempo),
        match p.source {
            PatternSource::Dynamic(dp) => p.roll <= DYNAMIC_PATTERN_CHANCE && dynamic_ok(
                dp,
                hands_before(placements, placements.len() as int),
            ),
            PatternSource::Catalog(tier, index) => {
                &&& p.roll > DYNAMIC_PATTERN_CHANCE
                &&& tier == tier_for(beats[i].pitch as int, highest)
                &&& index < catalog.bin(tier).len()
            },
        },
    ensures
        map_valid(placements.push(p), notes, obstacles, beats, catalog, lowest, highest, tempo, i + 1),
        obstacles_from(placements.push(p), placements.len() + 1 as int) == obstacles.len(),
        p.end_ms >= end_before(placements, placements.len() as int),
{
    reveal(map_valid);
    lemma_latest_note_bounds(template_of(p, catalog).notes@, beats, i);
    assert(obstacles.subrange(0, old_obstacles.len() as int) =~= old_obstacles);
    lemma_new_ok(placements, p, beats, catalog, highest, tempo, old_notes, notes, old_obstacles, obstacles);
    lemma_map_extend(
        placements,
        p,
        beats,
        catalog,
        lowest,
        highest,
        tempo,
        i,
        old_notes,
        notes,
        old_obstacles,
        obstacles,
    );
}

/// Runs the assembly pass over `beats`, which come in order of time: each
/// peak above the floor (110% of `lowest`) that comes after the end time in
/// force anchors a new pattern, either a dynamic one (a roll of 0 to 99 at or
/// under `DYNAMIC_PATTERN_CHANCE`) built from the hand states the last dynamic
/// pattern left, or one drawn from the catalog tier that its pitch selects
/// against `highest`. Fails only where the tier drawn for an anchor is empty.
pub fn generate_map(
    beats: &Vec<PeakEvent>,
    catalog: &PatternCatalog,
    lowest: u32,
    highest: u32,
    tempo: u32,
) -> (r: Result<MapDocument, MapError>)
    requires
        time_sorted(beats@),
    ensures
        catalog.complete() ==> r is Ok,
        r is Err ==> {
            &&& r->Err_0 == MapError::EmptyCatalogTier
            &&& !catalog.complete()
            &&& exists|i: int|
                0 <= i < beats@.len() && !quiet(#[trigger] beats@[i].pitch as int, lowest as int)
                    && catalog.bin(tier_for(beats@[i].pitch as int, highest as int)).len() == 0
        },
        r matches Ok(doc) ==> {
            &&& map_valid(
                doc.placements@,
                doc.notes@,
                doc.obstacles@,
                beats@,
                *catalog,
                lowest as int,
                highest as int,
                tempo as int,
                beats@.len() as int,
            )
            &&& obstacles_from(doc.placements@, doc.placements@.len() as int) == doc.obstacles@.len()
        },
{
    let mut notes: Vec<PlacedNote> = Vec::new();
    let mut obstacles: Vec<PlacedObstacle> = Vec::new();
    let mut placements: Vec<Placement> = Vec::new();
    let mut end: u64 = 0;
    let mut left = HandState { x: 1, y: 2, direction: CutDirection::Omni };
    let mut right = HandState { x: 2, y: 2, direction: CutDirection::Omni };
    let mut i: usize = 0;
    proof {
        reveal(map_valid);
    }
    while i < beats.len()
        invariant
            i <= beats@.len(),
            time_sorted(beats@),
            left.wf(),
            right.wf(),
            (left, right) == hands_before(placements@, placements@.len() as int),
            map_valid(
                placements@,
                notes@,
                obstacles@,
                beats@,
                *catalog,
                lowest as int,
                highest as int,
                tempo as int,
                i as int,
            ),
            obstacles_from(placements@, placements@.len() as int) == obstacles@.len(),
            end as int == end_before(placements@, placements@.len() as int),
        decreases beats@.len() - i,
    {
        let beat = beats[i];
        if !is_quiet(beat.pitch, lowest) && beat.time_ms as u64 > end {
            let ghost old_notes = notes@;
            let ghost old_obstacles = obstacles@;
            let ghost old_placements = placements@;
            let ghost n = old_placements.len() as int;
            let roll = random_in(0, 100);
            let p = if roll <= DYNAMIC_PATTERN_CHANCE {
                let dp = match generate_dynamic_pattern(left, right) {
                    Ok(dp) => dp,
                    Err(e) => {
                        return Err(e);
                    },
                };
                let (new_end, hand) = add_pattern(&dp.pattern, beats, i, tempo, end, &mut notes, &mut obstacles);
                left = dp.left;
                right = dp.right;
                let p = Placement {
                    anchor: i,
                    anchor_ms: beat.time_ms as u64,
                    end_ms: new_end,
                    roll,
                    hand,
                    source: PatternSource::Dynamic(dp),
                    notes_end: notes.len(),
                    obstacles_end: obstacles.len(),
                };
                proof {
                    lemma_step(old_placements, p, beats@, *catalog, lowest as int, highest as int, tempo as int,
                        i as int, old_notes, notes@, old_obstacles, obstacles@);
                }
                p
            } else {
                let tier = select_tier(beat.pitch, highest);
                let bin = catalog.tier(tier);
                if bin.len() == 0 {
                    return Err(MapError::EmptyCatalogTier);
                }
                let pick = random_in(0, bin.len() as u64) as usize;
                let (new_end, hand) = add_pattern(&bin[pick], beats, i, tempo, end, &mut notes, &mut obstacles);
                let p = Placement {
                    anchor: i,
                    anchor_ms: beat.time_ms as u64,
                    end_ms: new_end,
                    roll,
                    hand,
                    source: PatternSource::Catalog(tier, pick),
                    notes_end: notes.len(),
                    obstacles_end: obstacles.len(),
                };
                proof {
                    lemma_step(old_placements, p, beats@, *catalog, lowest as int, highest as int, tempo as int,
                        i as int, old_notes, notes@, old_obstacles, obstacles@);
                    lemma_hands_push(old_placements, p, n);
                }
                p
            };
            end = p.end_ms;
            placements.push(p);
        } else {
            proof {
                lemma_map_skip(
                    placements@,
                    notes@,
                    obstacles@,
                    beats@,
                    *catalog,
                    lowest as int,
                    highest as int,
                    tempo as int,
                    i as int,
                );
            }
        }
        i = i + 1;
    }
    Ok(MapDocument { notes, obstacles, placements })
}

/// Generates a whole map from raw peaks in order of time: drops peaks closer
/// than `MIN_BEAT_SPACING_MS` to the peak before them, runs the assembly pass
/// over the rest against their lowest and highest pitch, and appends the
/// filler walls of their silence spans, the last closed at `song_end_ms`,
/// after the obstacles of the patterns.
pub fn create_map(
    raw: &Vec<PeakEvent>,
    catalog: &PatternCatalog,
    tempo: u32,
    buffer_ms: u32,
    song_end_ms: u32,
) -> (r: Result<MapDocument, MapError>)
    requires
        time_sorted(raw@),
    ensures
        catalog.complete() ==> r is Ok,
        r is Err ==> r->Err_0 == MapError::EmptyCatalogTier && !catalog.complete(),
        r matches Ok(doc) ==> {
            let beats = spaced_peaks(raw@, MIN_BEAT_SPACING_MS as int);
            let pl = doc.placements@;
            let runs = obstacles_from(pl, pl.len() as int);
            exists|lowest: int, highest: int|
                {
                    let walls = song_walls(beats, lowest, tempo as int, buffer_ms as int, song_end_ms as int);
                    &&& #[trigger] pitch_bounds(beats, lowest, highest)
                    &&& map_valid(
                        pl,
                        doc.notes@,
                        doc.obstacles@,
                        beats,
                        *catalog,
                        lowest,
                        highest,
                        tempo as int,
                        beats.len() as int,
                    )
                    &&& doc.obstacles@.len() == runs + walls.len()
                    &&& doc.obstacles@.subrange(runs, doc.obstacles@.len() as int) == walls
                }
        },
{
    let series = ingest_peaks(raw, MIN_BEAT_SPACING_MS);
    proof {
        lemma_spaced_sorted(raw@, MIN_BEAT_SPACING_MS as int);
    }
    let mut doc = match generate_map(&series.beats, catalog, series.lowest_pitch, series.highest_pitch, tempo) {
        Ok(d) => d,
        Err(e) => {
            return Err(e);
        },
    };
    let mut walls = generate_walls(&series.beats, series.lowest_pitch, tempo, buffer_ms, song_end_ms);
    let ghost w = walls@;
    let ghost before = doc.obstacles@;
    doc.obstacles.append(&mut walls);
    proof {
        let all = doc.obstacles@;
        assert(all =~= before + w);
        assert(all.subrange(before.len() as int, all.len() as int) =~= w);
        lemma_map_more_obstacles(
            doc.placements@,
            doc.notes@,
            before,
            w,
            series.beats@,
            *catalog,
            series.lowest_pitch as int,
            series.highest_pitch as int,
            tempo as int,
            series.beats@.len() as int,
        );
        assert(pitch_bounds(series.beats@, series.lowest_pitch as int, series.highest_pitch as int));
    }
    Ok(doc)
}

} // verus!
