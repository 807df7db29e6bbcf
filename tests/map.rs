use beatmap::direction::CutDirection;
use beatmap::engine::{create_map, generate_map, MapDocument, PatternSource};
use beatmap::pattern::{Hand, MapError, NoteTemplate, ObstacleTemplate, PatternCatalog, PatternTemplate, Tier};
use beatmap::peaks::{to_beats, PeakEvent};
use beatmap::placement::PlacedObstacle;
use beatmap::walls::generate_walls;

fn peak(time_ms: u32, id: u64, pitch: u32) -> PeakEvent {
    PeakEvent { time_ms, id, pitch }
}

fn scenario_peaks() -> Vec<PeakEvent> {
    vec![peak(0, 0, 5), peak(500, 1, 5), peak(1000, 2, 200), peak(1500, 3, 5), peak(2000, 4, 5)]
}

fn single_note_pattern(label: &str) -> PatternTemplate {
    PatternTemplate {
        label: label.to_string(),
        notes: vec![NoteTemplate {
            x: Some(1),
            y: Some(0),
            cut_direction: Some(CutDirection::Down),
            hand: Some(Hand::Left),
            time_offset: 0,
            label: label.to_string(),
        }],
        obstacles: vec![],
    }
}

fn catalog() -> PatternCatalog {
    PatternCatalog {
        easy: vec![single_note_pattern("easy")],
        normal: vec![single_note_pattern("normal")],
        hard: vec![single_note_pattern("hard")],
    }
}

fn wall(x: u64, start: u64, duration: u64) -> PlacedObstacle {
    PlacedObstacle { x, y: 0, start_beats: start, duration_beats: duration, width: 1, kind: 0 }
}

fn check_document(doc: &MapDocument, beats: &[PeakEvent], lowest: u32, tempo: u32) {
    for n in &doc.notes {
        assert!(n.x <= 3 && n.y <= 3);
    }
    for o in &doc.obstacles {
        assert!(o.duration_beats > 0);
    }
    let mut end = 0u64;
    let mut notes_from = 0usize;
    let mut obstacles_from = 0usize;
    let mut latest_note = 0u64;
    for p in &doc.placements {
        assert!(p.anchor_ms > end);
        assert!(p.end_ms >= end);
        assert_eq!(p.anchor_ms, beats[p.anchor].time_ms as u64);
        assert!(beats[p.anchor].pitch as u64 * 100 > lowest as u64 * 110);
        assert!(p.roll < 100);
        assert!(p.hand == Hand::Left || p.hand == Hand::Right);
        assert!(notes_from <= p.notes_end && obstacles_from <= p.obstacles_end);
        match &p.source {
            PatternSource::Dynamic(dp) => {
                assert!(p.roll <= 50);
                assert_eq!(p.notes_end - notes_from, dp.pattern.notes.len());
            }
            PatternSource::Catalog(_, _) => assert!(p.roll > 50),
        }
        let anchor_beats = to_beats(p.anchor_ms, tempo);
        for n in &doc.notes[notes_from..p.notes_end] {
            assert!(n.time_beats >= anchor_beats);
            assert!(n.time_beats >= latest_note);
        }
        for n in &doc.notes[notes_from..p.notes_end] {
            latest_note = latest_note.max(n.time_beats);
        }
        end = p.end_ms;
        notes_from = p.notes_end;
        obstacles_from = p.obstacles_end;
    }
    assert_eq!(notes_from, doc.notes.len());
    assert!(obstacles_from <= doc.obstacles.len());
}

#[test]
fn one_loud_peak_places_one_pattern() {
    let beats = scenario_peaks();
    for _ in 0..100 {
        let doc = generate_map(&beats, &catalog(), 5, 200, 120_000).unwrap();
        assert_eq!(doc.placements.len(), 1);
        assert_eq!(doc.placements[0].anchor, 2);
        assert_eq!(doc.placements[0].anchor_ms, 1000);
        assert!(!doc.notes.is_empty());
        assert_eq!(doc.notes[0].time_beats, 2000);
        let p = &doc.placements[0];
        match &p.source {
            PatternSource::Catalog(tier, index) => {
                assert_eq!(*tier, Tier::Easy);
                assert_eq!(*index, 0);
                assert_eq!(doc.notes[0].label, "easy");
                assert_eq!(p.end_ms, 1000);
            }
            PatternSource::Dynamic(dp) => {
                assert_eq!(dp.pattern.notes[0].time_offset, 0);
                assert_eq!(p.end_ms, 2000);
            }
        }
        check_document(&doc, &beats, 5, 120_000);
    }
}

#[test]
fn walls_around_the_loud_peak() {
    let beats = scenario_peaks();
    let walls = generate_walls(&beats, 5, 120_000, 100, 3000);
    assert_eq!(walls, vec![wall(0, 200, 1600), wall(3, 200, 1600), wall(0, 3200, 2600), wall(3, 3200, 2600)]);
}

#[test]
fn short_silence_gives_no_wall() {
    let beats = vec![peak(1000, 0, 100), peak(1100, 1, 10), peak(1300, 2, 100)];
    assert!(generate_walls(&beats, 10, 120_000, 100, 5000).is_empty());
    let beats = vec![peak(1000, 0, 100), peak(1100, 1, 10), peak(1500, 2, 100)];
    assert_eq!(generate_walls(&beats, 10, 120_000, 100, 5000), vec![wall(0, 2400, 400), wall(3, 2400, 400)]);
    let beats = vec![peak(1000, 0, 100), peak(1100, 1, 10), peak(1499, 2, 100)];
    assert!(generate_walls(&beats, 10, 120_000, 100, 5000).is_empty());
}

#[test]
fn wall_spans_without_buffer_still_last() {
    let beats = vec![peak(0, 0, 10), peak(0, 1, 100)];
    assert!(generate_walls(&beats, 10, 120_000, 0, 0).is_empty());
    assert!(generate_walls(&Vec::new(), 0, 120_000, 50, 1000).is_empty());
}

#[test]
fn whole_map_from_raw_peaks() {
    let raw = scenario_peaks();
    for _ in 0..50 {
        let doc = create_map(&raw, &catalog(), 120_000, 100, 3000).unwrap();
        assert_eq!(doc.placements.len(), 1);
        assert_eq!(doc.placements[0].anchor_ms, 1000);
        let n = doc.obstacles.len();
        assert!(n >= 4);
        assert_eq!(
            doc.obstacles[n - 4..].to_vec(),
            vec![wall(0, 200, 1600), wall(3, 200, 1600), wall(0, 3200, 2600), wall(3, 3200, 2600)]
        );
    }
}

#[test]
fn empty_tier_is_reported() {
    let beats = scenario_peaks();
    let cat = PatternCatalog { easy: vec![], normal: vec![single_note_pattern("n")], hard: vec![] };
    let mut failures = 0;
    for _ in 0..100 {
        match generate_map(&beats, &cat, 5, 200, 120_000) {
            Ok(doc) => assert_eq!(doc.placements.len(), 1),
            Err(e) => {
                assert_eq!(e, MapError::EmptyCatalogTier);
                failures += 1;
            }
        }
    }
    assert!(failures > 0);
}

#[test]
fn quiet_song_places_nothing() {
    let beats = vec![peak(100, 0, 10), peak(600, 1, 11), peak(900, 2, 10)];
    let cat = PatternCatalog { easy: vec![], normal: vec![], hard: vec![] };
    let doc = generate_map(&beats, &cat, 10, 11, 120_000).unwrap();
    assert!(doc.placements.is_empty());
    assert!(doc.notes.is_empty());
    assert!(doc.obstacles.is_empty());
}

#[test]
fn patterns_never_overlap() {
    let mut beats = Vec::new();
    for i in 0..60u32 {
        beats.push(peak(100 + 250 * i, i as u64, if i % 3 == 0 { 10 } else { 50 + i }));
    }
    let long = PatternTemplate {
        label: "long".to_string(),
        notes: vec![
            NoteTemplate { x: None, y: None, cut_direction: None, hand: None, time_offset: 0, label: String::new() },
            NoteTemplate { x: Some(9), y: Some(9), cut_direction: None, hand: None, time_offset: 3, label: String::new() },
        ],
        obstacles: vec![ObstacleTemplate {
            x: 0,
            y: 0,
            duration: None,
            padding: 0,
            width: 1,
            kind: 0,
            time_offset: 0,
            label: String::new(),
        }],
    };
    let cat = PatternCatalog { easy: vec![long.clone()], normal: vec![long.clone()], hard: vec![long] };
    for _ in 0..30 {
        let doc = generate_map(&beats, &cat, 10, 109, 90_500).unwrap();
        assert!(!doc.placements.is_empty());
        check_document(&doc, &beats, 10, 90_500);
        for i in 0..beats.len() {
            let loud = beats[i].pitch as u64 * 100 > 10 * 110;
            if loud {
                let anchored = doc.placements.iter().any(|p| p.anchor == i);
                let covered = doc.placements.iter().any(|p| p.anchor < i && beats[i].time_ms as u64 <= p.end_ms);
                assert!(anchored || covered);
            }
        }
    }
}

#[test]
fn dynamic_patterns_continue_from_the_last_hands() {
    let beats: Vec<PeakEvent> = (0..80u32).map(|i| peak(100 + 300 * i, i as u64, 50)).collect();
    let cat = catalog();
    for _ in 0..20 {
        let doc = generate_map(&beats, &cat, 10, 50, 120_000).unwrap();
        let mut left = (1u64, 2u64, CutDirection::Omni);
        let mut right = (2u64, 2u64, CutDirection::Omni);
        let mut dynamic = 0;
        for p in &doc.placements {
            if let PatternSource::Dynamic(dp) = &p.source {
                dynamic += 1;
                let l = &dp.pattern.notes[0];
                let r = &dp.pattern.notes[1];
                assert!((0..9).any(|k| left.2.transition(k) == l.cut_direction.unwrap()));
                assert!((0..9).any(|k| right.2.transition(k) == r.cut_direction.unwrap()));
                assert!((l.x.unwrap() as i64 - left.0 as i64).abs() <= 2);
                assert!((r.y.unwrap() as i64 - right.1 as i64).abs() <= 2);
                left = (dp.left.x, dp.left.y, dp.left.direction);
                right = (dp.right.x, dp.right.y, dp.right.direction);
            } else {
                assert!(matches!(p.source, PatternSource::Catalog(Tier::Easy, 0)));
            }
        }
        assert!(dynamic > 0);
        check_document(&doc, &beats, 10, 120_000);
    }
}
