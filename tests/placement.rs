use beatmap::direction::CutDirection;
use beatmap::pattern::{Hand, NoteTemplate, ObstacleTemplate, PatternTemplate};
use beatmap::peaks::PeakEvent;
use beatmap::placement::{add_pattern, place_note, place_pattern, resolve_note, PlacedObstacle};

fn note(x: Option<u64>, y: Option<u64>, d: Option<CutDirection>, hand: Option<Hand>, offset: usize) -> NoteTemplate {
    NoteTemplate { x, y, cut_direction: d, hand, time_offset: offset, label: format!("n{}", offset) }
}

fn beats() -> Vec<PeakEvent> {
    vec![
        PeakEvent { time_ms: 0, id: 0, pitch: 5 },
        PeakEvent { time_ms: 500, id: 1, pitch: 5 },
        PeakEvent { time_ms: 1000, id: 2, pitch: 200 },
        PeakEvent { time_ms: 1500, id: 3, pitch: 5 },
        PeakEvent { time_ms: 2000, id: 4, pitch: 5 },
    ]
}

#[test]
fn resolving_fixed_and_wildcard_fields() {
    let t = note(Some(7), Some(1), Some(CutDirection::Left), Some(Hand::Bomb), 0);
    let n = resolve_note(&t, Hand::Left, 1234, 3, 2, CutDirection::Up);
    assert_eq!((n.hand, n.x, n.y, n.cut_direction, n.time_beats), (Hand::Bomb, 3, 1, CutDirection::Left, 1234));
    assert_eq!(n.label, "n0");
    let w = note(None, None, None, None, 0);
    let n = resolve_note(&w, Hand::Right, 10, 1, 2, CutDirection::Up);
    assert_eq!((n.hand, n.x, n.y, n.cut_direction), (Hand::Right, 3, 2, CutDirection::Up));
    let n = resolve_note(&w, Hand::Left, 10, 1, 0, CutDirection::Omni);
    assert_eq!((n.hand, n.x, n.y, n.cut_direction), (Hand::Left, 1, 0, CutDirection::Omni));
}

#[test]
fn wildcard_lane_of_a_left_note_stays_left() {
    let t = note(None, Some(0), Some(CutDirection::Down), Some(Hand::Left), 0);
    for _ in 0..300 {
        let n = place_note(&t, Hand::Left, 0);
        assert_eq!(n.hand, Hand::Left);
        assert!(n.x == 0 || n.x == 1);
        let n = place_note(&t, Hand::Right, 0);
        assert_eq!(n.hand, Hand::Left);
        assert!(n.x == 0 || n.x == 1);
    }
}

#[test]
fn wildcard_lanes_follow_the_pattern_hand() {
    let t = note(None, None, None, None, 0);
    let mut lanes = std::collections::HashSet::new();
    for _ in 0..300 {
        let n = place_note(&t, Hand::Right, 0);
        assert_eq!(n.hand, Hand::Right);
        assert!(n.x == 2 || n.x == 3);
        assert!(n.y <= 2);
        lanes.insert(n.x);
        let b = place_note(&t, Hand::Bomb, 0);
        assert!(b.x <= 3);
    }
    assert_eq!(lanes.len(), 2);
}

#[test]
fn placing_a_pattern() {
    let pattern = PatternTemplate {
        label: "p".to_string(),
        notes: vec![
            note(Some(0), Some(0), Some(CutDirection::Down), Some(Hand::Left), 0),
            note(Some(3), Some(0), Some(CutDirection::Down), Some(Hand::Right), 1),
            note(Some(3), Some(2), Some(CutDirection::Up), Some(Hand::Right), 9),
        ],
        obstacles: vec![
            ObstacleTemplate { x: 0, y: 0, duration: None, padding: 100, width: 1, kind: 0, time_offset: 0, label: String::new() },
            ObstacleTemplate { x: 1, y: 2, duration: Some(500), padding: 500, width: 2, kind: 1, time_offset: 1, label: String::new() },
            ObstacleTemplate { x: 2, y: 1, duration: Some(700), padding: 200, width: 1, kind: 1, time_offset: 1, label: String::new() },
        ],
    };
    let b = beats();
    let mut notes = Vec::new();
    let mut obstacles = Vec::new();
    let end = place_pattern(&pattern, Hand::Left, &b, 1, 120_000, 0, &mut notes, &mut obstacles);
    let times: Vec<u64> = notes.iter().map(|n| n.time_beats).collect();
    assert_eq!(times, vec![1000, 2000, 4000]);
    assert_eq!(end, 2000);
    assert_eq!(
        obstacles,
        vec![
            PlacedObstacle { x: 0, y: 0, start_beats: 1100, duration_beats: 2900, width: 1, kind: 0 },
            PlacedObstacle { x: 2, y: 1, start_beats: 2200, duration_beats: 500, width: 1, kind: 1 },
        ]
    );
}

#[test]
fn end_time_follows_the_notes() {
    let pattern = PatternTemplate {
        label: String::new(),
        notes: vec![note(Some(1), Some(1), Some(CutDirection::Omni), Some(Hand::Bomb), 0)],
        obstacles: vec![],
    };
    let b = beats();
    let mut notes = Vec::new();
    let mut obstacles = Vec::new();
    let end = place_pattern(&pattern, Hand::Left, &b, 3, 120_000, 700, &mut notes, &mut obstacles);
    assert_eq!(end, 1500);
    let end = place_pattern(&pattern, Hand::Left, &b, 0, 120_000, 700, &mut notes, &mut obstacles);
    assert_eq!(end, 0);
    assert_eq!(notes.len(), 2);
}

#[test]
fn empty_pattern_keeps_the_end_time() {
    let b = vec![PeakEvent { time_ms: 1000, id: 0, pitch: 9 }];
    let empty = PatternTemplate { label: String::new(), notes: vec![], obstacles: vec![] };
    let mut notes = Vec::new();
    let mut obstacles = Vec::new();
    assert_eq!(place_pattern(&empty, Hand::Left, &b, 0, 120_000, 0, &mut notes, &mut obstacles), 0);
    let (end, _) = add_pattern(&empty, &beats(), 4, 120_000, 10, &mut notes, &mut obstacles);
    assert_eq!(end, 10);
    assert!(notes.is_empty() && obstacles.is_empty());
}

#[test]
fn one_coin_flip_per_pattern() {
    let pattern = PatternTemplate {
        label: String::new(),
        notes: vec![note(None, Some(0), None, None, 0), note(None, Some(1), None, None, 1), note(None, Some(2), None, None, 2)],
        obstacles: vec![],
    };
    let b = beats();
    let mut hands = std::collections::HashSet::new();
    for _ in 0..100 {
        let mut notes = Vec::new();
        let mut obstacles = Vec::new();
        let (end, h) = add_pattern(&pattern, &b, 0, 120_000, 0, &mut notes, &mut obstacles);
        assert_eq!(end, 1000);
        assert_eq!(notes.len(), 3);
        assert_eq!(notes[0].hand, h);
        assert!(h == Hand::Left || h == Hand::Right);
        assert!(notes.iter().all(|n| n.hand == h));
        hands.insert(format!("{:?}", h));
    }
    assert_eq!(hands.len(), 2);
}
