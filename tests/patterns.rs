use beatmap::direction::CutDirection;
use beatmap::pattern::{select_tier, Hand, MapError, NoteTemplate, Tier};

#[test]
fn tier_thresholds() {
    assert_eq!(select_tier(200, 200), Tier::Easy);
    assert_eq!(select_tier(131, 200), Tier::Easy);
    assert_eq!(select_tier(130, 200), Tier::Normal);
    assert_eq!(select_tier(51, 200), Tier::Normal);
    assert_eq!(select_tier(50, 200), Tier::Hard);
    assert_eq!(select_tier(0, 200), Tier::Hard);
    assert_eq!(select_tier(5, 0), Tier::Easy);
}

#[test]
fn raw_note_with_wildcards() {
    let t = NoteTemplate::from_raw(-1, -1, -1, -1, 2, "w".to_string()).unwrap();
    assert_eq!(t.x, None);
    assert_eq!(t.y, None);
    assert_eq!(t.cut_direction, None);
    assert_eq!(t.hand, None);
    assert_eq!(t.time_offset, 2);
    assert_eq!(t.label, "w");
}

#[test]
fn raw_note_fixed_fields() {
    let t = NoteTemplate::from_raw(2, 1, 5, 1, 0, "n".to_string()).unwrap();
    assert_eq!(t.x, Some(2));
    assert_eq!(t.y, Some(1));
    assert_eq!(t.cut_direction, Some(CutDirection::UpRight));
    assert_eq!(t.hand, Some(Hand::Right));
    let bomb = NoteTemplate::from_raw(0, 0, 8, 3, 0, String::new()).unwrap();
    assert_eq!(bomb.hand, Some(Hand::Bomb));
    let left = NoteTemplate::from_raw(0, 0, 0, 0, 0, String::new()).unwrap();
    assert_eq!(left.hand, Some(Hand::Left));
}

#[test]
fn raw_note_malformed() {
    assert_eq!(
        NoteTemplate::from_raw(0, 0, 0, 2, 0, String::new()).unwrap_err(),
        MapError::MalformedPattern
    );
    assert_eq!(
        NoteTemplate::from_raw(0, 0, 0, 7, 0, String::new()).unwrap_err(),
        MapError::MalformedPattern
    );
    assert_eq!(
        NoteTemplate::from_raw(0, 0, 9, 0, 0, String::new()).unwrap_err(),
        MapError::MalformedPattern
    );
}
