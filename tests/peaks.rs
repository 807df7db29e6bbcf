use beatmap::peaks::{ingest_peaks, is_quiet, to_beats, PeakEvent, MIN_BEAT_SPACING_MS};

fn peak(time_ms: u32, id: u64, pitch: u32) -> PeakEvent {
    PeakEvent { time_ms, id, pitch }
}

#[test]
fn beat_time_conversion() {
    assert_eq!(to_beats(1000, 120_000), 2000);
    assert_eq!(to_beats(500, 120_000), 1000);
    assert_eq!(to_beats(3, 20_000), 1);
    assert_eq!(to_beats(0, 180_000), 0);
    assert_eq!(to_beats(1000, 128_500), 2141);
    assert_eq!(to_beats(2 * u32::MAX as u64, u32::MAX), (2 * (u32::MAX as u128) * (u32::MAX as u128) / 60_000) as u64);
}

#[test]
fn intensity_floor() {
    assert!(is_quiet(5, 5));
    assert!(!is_quiet(6, 5));
    assert!(is_quiet(110, 100));
    assert!(!is_quiet(111, 100));
    assert!(is_quiet(0, 0));
}

#[test]
fn ingestion_drops_close_peaks() {
    let raw = vec![
        peak(0, 0, 10),
        peak(30, 1, 500),
        peak(100, 2, 20),
        peak(120, 3, 1),
        peak(400, 4, 40),
    ];
    let s = ingest_peaks(&raw, MIN_BEAT_SPACING_MS);
    let ids: Vec<u64> = s.beats.iter().map(|p| p.id).collect();
    assert_eq!(ids, vec![0, 2, 4]);
    assert_eq!(s.lowest_pitch, 10);
    assert_eq!(s.highest_pitch, 40);
}

#[test]
fn ingestion_compares_with_the_raw_predecessor() {
    let raw = vec![peak(100, 0, 7), peak(140, 1, 7), peak(180, 2, 7), peak(230, 3, 9)];
    let s = ingest_peaks(&raw, 50);
    let ids: Vec<u64> = s.beats.iter().map(|p| p.id).collect();
    assert_eq!(ids, vec![0, 3]);
}

#[test]
fn ingestion_of_nothing() {
    let s = ingest_peaks(&Vec::new(), 50);
    assert!(s.beats.is_empty());
    assert_eq!((s.lowest_pitch, s.highest_pitch), (0, 0));
}
