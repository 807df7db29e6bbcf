use beatmap::direction::{get_next_cut, random_direction, CutDirection};

const ALL: [CutDirection; 9] = [
    CutDirection::Up,
    CutDirection::Down,
    CutDirection::Left,
    CutDirection::Right,
    CutDirection::UpLeft,
    CutDirection::UpRight,
    CutDirection::DownLeft,
    CutDirection::DownRight,
    CutDirection::Omni,
];

#[test]
fn opposite_pairs() {
    assert_eq!(CutDirection::Up.opposite(), CutDirection::Down);
    assert_eq!(CutDirection::Down.opposite(), CutDirection::Up);
    assert_eq!(CutDirection::Left.opposite(), CutDirection::Right);
    assert_eq!(CutDirection::Right.opposite(), CutDirection::Left);
    assert_eq!(CutDirection::UpLeft.opposite(), CutDirection::DownRight);
    assert_eq!(CutDirection::DownRight.opposite(), CutDirection::UpLeft);
    assert_eq!(CutDirection::UpRight.opposite(), CutDirection::DownLeft);
    assert_eq!(CutDirection::DownLeft.opposite(), CutDirection::UpRight);
    assert_eq!(CutDirection::Omni.opposite(), CutDirection::Omni);
}

#[test]
fn opposite_twice_is_identity() {
    for d in ALL.iter() {
        assert_eq!(d.opposite().opposite(), *d);
    }
}

#[test]
fn codes_round_trip() {
    for (i, d) in ALL.iter().enumerate() {
        assert_eq!(d.code(), i as u64);
        assert_eq!(CutDirection::from_code(i as u64), Some(*d));
    }
    assert_eq!(CutDirection::from_code(9), None);
    assert_eq!(CutDirection::from_code(100), None);
}

#[test]
fn unit_components() {
    assert_eq!((CutDirection::Up.dx(), CutDirection::Up.dy()), (0, 1));
    assert_eq!((CutDirection::Down.dx(), CutDirection::Down.dy()), (0, -1));
    assert_eq!((CutDirection::Left.dx(), CutDirection::Left.dy()), (-1, 0));
    assert_eq!((CutDirection::Right.dx(), CutDirection::Right.dy()), (1, 0));
    assert_eq!((CutDirection::UpLeft.dx(), CutDirection::UpLeft.dy()), (-1, 1));
    assert_eq!((CutDirection::UpRight.dx(), CutDirection::UpRight.dy()), (1, 1));
    assert_eq!((CutDirection::DownLeft.dx(), CutDirection::DownLeft.dy()), (-1, -1));
    assert_eq!((CutDirection::DownRight.dx(), CutDirection::DownRight.dy()), (1, -1));
    assert_eq!((CutDirection::Omni.dx(), CutDirection::Omni.dy()), (0, 0));
}

#[test]
fn transition_tables_keep_their_weights() {
    let up: Vec<u64> = (0..9).map(|k| CutDirection::Up.transition(k).code()).collect();
    assert_eq!(up, vec![1, 1, 1, 1, 6, 6, 7, 7, 8]);
    let left: Vec<u64> = (0..9).map(|k| CutDirection::Left.transition(k).code()).collect();
    assert_eq!(left, vec![3, 3, 3, 3, 5, 5, 7, 7, 8]);
    let up_left: Vec<u64> = (0..9).map(|k| CutDirection::UpLeft.transition(k).code()).collect();
    assert_eq!(up_left, vec![7, 7, 7, 7, 7, 1, 1, 8, 8]);
    let down_right: Vec<u64> = (0..9).map(|k| CutDirection::DownRight.transition(k).code()).collect();
    assert_eq!(down_right, vec![4, 4, 4, 4, 4, 0, 0, 8, 8]);
    let omni: Vec<u64> = (0..9).map(|k| CutDirection::Omni.transition(k).code()).collect();
    assert_eq!(omni, vec![0, 1, 2, 3, 4, 5, 6, 7, 8]);
}

#[test]
fn next_cut_follows_the_table() {
    let mut seen = std::collections::HashSet::new();
    for _ in 0..300 {
        let d = get_next_cut(CutDirection::Up);
        assert!(matches!(
            d,
            CutDirection::Down | CutDirection::DownLeft | CutDirection::DownRight | CutDirection::Omni
        ));
        seen.insert(d.code());
    }
    assert!(seen.len() > 1);
}

#[test]
fn random_direction_covers_several() {
    let mut seen = std::collections::HashSet::new();
    for _ in 0..300 {
        seen.insert(random_direction().code());
    }
    assert!(seen.len() > 1);
    assert!(seen.iter().all(|c| *c < 9));
}
