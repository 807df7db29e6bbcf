use beatmap::direction::CutDirection;
use beatmap::pattern::{Hand, MapError};
use beatmap::synth::{
    generate_dynamic_pattern, get_next_x, get_next_y, next_lane, next_row, resolve_collision,
    shift_wrapped, HandState,
};

fn omni(x: u64, y: u64) -> HandState {
    HandState { x, y, direction: CutDirection::Omni }
}

#[test]
fn lane_steps_are_held_to_the_hand() {
    assert_eq!(next_lane(Hand::Left, CutDirection::Right, 0, true, 2), 1);
    assert_eq!(next_lane(Hand::Left, CutDirection::Right, 0, false, 1), 1);
    assert_eq!(next_lane(Hand::Left, CutDirection::Left, 1, true, 1), 0);
    assert_eq!(next_lane(Hand::Left, CutDirection::Left, 1, true, 2), 0);
    assert_eq!(next_lane(Hand::Right, CutDirection::Left, 3, true, 2), 2);
    assert_eq!(next_lane(Hand::Right, CutDirection::Right, 2, false, 1), 3);
    assert_eq!(next_lane(Hand::Right, CutDirection::Right, 3, false, 2), 3);
    assert_eq!(next_lane(Hand::Bomb, CutDirection::Omni, 0, false, 1), 0);
    assert_eq!(next_lane(Hand::Bomb, CutDirection::Omni, 0, true, 2), 2);
    assert_eq!(next_lane(Hand::Bomb, CutDirection::Up, 3, false, 2), 1);
}

#[test]
fn row_steps_are_held_to_three_rows() {
    assert_eq!(next_row(CutDirection::Up, 2, false, 1), 2);
    assert_eq!(next_row(CutDirection::Up, 0, false, 1), 1);
    assert_eq!(next_row(CutDirection::Down, 1, true, 2), 0);
    assert_eq!(next_row(CutDirection::Left, 1, true, 1), 2);
    assert_eq!(next_row(CutDirection::Right, 1, false, 1), 0);
    assert_eq!(next_row(CutDirection::UpLeft, 0, false, 2), 2);
}

#[test]
fn drawn_steps_stay_in_range() {
    for _ in 0..200 {
        let l = get_next_x(Hand::Left, CutDirection::Omni, 1);
        assert!(l <= 1);
        let r = get_next_x(Hand::Right, CutDirection::Omni, 2);
        assert!((2..=3).contains(&r));
        let y = get_next_y(CutDirection::Omni, 2);
        assert!(y <= 2);
        let x = get_next_x(Hand::Bomb, CutDirection::Right, 1);
        assert!(x == 2 || x == 3);
    }
}

#[test]
fn wrapped_moves() {
    assert_eq!(shift_wrapped(CutDirection::Right, 3, 1, false, 1, false, 1), (0, 0));
    assert_eq!(shift_wrapped(CutDirection::Right, 3, 1, false, 1, true, 1), (0, 2));
    assert_eq!(shift_wrapped(CutDirection::Left, 0, 1, false, 1, false, 1), (3, 0));
    assert_eq!(shift_wrapped(CutDirection::Omni, 1, 1, true, 2, true, 2), (3, 0));
    assert_eq!(shift_wrapped(CutDirection::Omni, 1, 1, false, 2, false, 2), (3, 2));
    assert_eq!(shift_wrapped(CutDirection::UpRight, 2, 2, false, 2, false, 1), (0, 0));
    assert_eq!(shift_wrapped(CutDirection::DownLeft, 2, 1, false, 1, false, 1), (1, 0));
}

#[test]
fn collision_moves_only_a_colliding_right_note() {
    assert_eq!(resolve_collision(1, 1, 2, 1, CutDirection::Up), Ok((2, 1)));
    assert_eq!(resolve_collision(1, 1, 1, 2, CutDirection::Up), Ok((1, 2)));
    for _ in 0..200 {
        let r: Result<(u64, u64), MapError> = resolve_collision(1, 1, 1, 1, CutDirection::Omni);
        let (x, y) = r.unwrap();
        assert!(x <= 3 && y <= 2);
        assert!((x, y) != (1, 1));
        let (x, y) = resolve_collision(3, 2, 3, 2, CutDirection::UpRight).unwrap();
        assert!(x != 3 || y != 2);
        assert!(x <= 3 && y <= 2);
    }
}

fn check_dynamic(left: HandState, right: HandState) -> (HandState, HandState, usize) {
    let dp = generate_dynamic_pattern(left, right).unwrap();
    let notes = &dp.pattern.notes;
    assert!(notes.len() % 2 == 0);
    let pairs = notes.len() / 2;
    assert!((4..=8).contains(&pairs));
    assert!(dp.pattern.obstacles.is_empty());
    for i in 0..pairs {
        let l = &notes[2 * i];
        let r = &notes[2 * i + 1];
        assert_eq!(l.hand, Some(Hand::Left));
        assert_eq!(r.hand, Some(Hand::Right));
        assert_eq!(l.time_offset, i);
        assert_eq!(r.time_offset, i);
        let (lx, ly) = (l.x.unwrap(), l.y.unwrap());
        let (rx, ry) = (r.x.unwrap(), r.y.unwrap());
        assert!(lx <= 1 && ly <= 2);
        assert!(rx <= 3 && ry <= 2);
        assert!((lx, ly) != (rx, ry));
        let prev_l = if i == 0 { left.direction } else { notes[2 * i - 2].cut_direction.unwrap() };
        let ld = l.cut_direction.unwrap();
        assert!((0..9).any(|k| prev_l.transition(k) == ld));
        let prev_r = if i == 0 { right.direction } else { notes[2 * i - 1].cut_direction.unwrap() };
        let rd = r.cut_direction.unwrap();
        assert!((0..9).any(|k| prev_r.transition(k) == rd));
    }
    let last_l = &notes[2 * pairs - 2];
    let last_r = &notes[2 * pairs - 1];
    assert_eq!((dp.left.x, dp.left.y), (last_l.x.unwrap(), last_l.y.unwrap()));
    assert_eq!(dp.left.direction, last_l.cut_direction.unwrap());
    assert_eq!((dp.right.x, dp.right.y), (last_r.x.unwrap(), last_r.y.unwrap()));
    assert_eq!(dp.right.direction, last_r.cut_direction.unwrap());
    (dp.left, dp.right, pairs)
}

#[test]
fn dynamic_patterns_hold_their_shape() {
    let mut lengths = std::collections::HashSet::new();
    for _ in 0..200 {
        let (_, _, pairs) = check_dynamic(omni(1, 2), omni(2, 2));
        lengths.insert(pairs);
    }
    assert!(lengths.len() > 1);
}

#[test]
fn consecutive_dynamic_patterns_never_share_slot_zero() {
    for _ in 0..100 {
        let (l, r, _) = check_dynamic(omni(1, 2), omni(2, 2));
        let dp = generate_dynamic_pattern(l, r).unwrap();
        let a = &dp.pattern.notes[0];
        let b = &dp.pattern.notes[1];
        assert_eq!(a.time_offset, 0);
        assert_eq!(b.time_offset, 0);
        assert!((a.x, a.y) != (b.x, b.y));
        let first = generate_dynamic_pattern(omni(1, 2), omni(2, 2)).unwrap();
        let c = &first.pattern.notes[0];
        let d = &first.pattern.notes[1];
        assert!((c.x, c.y) != (d.x, d.y));
    }
}

#[test]
fn dynamic_patterns_from_the_grid_corners() {
    for _ in 0..100 {
        check_dynamic(
            HandState { x: 3, y: 0, direction: CutDirection::DownRight },
            HandState { x: 0, y: 2, direction: CutDirection::UpLeft },
        );
    }
}
