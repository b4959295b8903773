use movesync::codec::{encode, Delta, PossibleMovements};
use movesync::input::{Direction, Input};
use movesync::player::{Player, Position, BUFFER_SIZE};

const MOVEMENT_SPEED: f32 = 0.05;

fn delta_of(code: u8) -> (i64, i64) {
    match code {
        1 => (0, 1),
        2 => (0, -1),
        3 => (-1, 0),
        4 => (1, 0),
        _ => (0, 0),
    }
}

#[test]
fn encode_covers_every_intent() {
    assert_eq!(encode(PossibleMovements::NoInput), (0, Delta { dx: 0, dy: 0 }));
    assert_eq!(encode(PossibleMovements::Forward), (1, Delta { dx: 0, dy: 1 }));
    assert_eq!(encode(PossibleMovements::Backwards), (2, Delta { dx: 0, dy: -1 }));
    assert_eq!(encode(PossibleMovements::Left), (3, Delta { dx: -1, dy: 0 }));
    assert_eq!(encode(PossibleMovements::Right), (4, Delta { dx: 1, dy: 0 }));
}

#[test]
fn default_input_holds_nothing() {
    let i = Input::default();
    assert!(!i.forward && !i.backward && !i.left && !i.right);
    assert!(!i.input());
}

#[test]
fn input_reports_any_held_direction() {
    let mut i = Input::default();
    i.key_event(Direction::Right, true);
    assert!(i.input());
    i.key_event(Direction::Right, true);
    assert!(i.right);
    i.key_event(Direction::Right, false);
    assert!(!i.input());
    i.key_event(Direction::Backward, true);
    assert!(i.backward && i.input());
}

#[test]
fn forward_for_eight_ticks_sends_one_batch() {
    let mut p = Player::new();
    p.key_event(Direction::Forward, true);
    let mut batches: Vec<Vec<u8>> = Vec::new();
    for _ in 0..8 {
        if let Some(b) = p.update() {
            batches.push(b);
        }
    }
    assert_eq!(batches, vec![vec![1u8; 8]]);
    assert!(p.buffer().is_empty());
    let pos = p.local_snapshot();
    assert_eq!(pos, Position { x: 0, y: 8 });
    let y = pos.y as f32 * MOVEMENT_SPEED;
    assert!((y - 0.40).abs() < 1e-6);
}

#[test]
fn forward_and_left_push_two_codes_in_order() {
    let mut p = Player::new();
    p.key_event(Direction::Forward, true);
    p.key_event(Direction::Left, true);
    assert_eq!(p.update(), None);
    assert_eq!(p.buffer(), &vec![1u8, 3u8]);
    assert_eq!(p.local_snapshot(), Position { x: -1, y: 1 });
}

#[test]
fn all_four_directions_push_in_fixed_order() {
    let mut p = Player::new();
    p.key_event(Direction::Right, true);
    p.key_event(Direction::Left, true);
    p.key_event(Direction::Backward, true);
    p.key_event(Direction::Forward, true);
    assert_eq!(p.update(), None);
    assert_eq!(p.buffer(), &vec![1u8, 2, 3, 4]);
    assert_eq!(p.local_snapshot(), Position { x: 0, y: 0 });
    let b = p.update().unwrap();
    assert_eq!(b, vec![1u8, 2, 3, 4, 1, 2, 3, 4]);
    assert!(p.buffer().is_empty());
}

#[test]
fn idle_ticks_send_heartbeat_every_eighth_tick() {
    let mut p = Player::new();
    let mut sends: Vec<usize> = Vec::new();
    for tick in 1..=20usize {
        if let Some(b) = p.update() {
            assert_eq!(b, vec![0u8; 8]);
            sends.push(tick);
        }
    }
    assert_eq!(sends, vec![8, 16]);
    assert_eq!(p.buffer(), &vec![0u8; 4]);
    assert_eq!(p.local_snapshot(), Position { x: 0, y: 0 });
}

#[test]
fn batch_never_reaches_its_size() {
    let mut p = Player::new();
    let patterns = [
        (true, false, true, false),
        (true, true, true, true),
        (false, false, false, false),
        (false, true, false, true),
        (true, false, false, false),
    ];
    let mut sent = 0usize;
    for round in 0..40usize {
        let (f, b, l, r) = patterns[round % patterns.len()];
        p.key_event(Direction::Forward, f);
        p.key_event(Direction::Backward, b);
        p.key_event(Direction::Left, l);
        p.key_event(Direction::Right, r);
        if let Some(batch) = p.update() {
            assert_eq!(batch.len(), BUFFER_SIZE);
            assert!(batch.iter().all(|&c| c <= 4));
            sent += 1;
        }
        assert!(p.buffer().len() < BUFFER_SIZE);
    }
    assert!(sent > 0);
}

#[test]
fn position_matches_all_pushed_codes() {
    let mut p = Player::new();
    let mut all: Vec<u8> = Vec::new();
    let keys = [Direction::Forward, Direction::Left, Direction::Right, Direction::Backward];
    for round in 0..30usize {
        p.key_event(keys[round % 4], round % 3 != 0);
        if let Some(batch) = p.update() {
            all.extend_from_slice(&batch);
        }
    }
    all.extend_from_slice(p.buffer());
    let (mut x, mut y) = (0i64, 0i64);
    for &c in &all {
        let (dx, dy) = delta_of(c);
        x += dx;
        y += dy;
    }
    assert_eq!(p.local_snapshot(), Position { x, y });
}

#[test]
fn add_movement_hands_out_full_batch() {
    let mut p = Player::new();
    for _ in 0..7 {
        assert_eq!(p.add_movement(PossibleMovements::Right), None);
    }
    assert_eq!(p.add_movement(PossibleMovements::Backwards), Some(vec![4, 4, 4, 4, 4, 4, 4, 2]));
    assert!(p.buffer().is_empty());
    assert_eq!(p.local_snapshot(), Position { x: 7, y: -1 });
    assert_eq!(p.add_movement(PossibleMovements::NoInput), None);
    assert_eq!(p.buffer(), &vec![0u8]);
}

#[test]
fn player_keeps_its_flags() {
    let mut p = Player::new();
    assert!(!p.input().input());
    p.key_event(Direction::Left, true);
    assert!(p.input().left);
    p.update();
    assert!(p.input().left);
}
