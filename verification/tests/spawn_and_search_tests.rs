use auto2048::board::{Board, Direction};
use auto2048::search::SearchOutcome;

#[test]
fn spawn_fills_only_the_empty_cell() {
    // one empty cell at (2, 3): the spawn must land exactly there, with a 2
    // or a 4, and leave every occupied cell alone
    for _ in 0..200 {
        let mut b = Board::new([[2, 4, 2, 4], [4, 2, 4, 2], [2, 4, 2, 0], [4, 2, 4, 2]]);
        let r = b.generate_random();
        let spawned = r.expect("a board with an empty cell must spawn");
        let v = spawned.value_at(2, 3);
        assert!(v == 2 || v == 4);
        for line in 0..4 {
            for column in 0..4 {
                if line != 2 || column != 3 {
                    let pattern = if (line + column) % 2 == 0 { 2 } else { 4 };
                    assert_eq!(spawned.value_at(line, column), pattern);
                }
            }
        }
    }
}

#[test]
fn spawn_never_overwrites_an_occupied_cell() {
    for _ in 0..200 {
        let mut b = Board::new([[2, 0, 0, 0], [0, 0, 4, 0], [0, 8, 0, 0], [0, 0, 0, 16]]);
        let spawned = b.generate_random().expect("board has empty cells");
        assert_eq!(spawned.value_at(0, 0), 2);
        assert_eq!(spawned.value_at(1, 2), 4);
        assert_eq!(spawned.value_at(2, 1), 8);
        assert_eq!(spawned.value_at(3, 3), 16);
    }
}

#[test]
fn spawn_on_full_board_is_absent() {
    let full = Board::new([[2, 4, 2, 4], [4, 2, 4, 2], [2, 4, 2, 4], [4, 2, 4, 2]]);
    let mut b = full.clone();
    assert!(b.generate_random().is_none());
    assert_eq!(b, full);
}

#[test]
fn spawn_writes_a_four_about_a_tenth_of_the_time() {
    let trials = 5000;
    let mut fours = 0;
    let mut twos = 0;
    for _ in 0..trials {
        let mut b = Board::new_empty();
        let spawned = b.generate_random().expect("empty board spawns");
        let mut written = 0;
        for line in 0..4 {
            for column in 0..4 {
                let v = spawned.value_at(line, column);
                if v != 0 {
                    written = v;
                }
            }
        }
        match written {
            2 => twos += 1,
            4 => fours += 1,
            other => panic!("spawned magnitude {} is neither 2 nor 4", other),
        }
    }
    // mean 500 of 5000, spread out to seven standard deviations
    assert!(fours >= 300, "too few fours: {}", fours);
    assert!(fours <= 700, "too many fours: {}", fours);
    assert_eq!(twos + fours, trials);
}

#[test]
fn evaluate_counts_one_per_empty_and_square_per_tile() {
    assert_eq!(Board::new_empty().evaluate(), 16);
    let b = Board::new([[2, 0, 0, 0], [0, 0, 0, 0], [0, 0, 0, 0], [0, 0, 0, 0]]);
    assert_eq!(b.evaluate(), 15 + 4);
    let b = Board::new([[2, 4, 0, 0], [0, 8, 0, 0], [0, 0, 0, 0], [0, 0, 0, 16]]);
    assert_eq!(b.evaluate(), 12 + 4 + 16 + 64 + 256);
}

#[test]
fn evaluate_grows_when_a_tile_grows() {
    let small = Board::new([[2, 4, 0, 0], [0, 8, 0, 0], [0, 0, 0, 0], [0, 0, 0, 16]]);
    let mut large = small.clone();
    large.set(1, 1, 32);
    assert!(large.evaluate() > small.evaluate());
}

#[test]
fn play_spawns_after_the_slide() {
    let b = Board::new([[0, 0, 2, 0], [2, 0, 4, 0], [2, 2, 0, 0], [0, 2, 0, 2]]);
    for _ in 0..50 {
        let played = b.play(Direction::Left).expect("board has empty cells");
        // the slide keeps the magnitude sum; the spawn then adds 2 or 4
        let mut sum: u64 = 0;
        for line in 0..4 {
            for column in 0..4 {
                sum += played.value_at(line, column) as u64;
            }
        }
        assert!(sum == 16 + 2 || sum == 16 + 4);
    }
}

#[test]
fn play_on_a_packed_settled_board_is_absent() {
    // no slide moves anything here, so the spawn finds no empty cell
    let b = Board::new([[2, 4, 2, 4], [4, 2, 4, 2], [2, 4, 2, 4], [4, 2, 4, 2]]);
    assert!(b.play(Direction::Up).is_none());
    assert!(b.play(Direction::Down).is_none());
    assert!(b.play(Direction::Left).is_none());
    assert!(b.play(Direction::Right).is_none());
}

#[test]
fn best_move_rejects_depth_zero() {
    let b = Board::new([[0, 0, 2, 0], [2, 0, 4, 0], [2, 2, 0, 0], [0, 2, 0, 2]]);
    assert_eq!(b.best_move(0), SearchOutcome::InvalidDepth);
    assert_eq!(Board::new_empty().best_move(0), SearchOutcome::InvalidDepth);
    let full = Board::new([[2, 4, 2, 4], [4, 2, 4, 2], [2, 4, 2, 4], [4, 2, 4, 2]]);
    assert_eq!(full.best_move(0), SearchOutcome::InvalidDepth);
}

#[test]
fn best_move_chooses_a_direction_with_room_to_move() {
    let b = Board::new([[0, 0, 2, 0], [2, 0, 4, 0], [2, 2, 0, 0], [0, 2, 0, 2]]);
    for _ in 0..20 {
        let outcome = b.best_move(1);
        assert!(matches!(outcome, SearchOutcome::Chosen(_)));
    }
    for _ in 0..5 {
        let outcome = b.best_move(3);
        assert!(matches!(outcome, SearchOutcome::Chosen(_)));
    }
}

#[test]
fn best_move_reports_a_loss_on_a_stuck_board() {
    // full, settled in every direction: no play can improve anything
    let b = Board::new([[2, 4, 2, 4], [4, 2, 4, 2], [2, 4, 2, 4], [4, 2, 4, 2]]);
    assert_eq!(b.best_move(1), SearchOutcome::NoImprovingMove);
    assert_eq!(b.best_move(2), SearchOutcome::NoImprovingMove);
}

#[test]
fn best_move_chooses_when_a_merge_frees_a_cell() {
    // the board is full, but the two 2s merge, so some slide leaves an
    // empty cell and a one-ply search must choose a direction
    let b = Board::new([
        [2, 2, 4, 8],
        [4, 8, 16, 32],
        [8, 16, 32, 64],
        [16, 32, 64, 128],
    ]);
    for _ in 0..20 {
        assert!(matches!(b.best_move(1), SearchOutcome::Chosen(_)));
    }
}
