use auto2048::board::{Board, Direction};

// A unit test that succeeds if the code does not panic.
// This one is meant to test the indexing of the board
#[test]
fn test_move_direction() {
    let start = std::time::Instant::now();
    let initial_board = Board::new([
        [0, 0, 2, 0],
        [2, 0, 4, 0],
        [2, 2, 0, 0],
        [0, 2, 0, 2],
    ]);

    assert_eq!(
        initial_board.move_direction(Direction::Right),
        Board::new([[0, 0, 0, 2], [0, 0, 2, 4], [0, 0, 0, 4], [0, 0, 0, 4]])
    );

    assert_eq!(
        initial_board.move_direction(Direction::Left),
        Board::new([[2, 0, 0, 0], [2, 4, 0, 0], [4, 0, 0, 0], [4, 0, 0, 0]])
    );

    assert_eq!(
        initial_board.move_direction(Direction::Up),
        Board::new([[4, 4, 2, 2], [0, 0, 4, 0], [0, 0, 0, 0], [0, 0, 0, 0]])
    );

    assert_eq!(
        initial_board.move_direction(Direction::Down),
        Board::new([[0, 0, 0, 0], [0, 0, 0, 0], [0, 0, 2, 0], [4, 4, 4, 2]])
    );

    // Second board
    let initial_board = Board::new([
        [8, 0, 2, 0],
        [2, 16, 4, 0],
        [2, 4, 4, 0],
        [0, 4, 0, 2],
    ]);
    assert_eq!(
        initial_board.move_direction(Direction::Right),
        Board::new([[0, 0, 8, 2], [0, 2, 16, 4], [0, 0, 2, 8], [0, 0, 4, 2]])
    );

    assert_eq!(
        initial_board.move_direction(Direction::Up),
        Board::new([[8, 16, 2, 2], [4, 8, 8, 0], [0, 0, 0, 0], [0, 0, 0, 0]])
    );

    assert_eq!(
        initial_board.move_direction(Direction::Left),
        Board::new([[8, 2, 0, 0], [2, 16, 4, 0], [2, 8, 0, 0], [4, 2, 0, 0]])
    );

    assert_eq!(
        initial_board.move_direction(Direction::Down),
        Board::new([[0, 0, 0, 0], [0, 0, 0, 0], [8, 16, 2, 0], [4, 8, 8, 2]])
    );

    let runtime = start.elapsed();
    println!("runtime = {}", runtime.as_micros());
}

#[test]
fn new_empty_board_is_all_empty() {
    let b = Board::new_empty();
    for line in 0..4 {
        for column in 0..4 {
            assert_eq!(b.value_at(line, column), 0);
        }
    }
}

#[test]
fn set_then_read_back() {
    let mut b = Board::new_empty();
    b.set(2, 3, 64);
    assert_eq!(b.value_at(2, 3), 64);
    assert_eq!(b.value_at(2, 2), 0);
    assert_eq!(b.value_at(3, 3), 0);
}

#[test]
fn merge_happens_at_most_once_per_tile() {
    // a line of four equal tiles collapses to two, never to one
    let b = Board::new([[2, 2, 2, 2], [0, 0, 0, 0], [0, 0, 0, 0], [0, 0, 0, 0]]);
    let slid = b.move_direction(Direction::Left);
    assert_eq!(
        slid,
        Board::new([[4, 4, 0, 0], [0, 0, 0, 0], [0, 0, 0, 0], [0, 0, 0, 0]])
    );
    assert_ne!(
        slid,
        Board::new([[8, 0, 0, 0], [0, 0, 0, 0], [0, 0, 0, 0], [0, 0, 0, 0]])
    );
}

#[test]
fn slide_right_concrete() {
    let b = Board::new([[0, 0, 2, 0], [2, 0, 4, 0], [2, 2, 0, 0], [0, 2, 0, 2]]);
    assert_eq!(
        b.move_direction(Direction::Right),
        Board::new([[0, 0, 0, 2], [0, 0, 2, 4], [0, 0, 0, 4], [0, 0, 0, 4]])
    );
}

#[test]
fn slide_left_concrete() {
    let b = Board::new([[0, 0, 2, 0], [2, 0, 4, 0], [2, 2, 0, 0], [0, 2, 0, 2]]);
    assert_eq!(
        b.move_direction(Direction::Left),
        Board::new([[2, 0, 0, 0], [2, 4, 0, 0], [4, 0, 0, 0], [4, 0, 0, 0]])
    );
}

#[test]
fn slide_keeps_magnitude_sum_and_tiles() {
    let boards = [
        Board::new([[0, 0, 2, 0], [2, 0, 4, 0], [2, 2, 0, 0], [0, 2, 0, 2]]),
        Board::new([[8, 0, 2, 0], [2, 16, 4, 0], [2, 4, 4, 0], [0, 4, 0, 2]]),
        Board::new([[2, 2, 2, 2], [4, 4, 4, 4], [8, 8, 8, 8], [16, 16, 16, 16]]),
    ];
    let dirs = [Direction::Up, Direction::Down, Direction::Left, Direction::Right];
    for b in &boards {
        let (sum0, tiles0) = sum_and_tiles(b);
        for d in &dirs {
            let slid = b.move_direction(*d);
            let (sum1, tiles1) = sum_and_tiles(&slid);
            assert_eq!(sum1, sum0);
            assert!(tiles1 <= tiles0);
        }
    }
}

fn sum_and_tiles(b: &Board) -> (u64, u32) {
    let mut sum: u64 = 0;
    let mut tiles: u32 = 0;
    for line in 0..4 {
        for column in 0..4 {
            let v = b.value_at(line, column);
            sum += v as u64;
            if v != 0 {
                tiles += 1;
            }
        }
    }
    (sum, tiles)
}

#[test]
fn settled_board_slides_to_itself() {
    // every row is already compacted to the left with no equal neighbours
    let b = Board::new([[2, 4, 2, 0], [8, 2, 0, 0], [4, 0, 0, 0], [0, 0, 0, 0]]);
    assert_eq!(b.move_direction(Direction::Left), b);
    // and a full board with no equal neighbours anywhere is settled for
    // every direction
    let full = Board::new([[2, 4, 2, 4], [4, 2, 4, 2], [2, 4, 2, 4], [4, 2, 4, 2]]);
    assert_eq!(full.move_direction(Direction::Up), full);
    assert_eq!(full.move_direction(Direction::Down), full);
    assert_eq!(full.move_direction(Direction::Left), full);
    assert_eq!(full.move_direction(Direction::Right), full);
}
