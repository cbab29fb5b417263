use perimeter_drop::board::GameBoard;
use perimeter_drop::error::GameError;

#[test]
pub fn verify_place_top() {
    let mut game_board = GameBoard::new(3);

    // top place
    game_board.place(0).unwrap();

    assert_eq!(game_board.board(), vec![vec![0, 0, 0], vec![0, 0, 0], vec![1, 0, 0]]);
}

#[test]
pub fn verify_place_right() {
    let mut game_board = GameBoard::new(3);

    game_board.place(3).unwrap();

    assert_eq!(game_board.board(), vec![vec![1, 0, 0], vec![0, 0, 0], vec![0, 0, 0]]);
}

#[test]
pub fn verify_place_bottom() {
    let mut game_board = GameBoard::new(3);

    game_board.place(8).unwrap();

    assert_eq!(game_board.board(), vec![vec![1, 0, 0], vec![0, 0, 0], vec![0, 0, 0]]);
}

#[test]
pub fn verify_place_left() {
    let mut game_board = GameBoard::new(3);

    game_board.place(11).unwrap();

    assert_eq!(game_board.board(), vec![vec![0, 0, 1], vec![0, 0, 0], vec![0, 0, 0]]);
}

#[test]
pub fn verify_place_stacking_1() {
    let mut game_board = GameBoard::new(3);

    game_board.place(0).unwrap();
    game_board.place(0).unwrap();
    game_board.place(4).unwrap();

    assert_eq!(game_board.board(), vec![vec![0, 0, 0], vec![1, 1, 0], vec![1, 0, 0]]);
}

#[test]
pub fn verify_rotate_right() {
    let mut game_board = GameBoard::new(3);

    game_board.place(1).unwrap();
    game_board.place(2).unwrap();
    game_board.place(3).unwrap();

    assert_eq!(game_board.board(), vec![vec![1, 0, 0], vec![0, 0, 0], vec![0, 1, 1]]);

    game_board.rotate_right();

    assert_eq!(game_board.board(), vec![vec![0, 0, 1], vec![1, 0, 0], vec![1, 0, 0]]);
}

#[test]
pub fn verify_rotate_right_large() {
    let mut game_board = GameBoard::new(5);

    game_board.place(1).unwrap();
    game_board.place(2).unwrap();
    game_board.place(3).unwrap();
    game_board.place(3).unwrap();

    assert_eq!(
        game_board.board(),
        vec![
            vec![0, 0, 0, 0, 0],
            vec![0, 0, 0, 0, 0],
            vec![0, 0, 0, 0, 0],
            vec![0, 0, 0, 1, 0],
            vec![0, 1, 1, 1, 0],
        ]
    );

    game_board.rotate_right();

    assert_eq!(
        game_board.board(),
        vec![
            vec![0, 0, 0, 0, 0],
            vec![1, 0, 0, 0, 0],
            vec![1, 0, 0, 0, 0],
            vec![1, 1, 0, 0, 0],
            vec![0, 0, 0, 0, 0],
        ]
    );
}

#[test]
pub fn verify_rotate_left() {
    let mut game_board = GameBoard::new(3);

    game_board.place(1).unwrap();
    game_board.place(2).unwrap();
    game_board.place(3).unwrap();

    assert_eq!(game_board.board(), vec![vec![1, 0, 0], vec![0, 0, 0], vec![0, 1, 1]]);

    game_board.rotate_left();

    assert_eq!(game_board.board(), vec![vec![0, 0, 1], vec![0, 0, 1], vec![1, 0, 0]]);
}

#[test]
pub fn verify_display_board() {
    let mut board = GameBoard::new(3);
    board.place(0).unwrap();

    assert_eq!(board.board(), board.display_board());

    let upright_position = board.board();

    for i in -10..20 {
        if i < 0 {
            board.rotate_left();
        } else {
            board.rotate_right();
        }

        // upright position board should be the same for the board's display board
        assert_eq!(upright_position, board.display_board());
    }
}

#[test]
pub fn verify_corner_case() {
    let mut game_board = GameBoard::new(4);

    for place in [4, 4, 4, 3, 3, 3, 4] {
        println!("Placing {place}");
        game_board.place(place).unwrap();
        println!("Placed Board {:?}", game_board.board());
    }
}

#[test]
pub fn verify_corner_case_2() {
    let mut game_board = GameBoard::new(4);

    for place in [0, 0, 0, 15, 15, 15, 15] {
        println!("Placing {place}");
        game_board.place(place).unwrap();
        println!("Placed Board {:?}", game_board.board());
    }
}

#[test]
pub fn verify_board_clearing() {
    let mut game_board = GameBoard::new(3).with_rows_clearing();

    game_board.place(0).unwrap();
    game_board.place(0).unwrap();

    game_board.place(11).unwrap();
    game_board.place(11).unwrap();

    assert_eq!(game_board.board(), vec![vec![0, 1, 1], vec![1, 0, 0], vec![1, 0, 0]]);

    game_board.place(0).unwrap();

    assert_eq!(game_board.board(), vec![vec![0, 0, 0], vec![0, 0, 0], vec![0, 0, 0]]);
}

#[test]
pub fn verify_stacking() {
    let mut game_board = GameBoard::new(3);

    game_board.place(10).unwrap();
    game_board.place(6).unwrap();

    // Entering column 2 from the bottom, the tile meets the tile at row 1 and
    // goes on to the empty cell beyond it, at row 0.
    assert_eq!(game_board.board(), vec![vec![0, 0, 1], vec![0, 0, 1], vec![0, 0, 0]]);

    assert_eq!(game_board.place(6), Ok((2, 2)));
    assert_eq!(game_board.place(6), Err(GameError::NoSpace));
}

#[test]
pub fn verify_scoring() {
    let mut game_board = GameBoard::new(3).with_rows_clearing();

    game_board.place(0).unwrap();
    // With maximum drop mult (5) * 1 point (no other mults)
    assert_eq!(game_board.score().score(), 5);

    // Pass the time
    game_board.pass_time(1_000_000);

    game_board.place(0).unwrap();
    assert_eq!(game_board.score().score(), 6);

    // Pass the time
    game_board.pass_time(1_000_000);

    game_board.place(0).unwrap();

    // cleared a column: the clear multiplier rises by 1 to 2 before the
    // placement's own point, so (clearing a line of 3 + 1) * mult of 2 = delta of 8
    assert_eq!(game_board.score().score(), 14);
}

#[test]
pub fn verify_scoring_2() {
    let mut game_board = GameBoard::new(3).with_rows_clearing();

    game_board.pass_time(1_000_000);
    game_board.place(0).unwrap();

    game_board.pass_time(1_000_000);
    game_board.place(0).unwrap();

    game_board.pass_time(1_000_000);
    game_board.place(11).unwrap();

    game_board.pass_time(1_000_000);
    game_board.place(11).unwrap();

    game_board.pass_time(1_000_000);
    game_board.place(11).unwrap();

    // 2 clears at once, mult is now 5 (1 + 4)
    // dim of 3 is 6 cleared, plus the placement's point: 7 * 5 added to a score of 4
    assert_eq!(game_board.score().score(), 39);
}

#[test]
fn first_slots_of_each_edge_land_on_far_wall() {
    let mut b = GameBoard::new(3);
    assert_eq!(b.place(0), Ok((0, 2)));
    let mut b = GameBoard::new(3);
    assert_eq!(b.place(3), Ok((0, 0)));
    let mut b = GameBoard::new(3);
    assert_eq!(b.place(8), Ok((0, 0)));
    let mut b = GameBoard::new(3);
    assert_eq!(b.place(11), Ok((2, 0)));
}

#[test]
fn three_top_drops_then_right_drop() {
    let mut b = GameBoard::new(3);
    b.place(0).unwrap();
    b.place(0).unwrap();
    b.place(0).unwrap();
    assert_eq!(b.place(4), Ok((1, 1)));
    assert_eq!(b.board(), vec![vec![1, 0, 0], vec![1, 1, 0], vec![1, 0, 0]]);
}

#[test]
fn four_turns_give_back_the_board() {
    let mut b = GameBoard::new(4);
    for s in [0, 5, 5, 9, 14, 14] {
        b.place(s).unwrap();
    }
    let start = b.board();
    for _ in 0..4 {
        b.rotate_right();
    }
    assert_eq!(b.board(), start);
    for _ in 0..4 {
        b.rotate_left();
    }
    assert_eq!(b.board(), start);
    b.rotate_right();
    assert_ne!(b.board(), start);
    assert_eq!(b.display_board(), start);
}

#[test]
fn rotation_changes_later_placements() {
    let mut b = GameBoard::new(3);
    b.place(0).unwrap();
    b.rotate_right();
    // the tile now sits at the top left of the turned grid
    assert_eq!(b.board(), vec![vec![1, 0, 0], vec![0, 0, 0], vec![0, 0, 0]]);
    assert_eq!(b.place(0), Ok((0, 1)));
    assert_eq!(b.display_board(), vec![vec![0, 0, 0], vec![0, 0, 0], vec![1, 1, 0]]);
}

#[test]
fn slot_off_perimeter_is_invalid() {
    let mut b = GameBoard::new(3);
    assert_eq!(b.place(12), Err(GameError::InvalidPlacementLocation(12)));
    assert_eq!(b.board(), vec![vec![0u8; 3]; 3]);
    assert_eq!(b.score().score(), 0);
}

#[test]
fn clearing_raises_multiplier_by_square_of_lines() {
    let mut b = GameBoard::new(3).with_rows_clearing();
    for s in [0, 0, 11, 11] {
        b.place(s).unwrap();
    }
    b.pass_time(1_000_000);
    assert_eq!(b.score().current_mult(), 1_000_000);
    b.place(0).unwrap();
    // two lines cleared: clear multiplier 1 + 2 * 2, plus a full drop bonus of 4
    assert_eq!(b.score().current_mult(), 9_000_000);
}

#[test]
fn width_is_side() {
    assert_eq!(GameBoard::new(7).width(), 7);
}
