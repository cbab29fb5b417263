use perimeter_drop::board::GameBoard;
use perimeter_drop::error::GameError;
use perimeter_drop::state::{GameMode, GameState};

#[test]
fn verify_drop() {
    let mut state = GameState::new(4);

    // Min Wrapping
    state.offset = -1;
    assert_eq!(state.drop(), 15);

    // Max Wrapping
    state.next_drop = 15;
    state.offset = 1;
    assert_eq!(state.drop(), 0);

    for offset in [-1i8, 0, 1] {
        state.offset = offset;

        for index in 0..15 {
            if (index == 0 && offset == -1) || (index == 15 && offset == 1) {
                // Skip Edge
            } else {
                state.next_drop = index;
                assert_eq!(state.drop(), (index as i32 + offset as i32) as usize);
            }
        }
    }
}

#[test]
fn solid_lane_ends_the_game() {
    let mut state = GameState::new(3);
    state.data_board = GameBoard::new(3);
    state.set_next_drop(6);
    for _ in 0..3 {
        assert!(state.place_then(6).is_ok());
    }
    assert_eq!(state.place_then(6), Err(GameError::NoSpace));
    assert_eq!(state.mode, GameMode::GameOver);
    assert!(!state.enable_input);
    assert_eq!(state.placement_history, vec![6, 6, 6]);
}

#[test]
fn restart_only_after_game_over() {
    let mut state = GameState::new(3);
    state.place_then(5).unwrap();
    assert!(!state.restart());
    assert_eq!(state.placement_history, vec![0]);
    assert_eq!(state.next_drop, 5);

    state.mode = GameMode::GameOver;
    state.enable_input = false;
    assert!(state.restart());
    assert_eq!(state.mode, GameMode::Playing);
    assert!(state.enable_input);
    assert!(state.placement_history.is_empty());
    assert_eq!(state.next_drop, 0);
    assert_eq!(state.data_board.width(), 3);
    assert_eq!(state.data_board.board(), vec![vec![0u8; 3]; 3]);
}

#[test]
fn random_next_slot_stays_on_perimeter() {
    let mut state = GameState::new(3);
    for _ in 0..200 {
        let slot = state.update_next_drop();
        assert!(slot < 12);
        assert_eq!(state.next_drop, slot);
        assert_eq!(state.offset, 0);
    }
}

#[test]
fn place_records_history_and_resets_offset() {
    let mut state = GameState::new(3);
    state.next_drop = 1;
    state.offset = 1;
    assert_eq!(state.place(), Ok((2, 2)));
    assert_eq!(state.placement_history, vec![2]);
    assert_eq!(state.offset, 0);
    assert!(state.next_drop < 12);
}

#[test]
fn nudge_turns_with_edge_and_clamps() {
    let mut state = GameState::new(4);
    // top edge, first half: plus moves forward
    state.next_drop = 0;
    assert_eq!(state.oriented_offset(1), 1);
    // top edge, second half: plus moves backward
    state.next_drop = 3;
    assert_eq!(state.oriented_offset(1), -1);
    // right edge, first half: plus moves backward
    state.next_drop = 4;
    assert_eq!(state.oriented_offset(1), -1);
    // left edge, lane 3 (slot 12) is in the second half
    state.next_drop = 12;
    assert_eq!(state.oriented_offset(1), 1);

    state.next_drop = 0;
    state.offset = 0;
    state.nudge_offset(1);
    state.nudge_offset(1);
    assert_eq!(state.offset, 1);
    state.nudge_offset(-1);
    state.nudge_offset(-1);
    state.nudge_offset(-1);
    assert_eq!(state.offset, -1);
}

#[test]
fn try_new_rejects_small_boards() {
    assert!(GameState::try_new(0).is_none());
    assert!(GameState::try_new(1).is_none());
    assert!(GameState::try_new(usize::MAX).is_none());
    let s = GameState::try_new(2).unwrap();
    assert_eq!(s.data_board.width(), 2);
}

#[test]
fn session_rotation_and_boost() {
    let mut state = GameState::new(3);
    state.place_then(0).unwrap();
    let before = state.data_board.display_board();
    state.rotate_right();
    state.rotate_left();
    state.rotate_left();
    assert_eq!(state.data_board.display_board(), before);
    assert!(!state.rank_boost());
    state.tick(1_000);
    assert_eq!(state.data_board.score().rank(), 1);
}
