use perimeter_drop::error::GameError;
use perimeter_drop::insertion::InsertionDirection;

#[test]
pub fn verify_top_insertion() {
    for n in 2..10 {
        for slot in 0..n {
            let direction = InsertionDirection::for_board_insertion(n, slot).unwrap();
            assert_eq!(direction, InsertionDirection::FromTop, "Failure on slot {slot}");
        }
    }
}

#[test]
pub fn verify_right_insertion() {
    for n in 2..10 {
        for slot in n..(n + n) {
            let direction = InsertionDirection::for_board_insertion(n, slot).unwrap();
            assert_eq!(direction, InsertionDirection::FromRight, "Failure on slot {slot}");
        }
    }
}

#[test]
pub fn verify_bottom_insertion() {
    for n in 2..10 {
        for slot in (n + n)..(n + n + n) {
            let direction = InsertionDirection::for_board_insertion(n, slot).unwrap();
            assert_eq!(direction, InsertionDirection::FromBottom, "Failure on slot {slot}");
        }
    }
}

#[test]
pub fn verify_left_insertion() {
    for n in 2..10 {
        let lower = n + n + n;
        let upper = n + n + n + n;
        for slot in lower..upper {
            let direction = InsertionDirection::for_board_insertion(n, slot).unwrap();
            assert_eq!(direction, InsertionDirection::FromLeft, "Failure on slot {slot}");
        }
    }
}

#[test]
pub fn verify_failures() {
    for n in 2..10 {
        for slot in (4 * n)..(4 * n * 2) {
            let direction = InsertionDirection::for_board_insertion(n, slot);
            assert!(direction.is_err());
        }
    }
}

#[test]
pub fn verify_get_side_index() {
    let n = 3;

    assert_eq!(InsertionDirection::FromTop.get_side_index(n, 0), 0);
    assert_eq!(InsertionDirection::FromTop.get_side_index(n, 1), 1);
    assert_eq!(InsertionDirection::FromTop.get_side_index(n, 2), 2);

    assert_eq!(InsertionDirection::FromRight.get_side_index(n, 3), 0);
    assert_eq!(InsertionDirection::FromRight.get_side_index(n, 4), 1);
    assert_eq!(InsertionDirection::FromRight.get_side_index(n, 5), 2);

    assert_eq!(InsertionDirection::FromBottom.get_side_index(n, 6), 2);
    assert_eq!(InsertionDirection::FromBottom.get_side_index(n, 7), 1);
    assert_eq!(InsertionDirection::FromBottom.get_side_index(n, 8), 0);

    assert_eq!(InsertionDirection::FromLeft.get_side_index(n, 9), 2);
    assert_eq!(InsertionDirection::FromLeft.get_side_index(n, 10), 1);
    assert_eq!(InsertionDirection::FromLeft.get_side_index(n, 11), 0);
}

#[test]
fn edges_partition_the_perimeter() {
    for n in 2..12 {
        let order = [
            InsertionDirection::FromTop,
            InsertionDirection::FromRight,
            InsertionDirection::FromBottom,
            InsertionDirection::FromLeft,
        ];
        for slot in 0..4 * n {
            let d = InsertionDirection::for_board_insertion(n, slot).unwrap();
            assert_eq!(d, order[slot / n]);
            assert!(d.get_side_index(n, slot) < n);
        }
        assert_eq!(
            InsertionDirection::for_board_insertion(n, 4 * n),
            Err(GameError::InvalidPlacementLocation(4 * n))
        );
    }
}

#[test]
fn empty_lane_takes_tile_at_far_end() {
    let mut line = vec![0u8, 0, 0, 0];
    assert_eq!(InsertionDirection::FromTop.place(&mut line), Ok(3));
    assert_eq!(line, vec![0, 0, 0, 1]);
    let mut line = vec![0u8, 0, 0, 0];
    assert_eq!(InsertionDirection::FromRight.place(&mut line), Ok(0));
    assert_eq!(line, vec![1, 0, 0, 0]);
}

#[test]
fn tile_falls_through_to_hole_beyond_first_obstruction() {
    let mut line = vec![0u8, 1, 0, 1];
    assert_eq!(InsertionDirection::FromLeft.place(&mut line), Ok(2));
    assert_eq!(line, vec![0, 1, 1, 1]);
}

#[test]
fn tile_stacks_before_solid_run() {
    let mut line = vec![0u8, 0, 1, 1];
    assert_eq!(InsertionDirection::FromTop.place(&mut line), Ok(1));
    let mut line = vec![1u8, 1, 0, 0];
    assert_eq!(InsertionDirection::FromBottom.place(&mut line), Ok(2));
}

#[test]
fn solid_lane_has_no_space() {
    let mut line = vec![1u8, 1, 1];
    assert_eq!(InsertionDirection::FromTop.place(&mut line), Err(GameError::NoSpace));
    assert_eq!(InsertionDirection::FromRight.place(&mut line), Err(GameError::NoSpace));
    assert_eq!(line, vec![1, 1, 1]);
}
