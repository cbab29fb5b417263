use perimeter_drop::music::{song_bpm, MusicLoop, SongError};
use perimeter_drop::score::{DropTimer, GameScore};

#[test]
fn fresh_score_has_full_drop_bonus() {
    let s = GameScore::new();
    assert_eq!(s.score(), 0);
    assert_eq!(s.rank(), 1);
    assert_eq!(s.current_mult(), 5_000_000);
    assert_eq!(s.percent_to_next_rank(), 0);
    assert_eq!(s.current_rank_boost_percentage(), None);
}

#[test]
fn multiplier_decays_to_one() {
    let mut s = GameScore::new();
    s.add_mult(2);
    s.update(10_000);
    // drop bonus gone; clear multiplier 5 less 10 s at 0.1 per second
    assert_eq!(s.current_mult(), 4_000_000);
    s.update(1_000_000);
    assert_eq!(s.current_mult(), 1_000_000);
}

#[test]
fn add_score_rounds_and_ranks_up() {
    let mut s = GameScore::new();
    s.update(7_500);
    // drop bonus 4 * 2.5 / 10 = 1, plus clear multiplier 1
    assert_eq!(s.current_mult(), 2_000_000);
    s.add_score(3);
    assert_eq!(s.score(), 6);
    assert_eq!(s.percent_to_next_rank(), 600_000);
    s.add_score(2);
    // 10 points reach the threshold of rank 1
    assert_eq!(s.score(), 10);
    assert_eq!(s.rank(), 2);
    assert_eq!(s.percent_to_next_rank(), 0);
}

#[test]
fn rounding_half_goes_up() {
    let mut s = GameScore::new();
    s.update(8_750);
    // drop bonus 0.5, clear multiplier 1: 1.5 per point
    assert_eq!(s.current_mult(), 1_500_000);
    s.add_score(1);
    assert_eq!(s.score(), 2);
}

#[test]
fn several_rank_ups_at_once() {
    let mut s = GameScore::new();
    s.add_mult(10);
    s.update(1_000_000);
    // multiplier 1: 150 points pass rank 1 (10), rank 2 (40) and rank 3 (90)
    s.add_score(150);
    assert_eq!(s.score(), 150);
    assert_eq!(s.rank(), 4);
}

#[test]
fn rank_boost_needs_rank_above_one_and_no_active_boost() {
    let mut s = GameScore::new();
    assert!(!s.rank_boost());
    assert_eq!(s.rank(), 1);

    s.update(1_000_000);
    s.add_score(10);
    assert_eq!(s.rank(), 2);
    let before = s.current_mult();
    assert!(s.rank_boost());
    assert_eq!(s.rank(), 1);
    assert_eq!(s.current_mult(), before + 2_000_000);
    assert_eq!(s.current_rank_boost_percentage(), Some(1_000_000));

    // drop bonus gone: clear multiplier 1 plus boost 2 gives 3 per point
    s.add_score(14);
    assert_eq!(s.score(), 10 + 42);
    assert_eq!(s.rank(), 2);
    s.update(2_500);
    assert_eq!(s.current_rank_boost_percentage(), Some(500_000));
    assert!(!s.rank_boost());
    assert_eq!(s.rank(), 2);

    s.update(2_500);
    assert_eq!(s.current_rank_boost_percentage(), None);
    assert!(s.rank_boost());
    assert_eq!(s.rank(), 1);
}

#[test]
fn drop_timer_shrinks_linearly() {
    let mut t = DropTimer::new(4_000_000, 10_000);
    assert_eq!(t.mult(), 4_000_000);
    assert_eq!(t.pass_time(2_500), 7_500);
    assert_eq!(t.mult(), 3_000_000);
    assert_eq!(t.pass_time(50_000), 0);
    assert_eq!(t.mult(), 0);
    t.reset();
    assert_eq!(t.mult(), 4_000_000);
}

#[test]
fn song_tempo_is_slowest_when_all_divide() {
    let loops = vec![
        MusicLoop { asset_path: "a.ogg", bpm: 240 },
        MusicLoop { asset_path: "b.ogg", bpm: 120 },
        MusicLoop { asset_path: "c.ogg", bpm: 360 },
    ];
    assert_eq!(song_bpm(&loops), Ok(120));
}

#[test]
fn song_tempo_errors() {
    let none: Vec<MusicLoop<String>> = Vec::new();
    assert_eq!(song_bpm(&none), Err(SongError::Empty));
    let loops = vec![
        MusicLoop { asset_path: "a.ogg", bpm: 120 },
        MusicLoop { asset_path: "b.ogg", bpm: 90 },
    ];
    assert_eq!(song_bpm(&loops), Err(SongError::MismatchedTempo));
    let loops = vec![
        MusicLoop { asset_path: "a.ogg", bpm: 0 },
        MusicLoop { asset_path: "b.ogg", bpm: 90 },
    ];
    assert_eq!(song_bpm(&loops), Err(SongError::MismatchedTempo));
}
