//! A game session: one board, the slot the next tile will use, the player's
//! nudge to it, and the history of placements.

use crate::board::{fresh_board, placed, BoardModel, GameBoard};
use crate::error::GameError;
use crate::insertion::{edge_of, side_index, InsertionDirection};
use rand::Rng;
use vstd::prelude::*;

verus! {

/// Whether the game goes on.
#[derive(Debug, Clone, Copy, PartialEq, Eq, Structural)]
pub enum GameMode {
    Playing,
    GameOver,
}

/// A game session.
#[derive(Debug)]
pub struct GameState {
    /// The board; a new session turns clearing on.
    pub data_board: GameBoard,
    /// The slot the next tile uses when the player does not nudge it.
    pub next_drop: usize,
    /// The player's nudge to the next slot: -1, 0 or 1.
    pub offset: i8,
    /// The slots used so far, oldest first.
    pub placement_history: Vec<usize>,
    /// Whether the player's input is taken.
    pub enable_input: bool,
    /// Whether the game goes on.
    pub mode: GameMode,
    /// Whether a drop is under way.
    pub dropping: bool,
}

/// The slot a tile uses: `next` moved by `offset`, wrapping only from the
/// first slot back to the last and from the last on to the first.
pub open spec fn drop_slot(next: int, offset: int, n: int) -> int {
    if next == 0 && offset == -1 {
        4 * n - 1
    } else if next == 4 * n - 1 && offset == 1 {
        0
    } else {
        next + offset
    }
}

/// The nudge that a press of `delta` makes when the next tile enters from
/// `d` at lane `idx`: its sign turns so that a press moves the slot the same
/// way on screen whichever edge is in use and on which half of it.
pub open spec fn oriented(d: InsertionDirection, idx: int, n: int, delta: int) -> int {
    let upper_half = n / 2 <= idx;
    match d {
        InsertionDirection::FromLeft | InsertionDirection::FromRight => if upper_half { delta } else { -delta },
        InsertionDirection::FromTop | InsertionDirection::FromBottom => if upper_half { -delta } else { delta },
    }
}

/// `x` held to `[-1, 1]`.
pub open spec fn clamp_unit(x: int) -> int {
    if x < -1 {
        -1
    } else if x > 1 {
        1
    } else {
        x
    }
}

/// Relies on `rand::thread_rng` and `Rng::gen_range`: a value drawn from
/// `[0, bound)`; `gen_range` panics on an empty range.
#[verifier::external_body]
fn random_below(bound: usize) -> (r: usize)
    requires
        bound > 0,
    ensures
        r < bound,
{
    rand::thread_rng().gen_range(0..bound)
}

proof fn lemma_perimeter_fits(n: int)
    requires
        n >= 2,
        n * n <= isize::MAX,
    ensures
        4 * n <= usize::MAX,
{
    assert(4 * n <= 2 * (n * n)) by (nonlinear_arith)
        requires n >= 2;
}

impl GameState {
    pub open spec fn wf(&self) -> bool {
        let n = self.data_board@.n;
        &&& self.data_board.wf()
        &&& n >= 2
        &&& self.next_drop < 4 * n
        &&& -1 <= self.offset <= 1
    }

    /// A fresh session on an `n` by `n` board with clearing on, aiming at
    /// slot 0.
    pub fn new(n: usize) -> (r: Self)
        requires
            n >= 2,
            n * n <= isize::MAX,
        ensures
            r.wf(),
            r.data_board@ == (BoardModel { clearing: true, ..fresh_board(n as nat) }),
            r.next_drop == 0,
            r.offset == 0,
            r.placement_history@ == Seq::<usize>::empty(),
            r.enable_input,
            r.mode == GameMode::Playing,
            !r.dropping,
    {
        GameState {
            data_board: GameBoard::new(n).with_rows_clearing(),
            next_drop: 0,
            offset: 0,
            placement_history: Vec::new(),
            enable_input: true,
            mode: GameMode::Playing,
            dropping: false,
        }
    }

    /// A fresh session, or `None` when `n` is below 2 or an `n` by `n` grid
    /// would not fit in memory.
    pub fn try_new(n: usize) -> (r: Option<Self>)
        ensures
            r is None <==> (n < 2 || n * n > isize::MAX),
            r matches Some(s) ==> s.wf() && s.data_board@ == (BoardModel { clearing: true, ..fresh_board(n as nat) }),
    {
        if n < 2 {
            return None;
        }
        match n.checked_mul(n) {
            Some(cells) => {
                if cells > isize::MAX as usize {
                    None
                } else {
                    Some(GameState::new(n))
                }
            },
            None => None,
        }
    }

    /// The slot the next tile uses.
    pub fn drop(&self) -> (r: usize)
        requires
            self.wf(),
        ensures
            r == drop_slot(self.next_drop as int, self.offset as int, self.data_board@.n as int),
            r < 4 * self.data_board@.n,
    {
        let n = self.data_board.width();
        proof {
            lemma_perimeter_fits(n as int);
        }
        let max_index = 4 * n - 1;
        if self.next_drop == 0 && self.offset == -1 {
            max_index
        } else if self.next_drop == max_index && self.offset == 1 {
            0
        } else if self.offset == -1 {
            self.next_drop - 1
        } else if self.offset == 1 {
            self.next_drop + 1
        } else {
            self.next_drop
        }
    }

    /// Aims the next tile at `slot` and drops the nudge. Returns `slot`.
    pub fn set_next_drop(&mut self, slot: usize) -> (r: usize)
        requires
            old(self).wf(),
            slot < 4 * old(self).data_board@.n,
        ensures
            final(self).wf(),
            *final(self) == (GameState { next_drop: slot, offset: 0, ..*old(self) }),
            r == slot,
    {
        self.next_drop = slot;
        self.offset = 0;
        slot
    }

    /// Aims the next tile at a slot drawn at random from the perimeter and
    /// drops the nudge. Returns that slot.
    pub fn update_next_drop(&mut self) -> (r: usize)
        requires
            old(self).wf(),
        ensures
            final(self).wf(),
            r < 4 * old(self).data_board@.n,
            *final(self) == (GameState { next_drop: r, offset: 0, ..*old(self) }),
    {
        let n = self.data_board.width();
        proof {
            lemma_perimeter_fits(n as int);
        }
        let slot = random_below(4 * n);
        self.set_next_drop(slot)
    }

    /// Places a tile at `drop()`, then aims the next one at `next`.
    ///
    /// On success the slot joins the history and the nudge is dropped. When
    /// the lane has no room the game is over and input is switched off.
    pub fn place_then(&mut self, next: usize) -> (r: Result<(usize, usize), GameError>)
        requires
            old(self).wf(),
            next < 4 * old(self).data_board@.n,
        ensures
            final(self).wf(),
            r != Err::<(usize, usize), GameError>(GameError::InvalidPlacementLocation(old(self).drop_spec())),
            r is Ok ==> {
                &&& final(self).placement_history@ == old(self).placement_history@.push(old(self).drop_spec())
                &&& final(self).next_drop == next
                &&& final(self).offset == 0
                &&& final(self).mode == old(self).mode
                &&& final(self).enable_input == old(self).enable_input
                &&& !final(self).dropping
            },
            r is Err ==> {
                &&& r == Err::<(usize, usize), GameError>(GameError::NoSpace)
                &&& final(self).mode == GameMode::GameOver
                &&& !final(self).enable_input
                &&& final(self).data_board@ == old(self).data_board@
                &&& final(self).placement_history@ == old(self).placement_history@
                &&& final(self).next_drop == old(self).next_drop
                &&& final(self).offset == old(self).offset
            },
            placed(old(self).data_board@, old(self).drop_spec(), r, final(self).data_board@),
    {
        let slot = self.drop();
        let r = self.data_board.place(slot);
        match r {
            Ok(pos) => {
                self.placement_history.push(slot);
                self.dropping = false;
                self.set_next_drop(next);
                Ok(pos)
            },
            Err(e) => {
                self.mode = GameMode::GameOver;
                self.enable_input = false;
                Err(e)
            },
        }
    }

    /// The slot the next tile uses, as `drop` computes it.
    pub open spec fn drop_spec(&self) -> usize {
        drop_slot(self.next_drop as int, self.offset as int, self.data_board@.n as int) as usize
    }

    /// Places a tile at `drop()` and, when it lands, aims the next one at a
    /// slot drawn at random.
    pub fn place(&mut self) -> (r: Result<(usize, usize), GameError>)
        requires
            old(self).wf(),
        ensures
            final(self).wf(),
            placed(old(self).data_board@, old(self).drop_spec(), r, final(self).data_board@),
            r is Ok ==> {
                &&& final(self).placement_history@ == old(self).placement_history@.push(old(self).drop_spec())
                &&& final(self).offset == 0
                &&& final(self).mode == old(self).mode
            },
            r is Err ==> {
                &&& r == Err::<(usize, usize), GameError>(GameError::NoSpace)
                &&& final(self).mode == GameMode::GameOver
                &&& !final(self).enable_input
                &&& final(self).data_board@ == old(self).data_board@
            },
    {
        let n = self.data_board.width();
        proof {
            lemma_perimeter_fits(n as int);
        }
        let next = random_below(4 * n);
        self.place_then(next)
    }

    /// The nudge that a press of `delta` makes for the tile aimed at
    /// `next_drop`; see `oriented`.
    pub fn oriented_offset(&self, delta: i8) -> (r: i8)
        requires
            self.wf(),
            -1 <= delta <= 1,
        ensures
            ({
                let n = self.data_board@.n as int;
                let d = edge_of(n, self.next_drop as int)->Some_0;
                r == oriented(d, side_index(d, n, self.next_drop as int), n, delta as int)
            }),
    {
        let n = self.data_board.width();
        let d = match InsertionDirection::for_board_insertion(n, self.next_drop) {
            Ok(d) => d,
            Err(_) => return delta,
        };
        let index = d.get_side_index(n, self.next_drop);
        let upper_half = n / 2 <= index;
        match d {
            InsertionDirection::FromLeft | InsertionDirection::FromRight => if upper_half {
                delta
            } else {
                -delta
            },
            InsertionDirection::FromTop | InsertionDirection::FromBottom => if upper_half {
                -delta
            } else {
                delta
            },
        }
    }

    /// Applies a press of `delta` (1 for plus, -1 for minus) to the nudge,
    /// turned as `oriented_offset` says and held to `[-1, 1]`.
    pub fn nudge_offset(&mut self, delta: i8)
        requires
            old(self).wf(),
            -1 <= delta <= 1,
        ensures
            final(self).wf(),
            *final(self) == (GameState {
                offset: clamp_unit(old(self).offset + old(self).oriented_spec(delta as int)) as i8,
                ..*old(self)
            }),
    {
        let turned = self.oriented_offset(delta);
        let sum = self.offset + turned;
        self.offset = if sum < -1 {
            -1
        } else if sum > 1 {
            1
        } else {
            sum
        };
    }

    /// The nudge that a press of `delta` makes, as `oriented_offset` computes
    /// it.
    pub open spec fn oriented_spec(&self, delta: int) -> int {
        let n = self.data_board@.n as int;
        let d = edge_of(n, self.next_drop as int)->Some_0;
        oriented(d, side_index(d, n, self.next_drop as int), n, delta)
    }

    /// Turns the board a quarter clockwise; nothing is scored.
    pub fn rotate_right(&mut self)
        requires
            old(self).wf(),
            old(self).data_board@.rotation < i64::MAX - 1,
        ensures
            final(self).wf(),
            final(self).data_board@ == (BoardModel {
                cells: crate::rotation::rotated_right(old(self).data_board@.cells),
                rotation: old(self).data_board@.rotation + 1,
                ..old(self).data_board@
            }),
            *final(self) == (GameState { data_board: final(self).data_board, ..*old(self) }),
    {
        self.data_board.rotate_right();
    }

    /// Turns the board a quarter counter-clockwise; nothing is scored.
    pub fn rotate_left(&mut self)
        requires
            old(self).wf(),
            old(self).data_board@.rotation > i64::MIN + 1,
        ensures
            final(self).wf(),
            final(self).data_board@ == (BoardModel {
                cells: crate::rotation::rotated_left(old(self).data_board@.cells),
                rotation: old(self).data_board@.rotation - 1,
                ..old(self).data_board@
            }),
            *final(self) == (GameState { data_board: final(self).data_board, ..*old(self) }),
    {
        self.data_board.rotate_left();
    }

    /// Lets `dt_ms` milliseconds pass on the score.
    pub fn tick(&mut self, dt_ms: u64)
        requires
            old(self).wf(),
        ensures
            final(self).wf(),
            final(self).data_board@ == (BoardModel {
                score: crate::score::after_time(old(self).data_board@.score, dt_ms as int),
                ..old(self).data_board@
            }),
            *final(self) == (GameState { data_board: final(self).data_board, ..*old(self) }),
    {
        self.data_board.pass_time(dt_ms);
    }

    /// Spends a rank on a boost; see `GameScore::rank_boost`.
    pub fn rank_boost(&mut self) -> (r: bool)
        requires
            old(self).wf(),
        ensures
            final(self).wf(),
            r == crate::score::can_boost(old(self).data_board@.score),
            r ==> final(self).data_board@ == (BoardModel {
                score: crate::score::after_boost(old(self).data_board@.score),
                ..old(self).data_board@
            }),
            !r ==> final(self).data_board@ == old(self).data_board@,
            *final(self) == (GameState { data_board: final(self).data_board, ..*old(self) }),
    {
        self.data_board.rank_boost()
    }

    /// Starts a fresh session of the same size, but only once the game is
    /// over; while it goes on this does nothing. Returns whether it restarted.
    pub fn restart(&mut self) -> (r: bool)
        requires
            old(self).wf(),
        ensures
            final(self).wf(),
            r == (old(self).mode == GameMode::GameOver),
            r ==> {
                &&& final(self).data_board@ == (BoardModel { clearing: true, ..fresh_board(old(self).data_board@.n) })
                &&& final(self).next_drop == 0
                &&& final(self).offset == 0
                &&& final(self).placement_history@ == Seq::<usize>::empty()
                &&& final(self).enable_input
                &&& final(self).mode == GameMode::Playing
            },
            !r ==> *final(self) == *old(self),
    {
        if self.mode == GameMode::GameOver {
            let n = self.data_board.width();
            *self = GameState::new(n);
            true
        } else {
            false
        }
    }
}

} // verus!
