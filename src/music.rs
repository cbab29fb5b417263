//! Backing-music loops and the tempo a song built from them plays at.

use vstd::prelude::*;

verus! {

/// A loopable music track that has not been loaded yet.
#[derive(Debug, Clone)]
pub struct MusicLoop<S> {
    /// Where the track is found.
    pub asset_path: S,
    /// Beats per minute of the track.
    pub bpm: usize,
}

/// Why loops cannot make a song.
#[derive(Debug, Clone, Copy, PartialEq, Eq, Structural)]
pub enum SongError {
    /// No loops were given.
    Empty,
    /// The tempos are not all multiples of the slowest one.
    MismatchedTempo,
}

/// The slowest tempo among `b` (0 when `b` is empty).
pub open spec fn min_bpm(b: Seq<usize>) -> int
    decreases b.len(),
{
    if b.len() == 0 {
        0
    } else if b.len() == 1 {
        b[0] as int
    } else {
        let rest = min_bpm(b.drop_last());
        if (b.last() as int) < rest {
            b.last() as int
        } else {
            rest
        }
    }
}

/// Whether `x` is a whole multiple of `m` (only 0 is a multiple of 0).
pub open spec fn is_multiple(x: int, m: int) -> bool {
    if m == 0 {
        x == 0
    } else {
        x % m == 0
    }
}

/// The tempos of a list of loops.
pub open spec fn tempos<S>(loops: Seq<MusicLoop<S>>) -> Seq<usize> {
    loops.map_values(|l: MusicLoop<S>| l.bpm)
}

/// The tempo of a song made of `loops`: the slowest tempo, provided every
/// loop's tempo is a multiple of it.
pub fn song_bpm<S>(loops: &Vec<MusicLoop<S>>) -> (r: Result<usize, SongError>)
    ensures
        loops@.len() == 0 ==> r == Err::<usize, SongError>(SongError::Empty),
        loops@.len() > 0 ==> {
            let m = min_bpm(tempos(loops@));
            if forall|i: int| 0 <= i < loops@.len() ==> is_multiple(#[trigger] loops@[i].bpm as int, m) {
                r == Ok::<usize, SongError>(m as usize)
            } else {
                r == Err::<usize, SongError>(SongError::MismatchedTempo)
            }
        },
{
    if loops.len() == 0 {
        return Err(SongError::Empty);
    }
    let ghost b = tempos(loops@);
    let mut smallest = loops[0].bpm;
    let mut i: usize = 1;
    assert(b.subrange(0, 1) =~= seq![b[0]]);
    while i < loops.len()
        invariant
            1 <= i <= loops.len(),
            b == tempos(loops@),
            smallest == min_bpm(b.subrange(0, i as int)),
        decreases loops.len() - i,
    {
        assert(b.subrange(0, i as int + 1).drop_last() =~= b.subrange(0, i as int));
        if loops[i].bpm < smallest {
            smallest = loops[i].bpm;
        }
        i = i + 1;
    }
    assert(b.subrange(0, loops.len() as int) =~= b);
    let mut k: usize = 0;
    while k < loops.len()
        invariant
            k <= loops.len(),
            b == tempos(loops@),
            smallest == min_bpm(b),
            forall|q: int| 0 <= q < k ==> is_multiple(#[trigger] loops@[q].bpm as int, smallest as int),
        decreases loops.len() - k,
    {
        let bpm = loops[k].bpm;
        let fits = if smallest == 0 {
            bpm == 0
        } else {
            bpm % smallest == 0
        };
        if !fits {
            return Err(SongError::MismatchedTempo);
        }
        k = k + 1;
    }
    Ok(smallest)
}

} // verus!
