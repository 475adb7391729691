//! The line reducer: one row or column, already turned so that its tiles
//! move toward the front, is compacted and at most one pair is merged.

use vstd::prelude::*;
use vstd::arithmetic::power2::{pow2, lemma_pow2_pos, lemma_pow2_strictly_increases, lemma2_to64};
use vstd::bits::{lemma_u64_pow2_no_overflow, lemma_u64_shl_is_mul};
use crate::tile::Tile;

verus! {

/// The predicate that keeps the occupied cells of a line.
pub open spec fn is_tile() -> spec_fn(Tile) -> bool {
    |t: Tile| t.occupied()
}

/// The occupied cells of a line, in their order.
pub open spec fn compacted(line: Seq<Tile>) -> Seq<Tile> {
    line.filter(is_tile())
}

/// The tile that two equal tiles merge into: one power higher.
pub open spec fn promoted(tile: Tile) -> Tile {
    match tile {
        Tile::Empty => Tile::Empty,
        Tile::Occupied(power) => Tile::Occupied((power + 1) as u8),
    }
}

/// Whether the first two cells are equal tiles.
pub open spec fn pair_at_front(tiles: Seq<Tile>) -> bool {
    tiles.len() >= 2 && tiles[0].occupied() && tiles[0] == tiles[1]
}

/// The tiles after the first pair of equal neighbours, if there is one, has
/// become one tile. Later pairs stay as they are.
pub open spec fn merged(tiles: Seq<Tile>) -> Seq<Tile>
    decreases tiles.len(),
{
    if tiles.len() < 2 {
        tiles
    } else if pair_at_front(tiles) {
        seq![promoted(tiles[0])] + tiles.skip(2)
    } else {
        seq![tiles[0]] + merged(tiles.skip(1))
    }
}

/// The value of the tile that the merge makes, or zero without a merge.
pub open spec fn merge_gain(tiles: Seq<Tile>) -> nat
    decreases tiles.len(),
{
    if tiles.len() < 2 {
        0
    } else if pair_at_front(tiles) {
        promoted_value(tiles[0])
    } else {
        merge_gain(tiles.skip(1))
    }
}

/// Twice the value of a tile: what the tile one power higher shows.
pub open spec fn promoted_value(tile: Tile) -> nat {
    match tile {
        Tile::Empty => 0,
        Tile::Occupied(power) => pow2((power + 1) as nat),
    }
}

/// A run of empty cells.
pub open spec fn blanks(n: nat) -> Seq<Tile> {
    Seq::new(n, |i: int| Tile::Empty)
}

/// A line after a move toward its front: the occupied cells compacted, the
/// first pair of equal neighbours merged, empty cells behind up to the
/// line's length.
pub open spec fn reduced(line: Seq<Tile>) -> Seq<Tile> {
    let tiles = merged(compacted(line));
    tiles + blanks((line.len() - tiles.len()) as nat)
}

/// The score that a move toward the front earns on a line.
pub open spec fn line_gain(line: Seq<Tile>) -> nat {
    merge_gain(compacted(line))
}

/// Two to the given exponent.
pub fn power_of_two(exponent: u8) -> (value: u64)
    requires
        pow2(exponent as nat) <= u64::MAX,
    ensures
        value == pow2(exponent as nat),
{
    proof {
        if exponent >= 64 {
            lemma2_to64();
            if exponent > 64 {
                lemma_pow2_strictly_increases(64, exponent as nat);
            }
        }
        lemma_u64_pow2_no_overflow(exponent as nat);
        lemma_u64_shl_is_mul(1u64, exponent as u64);
    }
    1u64 << (exponent as u64)
}

/// Adding a cell at the back adds it to the compacted line if it is a tile.
pub proof fn lemma_compacted_push(line: Seq<Tile>, cell: Tile)
    ensures
        compacted(line.push(cell)) == if cell.occupied() {
            compacted(line).push(cell)
        } else {
            compacted(line)
        },
{
    line.lemma_filter_push(cell, is_tile());
}

/// A compacted line holds tiles only and is no longer than the line.
pub proof fn lemma_compacted_tiles(line: Seq<Tile>)
    ensures
        compacted(line).len() <= line.len(),
        forall|i: int| 0 <= i < compacted(line).len() ==> (#[trigger] compacted(line)[i]).occupied(),
{
    line.lemma_filter_len(is_tile());
    assert forall|i: int| 0 <= i < compacted(line).len() implies (#[trigger] compacted(
        line,
    )[i]).occupied() by {
        line.lemma_filter_pred(is_tile(), i);
    }
}

/// A merge shortens the tiles by one and earns a positive score; without a
/// merge the tiles stay as they are.
pub proof fn lemma_merged_len(tiles: Seq<Tile>)
    ensures
        merge_gain(tiles) > 0 ==> merged(tiles).len() == tiles.len() - 1,
        merge_gain(tiles) == 0 ==> merged(tiles) == tiles,
    decreases tiles.len(),
{
    if tiles.len() < 2 {
    } else if pair_at_front(tiles) {
        let power = tiles[0]->0;
        lemma_pow2_pos((power + 1) as nat);
    } else {
        lemma_merged_len(tiles.skip(1));
        if merge_gain(tiles) == 0 {
            assert(seq![tiles[0]] + tiles.skip(1) =~= tiles);
        }
    }
}

/// A reduced line is as long as the line it came from.
pub proof fn lemma_reduced_len(line: Seq<Tile>)
    ensures
        merged(compacted(line)).len() <= line.len(),
        reduced(line).len() == line.len(),
{
    lemma_compacted_tiles(line);
    lemma_merged_len(compacted(line));
}

/// A power of two fits in 64 bits exactly when its exponent is below 64.
pub proof fn lemma_pow2_fits(exponent: nat)
    ensures
        pow2(exponent) <= u64::MAX <==> exponent < 64,
{
    if exponent < 64 {
        lemma_u64_pow2_no_overflow(exponent);
    } else {
        lemma2_to64();
        if exponent > 64 {
            lemma_pow2_strictly_increases(64, exponent);
        }
    }
}

/// The tiles of a line, in their order.
pub fn occupied_tiles(line: &Vec<Tile>) -> (tiles: Vec<Tile>)
    ensures
        tiles@ == compacted(line@),
{
    let size = line.len();
    let mut tiles: Vec<Tile> = Vec::new();
    let mut i: usize = 0;
    proof {
        line@.take(0).lemma_filter_len(is_tile());
    }
    while i < size
        invariant
            i <= size == line.len(),
            tiles@ =~= compacted(line@.take(i as int)),
        decreases size - i,
    {
        let cell = line[i];
        proof {
            lemma_compacted_push(line@.take(i as int), cell);
            assert(line@.take(i as int).push(cell) =~= line@.take(i + 1));
        }
        if cell.is_occupied() {
            tiles.push(cell);
        }
        i += 1;
    }
    proof {
        assert(line@.take(size as int) =~= line@);
    }
    tiles
}

/// The score that a move toward the front earns on a line, if it fits in
/// 64 bits.
pub fn checked_line_gain(line: &Vec<Tile>) -> (gain: Option<u64>)
    ensures
        match gain {
            Some(score) => score == line_gain(line@),
            None => line_gain(line@) > u64::MAX,
        },
{
    let tiles = occupied_tiles(line);
    let count = tiles.len();
    let mut k: usize = 0;
    proof {
        assert(tiles@.skip(0) =~= tiles@);
    }
    while count - k >= 2
        invariant
            k <= count == tiles.len(),
            tiles@ == compacted(line@),
            merge_gain(tiles@) == merge_gain(tiles@.skip(k as int)),
        decreases count - k,
    {
        let ghost rest = tiles@.skip(k as int);
        proof {
            assert(rest[0] == tiles@[k as int]);
            assert(rest[1] == tiles@[k + 1]);
            assert(rest.skip(1) =~= tiles@.skip(k + 1));
        }
        if tiles[k] == tiles[k + 1] {
            if let Tile::Occupied(power) = tiles[k] {
                proof {
                    lemma_pow2_fits((power + 1) as nat);
                }
                if power >= 63 {
                    return None;
                }
                return Some(power_of_two(power + 1));
            }
        }
        k += 1;
    }
    Some(0)
}

/// Moves the tiles of a line toward its front and merges the first pair of
/// equal neighbours. Returns the score of the merge and the new line.
pub fn reduce_line(line: &Vec<Tile>) -> (out: (u64, Vec<Tile>))
    requires
        line_gain(line@) <= u64::MAX,
    ensures
        out.0 == line_gain(line@),
        out.1@ == reduced(line@),
{
    let size = line.len();
    let tiles = occupied_tiles(line);
    proof {
        lemma_compacted_tiles(line@);
    }
    let count = tiles.len();
    let mut buffer: Vec<Tile> = Vec::new();
    let mut has_merged = false;
    let mut score: u64 = 0;
    let mut k: usize = 0;
    proof {
        assert(tiles@.skip(0) =~= tiles@);
        assert(buffer@ + merged(tiles@) =~= merged(tiles@));
    }
    while k < count
        invariant
            k <= count == tiles.len() <= size,
            merge_gain(tiles@) <= u64::MAX,
            buffer.len() <= k,
            !has_merged ==> score == 0 && merge_gain(tiles@) == merge_gain(tiles@.skip(k as int))
                && merged(tiles@) == buffer@ + merged(tiles@.skip(k as int)),
            has_merged ==> score == merge_gain(tiles@) && merged(tiles@) == buffer@ + tiles@.skip(
                k as int,
            ),
        decreases count - k,
    {
        let tile = tiles[k];
        let ghost rest = tiles@.skip(k as int);
        proof {
            assert(rest[0] == tile);
            assert(rest.skip(1) =~= tiles@.skip(k + 1));
            assert(seq![tile] + rest.skip(1) =~= rest);
        }
        let mut emitted = tile;
        let mut taken: usize = 1;
        if !has_merged && k + 1 < count && tiles[k + 1] == tile {
            if let Tile::Occupied(power) = tile {
                proof {
                    assert(rest[1] == tiles@[k + 1]);
                    assert(pair_at_front(rest));
                    assert(rest.skip(2) =~= tiles@.skip(k + 2));
                    lemma2_to64();
                    if power >= 63 {
                        lemma_pow2_strictly_increases(64, (power + 1) as nat);
                    }
                }
                emitted = Tile::Occupied(power + 1);
                score = power_of_two(power + 1);
                has_merged = true;
                taken = 2;
            }
        }
        proof {
            if !has_merged {
                assert(!pair_at_front(rest));
                if rest.len() < 2 {
                    assert(merged(rest.skip(1)) =~= Seq::<Tile>::empty());
                }
            }
        }
        buffer.push(emitted);
        k += taken;
    }
    proof {
        assert(tiles@.skip(count as int) =~= Seq::<Tile>::empty());
        assert(buffer@ =~= merged(tiles@));
    }
    let mut j: usize = buffer.len();
    while j < size
        invariant
            j == buffer.len() <= size,
            buffer@ =~= merged(tiles@) + blanks((j - merged(tiles@).len()) as nat),
            merged(tiles@).len() <= j,
        decreases size - j,
    {
        buffer.push(Tile::Empty);
        j += 1;
    }
    (score, buffer)
}

} // verus!
