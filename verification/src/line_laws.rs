//! What holds of every line that the reducer is given.

use vstd::prelude::*;
use crate::line::{
    blanks, compacted, is_tile, lemma_compacted_push, lemma_compacted_tiles, lemma_merged_len,
    lemma_reduced_len, line_gain, merge_gain, merged, pair_at_front, reduced,
};
use crate::tile::Tile;

verus! {

/// Compacting keeps a line of tiles as it is and leaves nothing of a line of
/// empty cells.
pub proof fn lemma_compacted_uniform(line: Seq<Tile>)
    ensures
        (forall|i: int| 0 <= i < line.len() ==> line[i].occupied()) ==> compacted(line) == line,
        (forall|i: int| 0 <= i < line.len() ==> !line[i].occupied()) ==> compacted(line)
            == Seq::<Tile>::empty(),
    decreases line.len(),
{
    if line.len() == 0 {
        line.lemma_filter_len(is_tile());
        assert(compacted(line) =~= line);
    } else {
        let front = line.drop_last();
        lemma_compacted_uniform(front);
        lemma_compacted_push(front, line.last());
        assert(front.push(line.last()) =~= line);
    }
}

/// Merging tiles leaves tiles.
pub proof fn lemma_merged_occupied(tiles: Seq<Tile>)
    requires
        forall|i: int| 0 <= i < tiles.len() ==> tiles[i].occupied(),
    ensures
        forall|i: int| 0 <= i < merged(tiles).len() ==> (#[trigger] merged(tiles)[i]).occupied(),
    decreases tiles.len(),
{
    if tiles.len() < 2 {
    } else if pair_at_front(tiles) {
        assert forall|i: int| 0 <= i < merged(tiles).len() implies (#[trigger] merged(
            tiles,
        )[i]).occupied() by {
            if i > 0 {
                assert(merged(tiles)[i] == tiles[i + 1]);
            }
        }
    } else {
        let rest = tiles.skip(1);
        assert forall|i: int| 0 <= i < rest.len() implies rest[i].occupied() by {
            assert(rest[i] == tiles[i + 1]);
        }
        lemma_merged_occupied(rest);
        assert forall|i: int| 0 <= i < merged(tiles).len() implies (#[trigger] merged(
            tiles,
        )[i]).occupied() by {
            if i > 0 {
                assert(merged(tiles)[i] == merged(rest)[i - 1]);
            }
        }
    }
}

/// The tiles of a reduced line are the merged tiles of the line: a merge
/// takes one tile away, and nothing else changes their number.
pub proof fn lemma_reduced_tiles(line: Seq<Tile>)
    ensures
        compacted(reduced(line)) == merged(compacted(line)),
        line_gain(line) > 0 ==> compacted(reduced(line)).len() + 1 == compacted(line).len(),
        line_gain(line) == 0 ==> compacted(reduced(line)) == compacted(line),
{
    let tiles = compacted(line);
    let kept = merged(tiles);
    let pad = blanks((line.len() - kept.len()) as nat);
    lemma_compacted_tiles(line);
    lemma_merged_occupied(tiles);
    lemma_merged_len(tiles);
    lemma_reduced_len(line);
    Seq::filter_distributes_over_add(kept, pad, is_tile());
    lemma_compacted_uniform(kept);
    lemma_compacted_uniform(pad);
    assert(kept + Seq::<Tile>::empty() =~= kept);
}

/// Turning a line round turns its tiles round.
pub proof fn lemma_compacted_reverse(line: Seq<Tile>)
    ensures
        compacted(line.reverse()) == compacted(line).reverse(),
    decreases line.len(),
{
    if line.len() == 0 {
        line.lemma_filter_len(is_tile());
        assert(line.reverse() =~= line);
        assert(compacted(line).reverse() =~= compacted(line));
    } else {
        let front = line.drop_last();
        let last = line.last();
        lemma_compacted_reverse(front);
        lemma_compacted_push(front, last);
        assert(front.push(last) =~= line);
        assert(line.reverse() =~= seq![last] + front.reverse());
        Seq::filter_distributes_over_add(seq![last], front.reverse(), is_tile());
        lemma_compacted_uniform(seq![last]);
        if last.occupied() {
            assert(compacted(front).push(last).reverse() =~= seq![last] + compacted(
                front,
            ).reverse());
        } else {
            assert(Seq::<Tile>::empty() + compacted(front).reverse() =~= compacted(
                front,
            ).reverse());
        }
    }
}

/// A line without a tile comes back as a line of empty cells of the same
/// length and earns nothing.
pub proof fn lemma_reduce_blank_line(line: Seq<Tile>)
    requires
        forall|i: int| 0 <= i < line.len() ==> !line[i].occupied(),
    ensures
        reduced(line) == blanks(line.len()),
        line_gain(line) == 0,
{
    lemma_compacted_uniform(line);
    assert(reduced(line) =~= blanks(line.len()));
}

/// A line with one tile, wherever it stands, comes back with that tile at
/// the front and empty cells behind, and earns nothing.
pub proof fn lemma_reduce_single_tile(line: Seq<Tile>, at: int)
    requires
        0 <= at < line.len(),
        line[at].occupied(),
        forall|i: int| 0 <= i < line.len() && i != at ==> !line[i].occupied(),
    ensures
        reduced(line) == seq![line[at]] + blanks((line.len() - 1) as nat),
        line_gain(line) == 0,
{
    let before = line.take(at);
    let after = line.skip(at + 1);
    let tile = seq![line[at]];
    assert(before + tile + after =~= line);
    Seq::filter_distributes_over_add(before + tile, after, is_tile());
    Seq::filter_distributes_over_add(before, tile, is_tile());
    lemma_compacted_uniform(before);
    lemma_compacted_uniform(tile);
    lemma_compacted_uniform(after);
    assert(compacted(line) =~= tile);
}

/// Seen from the other end, a line with one tile comes back with that tile
/// at the back: this is what a move to the right or downward makes of it.
pub proof fn lemma_reduce_single_tile_backward(line: Seq<Tile>, at: int)
    requires
        0 <= at < line.len(),
        line[at].occupied(),
        forall|i: int| 0 <= i < line.len() && i != at ==> !line[i].occupied(),
    ensures
        reduced(line.reverse()).reverse() == blanks((line.len() - 1) as nat) + seq![line[at]],
        line_gain(line.reverse()) == 0,
{
    let turned = line.reverse();
    lemma_reduce_single_tile(turned, line.len() - 1 - at);
    assert((seq![line[at]] + blanks((line.len() - 1) as nat)).reverse() =~= blanks(
        (line.len() - 1) as nat,
    ) + seq![line[at]]);
}

/// A reduced line in which no two tiles can merge is reduced to itself.
pub proof fn lemma_reduce_settled(line: Seq<Tile>)
    requires
        line_gain(reduced(line)) == 0,
    ensures
        reduced(reduced(line)) == reduced(line),
{
    lemma_reduced_tiles(line);
    lemma_reduced_tiles(reduced(line));
    lemma_reduced_len(line);
    lemma_merged_len(compacted(reduced(line)));
}

/// A line that its reduction leaves as it is earns nothing.
pub proof fn lemma_reduce_unmoved(line: Seq<Tile>)
    requires
        reduced(line) == line,
    ensures
        line_gain(line) == 0,
{
    lemma_reduced_tiles(line);
}

} // verus!
