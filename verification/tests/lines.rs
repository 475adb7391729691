use game2048::line::{checked_line_gain, occupied_tiles, power_of_two, reduce_line};
use game2048::tile::Tile;
use game2048::tile::Tile::{Empty, Occupied};

#[test]
fn blank_lines_stay_blank_and_score_nothing() {
    for size in 0..6usize {
        let line = vec![Empty; size];
        let (score, out) = reduce_line(&line);
        assert_eq!(score, 0);
        assert_eq!(out, vec![Empty; size]);
    }
}

#[test]
fn empty_input_line_gives_empty_output() {
    let line: Vec<Tile> = Vec::new();
    let (score, out) = reduce_line(&line);
    assert_eq!(score, 0);
    assert!(out.is_empty());
}

#[test]
fn single_tile_moves_to_the_front_from_any_place() {
    for size in 1..6usize {
        for at in 0..size {
            let mut line = vec![Empty; size];
            line[at] = Occupied(3);
            let mut expected = vec![Empty; size];
            expected[0] = Occupied(3);
            let (score, out) = reduce_line(&line);
            assert_eq!(score, 0);
            assert_eq!(out, expected);
        }
    }
}

#[test]
fn single_tile_moves_to_the_back_when_the_line_is_turned() {
    for size in 1..6usize {
        for at in 0..size {
            let mut line = vec![Empty; size];
            line[at] = Occupied(7);
            line.reverse();
            let (score, mut out) = reduce_line(&line);
            out.reverse();
            let mut expected = vec![Empty; size];
            expected[size - 1] = Occupied(7);
            assert_eq!(score, 0);
            assert_eq!(out, expected);
        }
    }
}

#[test]
fn two_equal_tiles_merge() {
    let (score, out) = reduce_line(&vec![Occupied(1), Occupied(1)]);
    assert_eq!(out, vec![Occupied(2), Empty]);
    assert_eq!(score, 4);
}

#[test]
fn equal_tiles_merge_across_a_gap() {
    let (score, out) = reduce_line(&vec![Occupied(1), Empty, Occupied(1)]);
    assert_eq!(out, vec![Occupied(2), Empty, Empty]);
    assert_eq!(score, 4);
}

#[test]
fn only_the_first_pair_of_three_merges() {
    let (score, out) = reduce_line(&vec![Occupied(1), Occupied(1), Occupied(1)]);
    assert_eq!(out, vec![Occupied(2), Occupied(1), Empty]);
    assert_eq!(score, 4);
}

#[test]
fn different_neighbours_stay() {
    let (score, out) = reduce_line(&vec![Occupied(1), Occupied(2), Occupied(1)]);
    assert_eq!(out, vec![Occupied(1), Occupied(2), Occupied(1)]);
    assert_eq!(score, 0);
}

#[test]
fn two_pairs_merge_once() {
    let (score, out) = reduce_line(&vec![Occupied(1), Occupied(1), Occupied(2), Occupied(2)]);
    assert_eq!(out, vec![Occupied(2), Occupied(2), Occupied(2), Empty]);
    assert_eq!(score, 4);
}

#[test]
fn merged_tile_does_not_merge_again() {
    let (score, out) = reduce_line(&vec![Occupied(2), Occupied(2), Occupied(3)]);
    assert_eq!(out, vec![Occupied(3), Occupied(3), Empty]);
    assert_eq!(score, 8);
}

#[test]
fn later_pair_merges_when_the_front_differs() {
    let (score, out) = reduce_line(&vec![Empty, Occupied(5), Occupied(3), Empty, Occupied(3)]);
    assert_eq!(out, vec![Occupied(5), Occupied(4), Empty, Empty, Empty]);
    assert_eq!(score, 16);
}

#[test]
fn score_is_the_value_of_the_new_tile() {
    for power in 0..63u8 {
        let (score, out) = reduce_line(&vec![Occupied(power), Occupied(power)]);
        assert_eq!(out, vec![Occupied(power + 1), Empty]);
        assert_eq!(score, 1u64 << (power + 1));
    }
}

#[test]
fn largest_merge_that_fits() {
    let (score, out) = reduce_line(&vec![Occupied(62), Empty, Occupied(62)]);
    assert_eq!(out, vec![Occupied(63), Empty, Empty]);
    assert_eq!(score, 9223372036854775808);
}

#[test]
fn checked_gain_tells_when_the_score_does_not_fit() {
    assert_eq!(checked_line_gain(&vec![Occupied(62), Occupied(62)]), Some(1u64 << 63));
    assert_eq!(checked_line_gain(&vec![Occupied(63), Occupied(63)]), None);
    assert_eq!(checked_line_gain(&vec![Occupied(200), Empty, Occupied(200)]), None);
    assert_eq!(checked_line_gain(&vec![Occupied(200), Occupied(201)]), Some(0));
    assert_eq!(checked_line_gain(&vec![Occupied(1), Occupied(1), Occupied(200), Occupied(200)]), Some(4));
    assert_eq!(checked_line_gain(&vec![Empty, Empty]), Some(0));
    assert_eq!(checked_line_gain(&Vec::new()), Some(0));
    assert_eq!(checked_line_gain(&vec![Occupied(4)]), Some(0));
    assert_eq!(checked_line_gain(&vec![Occupied(0), Occupied(0)]), Some(2));
}

#[test]
fn occupied_tiles_keeps_tiles_in_order() {
    let line = vec![Empty, Occupied(2), Empty, Occupied(9), Occupied(2), Empty];
    assert_eq!(occupied_tiles(&line), vec![Occupied(2), Occupied(9), Occupied(2)]);
    assert_eq!(occupied_tiles(&vec![Empty, Empty]), Vec::<Tile>::new());
}

#[test]
fn powers_of_two() {
    assert_eq!(power_of_two(0), 1);
    assert_eq!(power_of_two(1), 2);
    assert_eq!(power_of_two(11), 2048);
    assert_eq!(power_of_two(63), 9223372036854775808);
}

#[test]
fn reducing_a_settled_line_changes_nothing() {
    let line = vec![Occupied(1), Empty, Occupied(1), Occupied(3), Empty, Occupied(4)];
    let (first_score, once) = reduce_line(&line);
    assert_eq!(first_score, 4);
    assert_eq!(once, vec![Occupied(2), Occupied(3), Occupied(4), Empty, Empty, Empty]);
    let (second_score, twice) = reduce_line(&once);
    assert_eq!(second_score, 0);
    assert_eq!(twice, once);
}
