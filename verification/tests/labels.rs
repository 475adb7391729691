use game2048::text::{double_digits, power_digits, power_text};
use game2048::tile::Tile;

#[test]
fn empty_cell_shows_nothing() {
    assert_eq!(Tile::Empty.label(), "");
}

#[test]
fn tile_shows_two_to_its_power() {
    assert_eq!(Tile::Occupied(0).label(), "1");
    assert_eq!(Tile::Occupied(1).label(), "2");
    assert_eq!(Tile::Occupied(2).label(), "4");
    assert_eq!(Tile::Occupied(4).label(), "16");
    assert_eq!(Tile::Occupied(10).label(), "1024");
    assert_eq!(Tile::Occupied(11).label(), "2048");
    assert_eq!(Tile::Occupied(63).label(), "9223372036854775808");
}

#[test]
fn labels_agree_with_machine_numbers() {
    for power in 0..128u8 {
        assert_eq!(Tile::Occupied(power).label(), format!("{}", 1u128 << power));
    }
}

#[test]
fn labels_of_values_beyond_machine_numbers() {
    assert_eq!(Tile::Occupied(64).label(), "18446744073709551616");
    assert_eq!(Tile::Occupied(100).label(), "1267650600228229401496703205376");
    assert_eq!(
        Tile::Occupied(255).label(),
        "57896044618658097711785492504343953926634992332820282019728792003956564819968"
    );
}

#[test]
fn power_text_is_decimal() {
    assert_eq!(power_text(0), "1");
    assert_eq!(power_text(16), "65536");
}

#[test]
fn digits_come_lowest_first() {
    assert_eq!(power_digits(0), vec![1]);
    assert_eq!(power_digits(4), vec![6, 1]);
    assert_eq!(power_digits(10), vec![4, 2, 0, 1]);
    assert_eq!(double_digits(&vec![5]), vec![0, 1]);
    assert_eq!(double_digits(&vec![9, 9]), vec![8, 9, 1]);
    assert_eq!(double_digits(&vec![4, 2]), vec![8, 4]);
}
