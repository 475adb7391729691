use game2048::board::Board;
use game2048::tile::Tile::{Empty, Occupied};
use game2048::tile::{Action, BoardError, Tile};

fn tiles_on(board: &Board) -> u128 {
    let mut count = 0u128;
    for row in board.get_data() {
        for cell in row {
            if cell != Empty {
                count += 1;
            }
        }
    }
    count
}

#[test]
fn new_board_is_blank() {
    let board = Board::new(4, 3).unwrap();
    assert_eq!(board.width(), 4);
    assert_eq!(board.height(), 3);
    assert_eq!(board.filled(), 0);
    assert_eq!(board.score(), 0);
    assert_eq!(board.get_data(), vec![vec![Empty; 4]; 3]);
    assert!(!board.lost());
}

#[test]
fn new_refuses_a_board_without_cells() {
    assert_eq!(Board::new(0, 4).err(), Some(BoardError::ZeroSized));
    assert_eq!(Board::new(4, 0).err(), Some(BoardError::ZeroSized));
    assert_eq!(Board::new(0, 0).err(), Some(BoardError::ZeroSized));
    assert!(Board::new(1, 1).is_ok());
}

#[test]
fn from_takes_size_and_count_from_the_grid() {
    let grid = vec![vec![Occupied(1), Empty, Occupied(3)], vec![Empty, Empty, Occupied(1)]];
    let board = Board::from(grid.clone()).unwrap();
    assert_eq!(board.width(), 3);
    assert_eq!(board.height(), 2);
    assert_eq!(board.filled(), 3);
    assert_eq!(board.score(), 0);
    assert_eq!(board.get_data(), grid);
}

#[test]
fn from_refuses_rows_of_different_lengths() {
    let grid = vec![vec![Empty, Empty], vec![Empty], vec![Empty, Empty]];
    assert_eq!(Board::from(grid).err(), Some(BoardError::Ragged));
    let grid = vec![vec![Empty], vec![Empty, Occupied(1)]];
    assert_eq!(Board::from(grid).err(), Some(BoardError::Ragged));
    let grid = vec![vec![Empty], vec![]];
    assert_eq!(Board::from(grid).err(), Some(BoardError::Ragged));
}

#[test]
fn from_refuses_a_grid_without_cells() {
    assert_eq!(Board::from(Vec::new()).err(), Some(BoardError::ZeroSized));
    assert_eq!(Board::from(vec![Vec::new()]).err(), Some(BoardError::ZeroSized));
    assert_eq!(Board::from(vec![Vec::new(), Vec::new()]).err(), Some(BoardError::ZeroSized));
    assert_eq!(Board::from(vec![Vec::new(), vec![Empty]]).err(), Some(BoardError::ZeroSized));
}

#[test]
fn round_trip_keeps_cells_count_and_size() {
    let grid = vec![
        vec![Occupied(1), Occupied(1), Empty, Occupied(2)],
        vec![Empty, Occupied(4), Occupied(4), Empty],
        vec![Occupied(3), Empty, Empty, Occupied(3)],
    ];
    let mut board = Board::from(grid).unwrap();
    board.step(&Action::Left);
    assert!(board.score() > 0);
    let again = Board::from(board.get_data()).unwrap();
    assert_eq!(again.get_data(), board.get_data());
    assert_eq!(again.filled(), board.filled());
    assert_eq!(again.width(), board.width());
    assert_eq!(again.height(), board.height());
    assert_eq!(again.score(), 0);
}

#[test]
fn get_data_is_a_copy() {
    let board = Board::from(vec![vec![Occupied(1), Empty]]).unwrap();
    let mut data = board.get_data();
    data[0][1] = Occupied(9);
    assert_eq!(board.get_data(), vec![vec![Occupied(1), Empty]]);
}

#[test]
fn left_and_right_merge_against_their_wall() {
    let grid = vec![vec![Occupied(1), Occupied(1), Occupied(1)]];
    let mut board = Board::from(grid.clone()).unwrap();
    board.step(&Action::Left);
    assert_eq!(board.get_data(), vec![vec![Occupied(2), Occupied(1), Empty]]);
    assert_eq!(board.score(), 4);
    assert_eq!(board.filled(), 2);

    let mut board = Board::from(grid).unwrap();
    board.step(&Action::Right);
    assert_eq!(board.get_data(), vec![vec![Empty, Occupied(1), Occupied(2)]]);
    assert_eq!(board.score(), 4);
    assert_eq!(board.filled(), 2);
}

#[test]
fn up_and_down_merge_against_their_wall() {
    let grid = vec![vec![Occupied(1)], vec![Occupied(1)], vec![Occupied(1)]];
    let mut board = Board::from(grid.clone()).unwrap();
    board.step(&Action::Up);
    assert_eq!(board.get_data(), vec![vec![Occupied(2)], vec![Occupied(1)], vec![Empty]]);
    assert_eq!(board.score(), 4);

    let mut board = Board::from(grid).unwrap();
    board.step(&Action::Down);
    assert_eq!(board.get_data(), vec![vec![Empty], vec![Occupied(1)], vec![Occupied(2)]]);
    assert_eq!(board.score(), 4);
}

#[test]
fn step_works_on_every_line_and_adds_up_the_score() {
    let grid = vec![
        vec![Occupied(1), Occupied(1), Empty, Occupied(2)],
        vec![Empty, Occupied(4), Occupied(4), Empty],
        vec![Occupied(3), Empty, Empty, Occupied(5)],
        vec![Empty, Empty, Empty, Empty],
    ];
    let mut board = Board::from(grid).unwrap();
    assert_eq!(board.filled(), 7);
    board.step(&Action::Left);
    assert_eq!(
        board.get_data(),
        vec![
            vec![Occupied(2), Occupied(2), Empty, Empty],
            vec![Occupied(5), Empty, Empty, Empty],
            vec![Occupied(3), Occupied(5), Empty, Empty],
            vec![Empty, Empty, Empty, Empty],
        ]
    );
    assert_eq!(board.score(), 4 + 32);
    assert_eq!(board.filled(), 5);
    board.step(&Action::Up);
    assert_eq!(
        board.get_data(),
        vec![
            vec![Occupied(2), Occupied(2), Empty, Empty],
            vec![Occupied(5), Occupied(5), Empty, Empty],
            vec![Occupied(3), Empty, Empty, Empty],
            vec![Empty, Empty, Empty, Empty],
        ]
    );
    assert_eq!(board.score(), 36);
    assert_eq!(board.filled(), 5);
    board.step(&Action::Right);
    assert_eq!(
        board.get_data(),
        vec![
            vec![Empty, Empty, Empty, Occupied(3)],
            vec![Empty, Empty, Empty, Occupied(6)],
            vec![Empty, Empty, Empty, Occupied(3)],
            vec![Empty, Empty, Empty, Empty],
        ]
    );
    assert_eq!(board.score(), 36 + 8 + 64);
    assert_eq!(board.filled(), 3);
    board.step(&Action::Down);
    assert_eq!(
        board.get_data(),
        vec![
            vec![Empty, Empty, Empty, Empty],
            vec![Empty, Empty, Empty, Occupied(3)],
            vec![Empty, Empty, Empty, Occupied(6)],
            vec![Empty, Empty, Empty, Occupied(3)],
        ]
    );
    assert_eq!(board.score(), 108);
    assert_eq!(board.filled(), 3);
}

#[test]
fn step_on_a_wide_board_upward() {
    let grid = vec![
        vec![Empty, Occupied(2), Occupied(1)],
        vec![Occupied(1), Occupied(2), Empty],
    ];
    let mut board = Board::from(grid).unwrap();
    board.step(&Action::Up);
    assert_eq!(
        board.get_data(),
        vec![vec![Occupied(1), Occupied(3), Occupied(1)], vec![Empty, Empty, Empty]]
    );
    assert_eq!(board.score(), 8);
    assert_eq!(board.filled(), 3);
}

#[test]
fn second_step_in_the_same_direction_changes_nothing() {
    let grid = vec![
        vec![Occupied(1), Empty, Occupied(1), Occupied(3)],
        vec![Empty, Occupied(2), Empty, Occupied(4)],
        vec![Empty, Empty, Empty, Empty],
    ];
    for action in [Action::Left, Action::Right, Action::Up, Action::Down] {
        let mut board = Board::from(grid.clone()).unwrap();
        board.step(&action);
        let cells = board.get_data();
        let score = board.score();
        let filled = board.filled();
        board.step(&action);
        assert_eq!(board.get_data(), cells);
        assert_eq!(board.score(), score);
        assert_eq!(board.filled(), filled);
    }
}

#[test]
fn step_that_moves_nothing_is_allowed() {
    let grid = vec![vec![Occupied(1), Occupied(2)], vec![Occupied(3), Empty]];
    let mut board = Board::from(grid.clone()).unwrap();
    board.step(&Action::Left);
    board.step(&Action::Up);
    assert_eq!(board.get_data(), grid);
    assert_eq!(board.score(), 0);
    assert_eq!(board.filled(), 3);
}

#[test]
fn lost_when_every_cell_is_occupied_even_if_tiles_could_merge() {
    let board = Board::from(vec![vec![Occupied(1), Occupied(1)], vec![Occupied(1), Occupied(1)]])
        .unwrap();
    assert!(board.lost());
    let board = Board::from(vec![vec![Occupied(1), Occupied(2)], vec![Occupied(3), Occupied(4)]])
        .unwrap();
    assert!(board.lost());
    let board =
        Board::from(vec![vec![Occupied(1), Occupied(1)], vec![Occupied(1), Empty]]).unwrap();
    assert!(!board.lost());
    let mut board = Board::from(vec![vec![Occupied(1), Occupied(1)]]).unwrap();
    assert!(board.lost());
    board.step(&Action::Left);
    assert!(!board.lost());
}

#[test]
fn sprinkle_with_picks_the_empty_cell_in_reading_order() {
    let grid = vec![
        vec![Occupied(5), Empty, Occupied(5)],
        vec![Occupied(5), Occupied(5), Occupied(5)],
        vec![Empty, Occupied(5), Empty],
    ];
    let places = [(0usize, 1usize), (2, 0), (2, 2)];
    for draw in 0..9usize {
        let mut board = Board::from(grid.clone()).unwrap();
        assert_eq!(board.sprinkle_with(draw, 0), Ok(()));
        let (r, c) = places[draw % 3];
        let mut expected = grid.clone();
        expected[r][c] = Occupied(1);
        assert_eq!(board.get_data(), expected);
        assert_eq!(board.filled(), 7);
        assert_eq!(board.score(), 0);
    }
}

#[test]
fn sprinkle_with_draws_power_one_for_eighty_in_a_hundred() {
    for draw in 0..300usize {
        let mut board = Board::new(1, 1).unwrap();
        assert_eq!(board.sprinkle_with(12345, draw), Ok(()));
        let expected = if draw % 100 < 80 { Occupied(1) } else { Occupied(2) };
        assert_eq!(board.get_data(), vec![vec![expected]]);
    }
    let mut board = Board::new(1, 1).unwrap();
    assert_eq!(board.sprinkle_with(0, 79), Ok(()));
    assert_eq!(board.get_data(), vec![vec![Occupied(1)]]);
    let mut board = Board::new(1, 1).unwrap();
    assert_eq!(board.sprinkle_with(0, 80), Ok(()));
    assert_eq!(board.get_data(), vec![vec![Occupied(2)]]);
    let mut board = Board::new(1, 1).unwrap();
    assert_eq!(board.sprinkle_with(0, usize::MAX), Ok(()));
    assert_eq!(board.get_data(), vec![vec![if usize::MAX % 100 < 80 {
        Occupied(1)
    } else {
        Occupied(2)
    }]]);
}

#[test]
fn sprinkle_on_a_full_board_is_an_error() {
    let grid = vec![vec![Occupied(1), Occupied(2)]];
    let mut board = Board::from(grid.clone()).unwrap();
    assert_eq!(board.sprinkle_with(3, 4), Err(BoardError::Full));
    assert_eq!(board.get_data(), grid);
    assert_eq!(board.filled(), 2);
    assert_eq!(board.sprinkle_random(), Err(BoardError::Full));
    assert_eq!(board.get_data(), grid);
    assert_eq!(board.filled(), 2);
}

#[test]
fn sprinkle_random_fills_one_empty_cell() {
    let mut board = Board::new(3, 2).unwrap();
    for placed in 1..=6u128 {
        let before = board.get_data();
        assert_eq!(board.sprinkle_random(), Ok(()));
        let after = board.get_data();
        let mut changed = 0;
        for r in 0..2 {
            for c in 0..3 {
                if before[r][c] != after[r][c] {
                    changed += 1;
                    assert_eq!(before[r][c], Empty);
                    assert!(after[r][c] == Occupied(1) || after[r][c] == Occupied(2));
                }
            }
        }
        assert_eq!(changed, 1);
        assert_eq!(board.filled(), placed);
        assert_eq!(board.score(), 0);
    }
    assert!(board.lost());
}

#[test]
fn sprinkle_random_draws_power_one_about_four_times_in_five() {
    let mut ones = 0u32;
    let mut twos = 0u32;
    for _ in 0..10_000 {
        let mut board = Board::new(1, 1).unwrap();
        assert_eq!(board.sprinkle_random(), Ok(()));
        match board.get_data()[0][0] {
            Tile::Occupied(1) => ones += 1,
            Tile::Occupied(2) => twos += 1,
            other => panic!("unexpected cell {:?}", other),
        }
    }
    assert_eq!(ones + twos, 10_000);
    assert!(ones >= 7_700 && ones <= 8_300, "power 1 came {} times", ones);
}

#[test]
fn sprinkle_random_reaches_every_empty_cell() {
    let mut seen = [[false; 2]; 2];
    for _ in 0..400 {
        let mut board = Board::new(2, 2).unwrap();
        assert_eq!(board.sprinkle_random(), Ok(()));
        let data = board.get_data();
        for r in 0..2 {
            for c in 0..2 {
                if data[r][c] != Empty {
                    seen[r][c] = true;
                }
            }
        }
    }
    assert_eq!(seen, [[true; 2]; 2]);
}

#[test]
fn filled_is_the_number_of_tiles_after_any_play() {
    let mut board = Board::new(4, 4).unwrap();
    let actions = [Action::Left, Action::Up, Action::Right, Action::Down];
    let mut draw = 7usize;
    for turn in 0..400usize {
        draw = draw.wrapping_mul(6364136223846793005).wrapping_add(1442695040888963407);
        let sprinkled = board.sprinkle_with(draw >> 7, draw >> 3);
        assert_eq!(board.filled(), tiles_on(&board));
        if sprinkled.is_err() {
            assert!(board.lost());
        }
        let score = board.score();
        assert!(board.can_step(&actions[turn % 4]));
        board.step(&actions[turn % 4]);
        assert_eq!(board.filled(), tiles_on(&board));
        assert!(board.score() >= score);
        assert_eq!(board.lost(), board.filled() == 16);
        assert_eq!(board.width(), 4);
        assert_eq!(board.height(), 4);
    }
}

#[test]
fn can_step_tells_when_the_score_would_not_fit() {
    let board = Board::from(vec![vec![Occupied(63), Occupied(63)]]).unwrap();
    assert!(!board.can_step(&Action::Left));
    assert!(!board.can_step(&Action::Right));
    assert!(board.can_step(&Action::Up));
    assert!(board.can_step(&Action::Down));

    let mut board = Board::from(vec![
        vec![Occupied(62), Occupied(62)],
        vec![Occupied(62), Occupied(62)],
    ])
    .unwrap();
    assert!(!board.can_step(&Action::Left));
    assert!(!board.can_step(&Action::Up));

    let mut single = Board::from(vec![vec![Occupied(62), Occupied(62)], vec![Empty, Empty]])
        .unwrap();
    assert!(single.can_step(&Action::Left));
    single.step(&Action::Left);
    assert_eq!(single.score(), 1u64 << 63);
    assert_eq!(single.get_data(), vec![vec![Occupied(63), Empty], vec![Empty, Empty]]);

    board.sprinkle_with(0, 0).unwrap_err();
    assert!(board.lost());
}

#[test]
fn render_frames_the_rows() {
    let board = Board::from(vec![
        vec![Occupied(1), Empty],
        vec![Occupied(11), Occupied(4)],
    ])
    .unwrap();
    let expected = "##############\r\n\
                    ##          ##\r\n\
                    ##  2       ##\r\n\
                    ##          ##\r\n\
                    ##2048  16  ##\r\n\
                    ##          ##\r\n\
                    ##############\r\n";
    assert_eq!(board.render(), expected);
}

#[test]
fn render_of_an_odd_width_has_the_shorter_frame() {
    let board = Board::from(vec![vec![Occupied(17), Occupied(3), Empty]]).unwrap();
    let mut expected = String::new();
    expected.push_str(&format!("{}\r\n", "##".repeat(9)));
    expected.push_str(&format!("##{}##\r\n", "  ".repeat(7)));
    expected.push_str(&format!("##{:^5}{:^5}{:^5}##\r\n", "131072", "8", ""));
    expected.push_str(&format!("##{}##\r\n", "  ".repeat(7)));
    expected.push_str(&format!("{}\r\n", "##".repeat(9)));
    assert_eq!(board.render(), expected);
    assert_eq!(board.render().split('\n').nth(2), Some("##131072  8       ##\r"));
}
