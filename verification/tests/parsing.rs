use labyrinth::board::process_char;
use labyrinth::text::{render_rows, split_lines};
use labyrinth::{BoardError, Game, Grid};

fn rows(lines: &[&str]) -> Vec<Vec<char>> {
    lines.iter().map(|line| line.chars().collect()).collect()
}

fn error_of(board: &str) -> BoardError {
    match Game::from_board(board) {
        Ok(_) => panic!("the board was accepted"),
        Err(error) => error,
    }
}

#[test]
fn lines_are_cut_at_line_feeds() {
    assert_eq!(split_lines("X T\nX M G"), rows(&["X T", "X M G"]));
}

#[test]
fn a_final_line_feed_adds_no_line() {
    assert_eq!(split_lines("ab\ncd\n"), rows(&["ab", "cd"]));
    assert_eq!(split_lines("\n"), rows(&[""]));
    assert_eq!(split_lines("a\n\n"), rows(&["a", ""]));
}

#[test]
fn the_empty_text_has_no_line() {
    assert_eq!(split_lines(""), Vec::<Vec<char>>::new());
}

#[test]
fn a_carriage_return_before_a_line_feed_is_dropped() {
    assert_eq!(split_lines("ab\r\ncd\r\n"), rows(&["ab", "cd"]));
    assert_eq!(split_lines("\r\n"), rows(&[""]));
    assert_eq!(split_lines("a\r\r\n"), rows(&["a\r"]));
}

#[test]
fn a_carriage_return_elsewhere_stays() {
    assert_eq!(split_lines("a\rb\ncd\r"), rows(&["a\rb", "cd\r"]));
}

#[test]
fn lines_agree_with_the_standard_library() {
    let texts = [
        "",
        "\n",
        "\r",
        "\r\n",
        "X T\nX M G",
        "X T\nX M G\n",
        "a\n\nb",
        "a\r\n\r\nb\r",
        "\n\n\n",
        "one\rtwo\n\rthree\r\n",
    ];
    for text in texts {
        let expected: Vec<Vec<char>> = text.lines().map(|line| line.chars().collect()).collect();
        assert_eq!(split_lines(text), expected, "for {:?}", text);
    }
}

#[test]
fn process_char_passes_walls_and_empty_tiles() {
    let mut g = None;
    let mut t = None;
    let mut m = None;
    assert_eq!(process_char(' ', (0, 0), &mut g, &mut t, &mut m), Ok(' '));
    assert_eq!(process_char('X', (0, 1), &mut g, &mut t, &mut m), Ok('X'));
    assert_eq!((g, t, m), (None, None, None));
}

#[test]
fn process_char_records_the_first_meeting() {
    let mut g = None;
    let mut t = None;
    let mut m = None;
    assert_eq!(process_char('G', (1, 2), &mut g, &mut t, &mut m), Ok('G'));
    assert_eq!(process_char('T', (3, 4), &mut g, &mut t, &mut m), Ok('T'));
    assert_eq!(process_char('M', (5, 6), &mut g, &mut t, &mut m), Ok('M'));
    assert_eq!(g, Some((1, 2)));
    assert_eq!(t, Some((3, 4)));
    assert_eq!(m, Some((5, 6)));
}

#[test]
fn process_char_refuses_the_second_meeting() {
    let mut g = Some((0, 0));
    let mut t = Some((0, 1));
    let mut m = Some((0, 2));
    assert_eq!(process_char('G', (1, 0), &mut g, &mut t, &mut m), Err(BoardError::MultipleGoal));
    assert_eq!(process_char('T', (1, 1), &mut g, &mut t, &mut m), Err(BoardError::MultipleTheseus));
    assert_eq!(
        process_char('M', (1, 2), &mut g, &mut t, &mut m),
        Err(BoardError::MultipleMinotaur)
    );
    assert_eq!(g, Some((0, 0)));
    assert_eq!(t, Some((0, 1)));
    assert_eq!(m, Some((0, 2)));
}

#[test]
fn process_char_refuses_other_characters() {
    let mut g = None;
    let mut t = None;
    let mut m = None;
    assert_eq!(
        process_char('x', (0, 0), &mut g, &mut t, &mut m),
        Err(BoardError::InvalidCharacter('x'))
    );
    assert_eq!(
        process_char('\r', (0, 0), &mut g, &mut t, &mut m),
        Err(BoardError::InvalidCharacter('\r'))
    );
    assert_eq!((g, t, m), (None, None, None));
}

#[test]
fn a_board_is_accepted() {
    let game = Game::from_board("X T\nX M G").unwrap();
    assert_eq!(game.theseus_pos(), (0, 2));
    assert_eq!(game.minotaur_pos(), (1, 2));
    assert!(game.is_wall(0, 0));
    assert!(game.is_empty(0, 1));
    assert!(game.is_theseus(0, 2));
    assert!(game.is_wall(1, 0));
    assert!(game.is_minotaur(1, 2));
    assert!(game.is_goal(1, 4));
    assert!(!game.is_goal(1, 3));
}

#[test]
fn an_invalid_character_is_refused() {
    assert_eq!(error_of("X T\nX?M G"), BoardError::InvalidCharacter('?'));
    assert_eq!(error_of("t"), BoardError::InvalidCharacter('t'));
}

#[test]
fn a_lone_carriage_return_is_an_invalid_character() {
    assert_eq!(error_of("T\rG\nM"), BoardError::InvalidCharacter('\r'));
    assert_eq!(error_of("TGM\r"), BoardError::InvalidCharacter('\r'));
}

#[test]
fn no_rows_is_an_invalid_size() {
    assert_eq!(error_of(""), BoardError::InvalidSize);
    assert_eq!(Grid::from_rows(Vec::new()).err(), Some(BoardError::InvalidSize));
}

#[test]
fn an_empty_row_is_an_invalid_size() {
    assert_eq!(error_of("T G\n\nM"), BoardError::InvalidSize);
    assert_eq!(error_of("\n"), BoardError::InvalidSize);
    assert_eq!(error_of("TGM\n\n"), BoardError::InvalidSize);
}

#[test]
fn an_empty_row_is_found_where_the_scan_meets_it() {
    // The empty row comes before the second Theseus, and after the stray character.
    assert_eq!(error_of("T\n\nT"), BoardError::InvalidSize);
    assert_eq!(error_of("?\n\nT"), BoardError::InvalidCharacter('?'));
}

#[test]
fn the_first_missing_piece_is_reported() {
    assert_eq!(error_of("X X"), BoardError::NoGoal);
    assert_eq!(error_of("X T"), BoardError::NoGoal);
    assert_eq!(error_of("X M"), BoardError::NoGoal);
    assert_eq!(error_of("T M"), BoardError::NoGoal);
    assert_eq!(error_of("X G"), BoardError::NoTheseus);
    assert_eq!(error_of("M G"), BoardError::NoTheseus);
    assert_eq!(error_of("T G"), BoardError::NoMinotaur);
}

#[test]
fn a_fault_comes_before_a_missing_piece() {
    assert_eq!(error_of("X?"), BoardError::InvalidCharacter('?'));
    assert_eq!(error_of("TT"), BoardError::MultipleTheseus);
}

#[test]
fn a_second_theseus_is_refused() {
    assert_eq!(error_of("T T\nM G"), BoardError::MultipleTheseus);
    assert_eq!(error_of("T G\nM T"), BoardError::MultipleTheseus);
}

#[test]
fn a_second_theseus_ends_the_scan() {
    // What follows the second Theseus is not looked at.
    assert_eq!(error_of("TT?"), BoardError::MultipleTheseus);
    assert_eq!(error_of("T\nT\n\nGG"), BoardError::MultipleTheseus);
    // What comes before it is.
    assert_eq!(error_of("?TT"), BoardError::InvalidCharacter('?'));
    assert_eq!(error_of("MMTT"), BoardError::MultipleMinotaur);
}

#[test]
fn a_second_goal_is_refused() {
    assert_eq!(error_of("G G\nT M"), BoardError::MultipleGoal);
}

#[test]
fn a_second_minotaur_is_refused() {
    assert_eq!(error_of("M G\nT M"), BoardError::MultipleMinotaur);
}

#[test]
fn rows_may_differ_in_length() {
    let grid = Grid::from_board("T\nXXM\nG").unwrap();
    assert!(grid.in_bounds((0, 0)));
    assert!(grid.in_bounds((0, 2)));
    assert!(grid.in_bounds((2, 2)));
    assert!(!grid.in_bounds((3, 0)));
    assert!(!grid.in_bounds((0, 3)));
    let game = Game::from_board("T\nXXM\nG").unwrap();
    assert!(game.has_cell(0, 0));
    assert!(!game.has_cell(0, 1));
    assert!(game.has_cell(1, 2));
    assert!(!game.has_cell(2, 1));
    assert!(!game.has_cell(3, 0));
}

#[test]
fn the_bounds_are_the_highest_indices() {
    let grid = Grid::from_board("X T\nX M G").unwrap();
    assert!(grid.in_bounds((1, 4)));
    assert!(grid.in_bounds((0, 4)));
    assert!(!grid.in_bounds((2, 0)));
    assert!(!grid.in_bounds((1, 5)));
}

#[test]
fn from_rows_agrees_with_from_board() {
    let grid = Grid::from_rows(rows(&["X T", "X M G"])).unwrap();
    assert!(grid.in_bounds((1, 4)));
    assert!(!grid.in_bounds((1, 5)));
    assert_eq!(
        Grid::from_rows(rows(&["T G", "", "M"])).err(),
        Some(BoardError::InvalidSize)
    );
    assert_eq!(
        Grid::from_rows(rows(&["T\nG M"])).err(),
        Some(BoardError::InvalidCharacter('\n'))
    );
}

#[test]
fn rendering_keeps_every_row() {
    let game = Game::from_board("X T\nX M G").unwrap();
    assert_eq!(game.render(), "X T \nX M G \n");
}

#[test]
fn rendering_keeps_rows_of_different_lengths() {
    let game = Game::from_board("T\nXXM\nG\n").unwrap();
    assert_eq!(game.render(), "T \nXXM \nG \n");
}

#[test]
fn rendering_after_windows_line_ends() {
    let game = Game::from_board("T G\r\nM  \r\n").unwrap();
    assert_eq!(game.render(), "T G \nM   \n");
}

#[test]
fn a_rendered_board_reads_back_with_the_marker() {
    let board = "X X X\nX T X\nX   X\nX M X\nX G X\nX X X";
    let game = Game::from_board(board).unwrap();
    let text = game.render();
    let again: Vec<Vec<char>> = split_lines(&text);
    let first: Vec<Vec<char>> = split_lines(board);
    assert_eq!(again.len(), first.len());
    for (shown, given) in again.iter().zip(first.iter()) {
        let mut marked = given.clone();
        marked.push(' ');
        assert_eq!(shown, &marked);
    }
    assert!(Game::from_board(&text).is_ok());
}

#[test]
fn render_rows_writes_each_row_and_its_marker() {
    assert_eq!(render_rows(&rows(&["ab", "", "c"])), "ab \n \nc \n");
    assert_eq!(render_rows(&Vec::new()), "");
}

#[test]
fn messages_name_the_error() {
    assert_eq!(BoardError::InvalidCharacter('?').message(), "Invalid character: ?");
    assert_eq!(BoardError::InvalidCharacter('é').message(), "Invalid character: é");
    assert_eq!(BoardError::InvalidSize.message(), "Invalid size");
    assert_eq!(BoardError::NoMinotaur.message(), "No minotaur");
    assert_eq!(BoardError::NoTheseus.message(), "No theseus");
    assert_eq!(BoardError::NoGoal.message(), "No goal");
    assert_eq!(BoardError::MultipleMinotaur.message(), "Multiple minotaur");
    assert_eq!(BoardError::MultipleTheseus.message(), "Multiple theseus");
    assert_eq!(BoardError::MultipleGoal.message(), "Multiple goal");
}
