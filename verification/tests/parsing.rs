use conway::Conway;
use conway::ConwayError;
use conway::Coordinates;

fn board(rows: i32, cols: i32) -> Conway {
    Conway::new(Coordinates { row: rows, col: cols })
}

fn pairs(cs: &[Coordinates]) -> Vec<(i32, i32)> {
    let mut v = Vec::new();
    for c in cs {
        v.push((c.row, c.col));
    }
    v
}

#[test]
fn parse_yields_six_coordinates() {
    let b = board(600, 400);
    let cs = b.parse("0 0 0 1 1 2 1 3 2 0 2 1".to_string()).unwrap();
    let got = pairs(&cs);
    assert_eq!(got.len(), 6);
    for expected in [(0, 0), (0, 1), (1, 2), (1, 3), (2, 0), (2, 1)] {
        assert!(got.contains(&expected));
    }
}

#[test]
fn parse_rejects_odd_token_count() {
    let b = board(600, 400);
    assert_eq!(
        b.parse("0 0 1".to_string()).unwrap_err(),
        ConwayError::IncompleteCoordinates
    );
}

#[test]
fn parse_rejects_row_above_bound() {
    let b = board(600, 400);
    assert_eq!(
        b.parse("700 0".to_string()).unwrap_err(),
        ConwayError::ParseError
    );
}

#[test]
fn parse_rejects_col_above_bound() {
    let b = board(600, 400);
    assert_eq!(
        b.parse("0 0 0 500".to_string()).unwrap_err(),
        ConwayError::ParseError
    );
}

#[test]
fn parse_bound_is_inclusive_but_the_board_rejects_it() {
    // the parser admits a coordinate equal to the bound; marking that cell
    // alive is out of range for the grid itself
    let mut b = board(600, 400);
    let cs = b.parse("600 400".to_string()).unwrap();
    assert_eq!(pairs(&cs), vec![(600, 400)]);
    assert_eq!(b.make_alive(cs).unwrap_err(), ConwayError::OutOfRange);
}

#[test]
fn parse_rejects_huge_numbers() {
    let b = board(600, 400);
    assert_eq!(
        b.parse("99999999999999999999 0".to_string()).unwrap_err(),
        ConwayError::ParseError
    );
}

#[test]
fn parse_treats_any_non_digit_as_delimiter() {
    let b = board(600, 400);
    let cs = b.parse("12,34;x 5--6".to_string()).unwrap();
    assert_eq!(pairs(&cs), vec![(12, 34), (5, 6)]);
}

#[test]
fn parse_of_empty_input_yields_no_coordinates() {
    let b = board(600, 400);
    assert!(b.parse(String::new()).unwrap().is_empty());
    assert!(b.parse("no digits here".to_string()).unwrap().is_empty());
}

#[test]
fn parse_pair_reads_two_decimal_numbers() {
    let c = Conway::parse_pair("600", "400");
    assert_eq!((c.row, c.col), (600, 400));
    let c = Conway::parse_pair("0", "2147483647");
    assert_eq!((c.row, c.col), (0, 2147483647));
}

#[test]
fn make_alive_sets_exactly_the_named_cells() {
    let mut b = board(3, 3);
    b.make_alive(vec![
        Coordinates { row: 0, col: 0 },
        Coordinates { row: 2, col: 2 },
        Coordinates { row: 2, col: 2 },
    ])
    .unwrap();
    for r in 0..3 {
        for c in 0..3 {
            assert_eq!(b.cell(r, c), (r, c) == (0, 0) || (r, c) == (2, 2));
        }
    }
}

#[test]
fn make_alive_rejects_the_whole_batch_on_one_bad_coordinate() {
    let mut b = board(3, 3);
    let err = b
        .make_alive(vec![Coordinates { row: 1, col: 1 }, Coordinates { row: 3, col: 0 }])
        .unwrap_err();
    assert_eq!(err, ConwayError::OutOfRange);
    for r in 0..3 {
        for c in 0..3 {
            assert!(!b.cell(r, c));
        }
    }
}

#[test]
fn render_draws_live_and_dead_cells_row_by_row() {
    let mut b = board(2, 3);
    b.make_alive(vec![Coordinates { row: 0, col: 0 }, Coordinates { row: 1, col: 2 }])
        .unwrap();
    assert_eq!(b.render().as_str(), "#..\n..#\n");
}

#[test]
fn error_messages_describe_each_failure() {
    assert_eq!(
        ConwayError::ParseError.message(),
        "Numbers provided were not unsigned integers in range of the board size"
    );
    assert_eq!(
        ConwayError::IncompleteCoordinates.message(),
        "Please provide complete coordinates (the number of inputs should be a multiple of 2)"
    );
    assert_eq!(
        ConwayError::OutOfRange.message(),
        "Coordinates outside the board cannot be made alive"
    );
}
