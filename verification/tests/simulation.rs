use conway::Conway;
use conway::Coordinates;

fn board(rows: i32, cols: i32) -> Conway {
    Conway::new(Coordinates { row: rows, col: cols })
}

fn coords(pairs: &[(i32, i32)]) -> Vec<Coordinates> {
    let mut v = Vec::new();
    for &(row, col) in pairs {
        v.push(Coordinates { row, col });
    }
    v
}

fn live_cells(b: &Conway) -> Vec<(i32, i32)> {
    let mut v = Vec::new();
    for r in 0..b.row {
        for c in 0..b.col {
            if b.cell(r, c) {
                v.push((r, c));
            }
        }
    }
    v
}

#[test]
fn empty_grid_is_unchanged_with_delta_zero() {
    let mut b = board(3, 3);
    let delta = b.next_state();
    assert_eq!(delta, 0);
    assert!(live_cells(&b).is_empty());
}

#[test]
fn lone_cell_dies_of_underpopulation() {
    let mut b = board(3, 3);
    b.make_alive(coords(&[(1, 1)])).unwrap();
    let delta = b.next_state();
    assert!(live_cells(&b).is_empty());
    // one death and no births: the net change is negative, clamped to zero
    assert_eq!(delta, 0);
}

#[test]
fn two_live_neighbors_keep_a_cell_alive() {
    // a blinker: the center of the row has exactly 2 live neighbors
    let mut b = board(5, 5);
    b.make_alive(coords(&[(2, 1), (2, 2), (2, 3)])).unwrap();
    let delta = b.next_state();
    assert!(b.cell(2, 2));
    assert_eq!(live_cells(&b), vec![(1, 2), (2, 2), (3, 2)]);
    // two births (above and below) and two deaths (the row ends)
    assert_eq!(delta, 0);
}

#[test]
fn block_of_three_neighbors_each_survives() {
    // a 2x2 block: every live cell has exactly 3 live neighbors
    let mut b = board(4, 4);
    b.make_alive(coords(&[(1, 1), (1, 2), (2, 1), (2, 2)])).unwrap();
    let delta = b.next_state();
    assert_eq!(live_cells(&b), vec![(1, 1), (1, 2), (2, 1), (2, 2)]);
    assert_eq!(delta, 0);
}

#[test]
fn four_live_neighbors_kill_a_cell() {
    // a plus shape: the center has 4 live neighbors and dies
    let mut b = board(3, 3);
    b.make_alive(coords(&[(0, 1), (1, 0), (1, 1), (1, 2), (2, 1)])).unwrap();
    b.next_state();
    assert!(!b.cell(1, 1));
}

#[test]
fn dead_cell_with_three_neighbors_is_born() {
    // an L tromino closes into a block: (1, 1) has exactly 3 live neighbors
    let mut b = board(3, 3);
    b.make_alive(coords(&[(0, 0), (0, 1), (1, 0)])).unwrap();
    let delta = b.next_state();
    assert!(b.cell(1, 1));
    assert_eq!(live_cells(&b), vec![(0, 0), (0, 1), (1, 0), (1, 1)]);
    // one birth, no deaths
    assert_eq!(delta, 1);
}

#[test]
fn dead_cell_with_two_neighbors_stays_dead() {
    let mut b = board(3, 3);
    b.make_alive(coords(&[(0, 0), (0, 2)])).unwrap();
    b.next_state();
    assert!(!b.cell(0, 1));
}

#[test]
fn corner_cell_counts_at_most_three_neighbors() {
    // on a fully live 3x3 grid a corner sees 3, an edge 5, the center 8;
    // with wraparound every count would be 8
    let mut b = board(3, 3);
    let mut all = Vec::new();
    for r in 0..3 {
        for c in 0..3 {
            all.push(Coordinates { row: r, col: c });
        }
    }
    b.make_alive(all).unwrap();
    assert_eq!(Conway::find_neighbours(0, &b.board, 3, 3), 3);
    assert_eq!(Conway::find_neighbours(1, &b.board, 3, 3), 5);
    assert_eq!(Conway::find_neighbours(4, &b.board, 3, 3), 8);
}

#[test]
fn no_wraparound_between_opposite_edges() {
    // the far corner is not a neighbor of (0, 0); with wraparound it would be
    let mut b = board(3, 3);
    b.make_alive(coords(&[(2, 2)])).unwrap();
    assert_eq!(Conway::find_neighbours(0, &b.board, 3, 3), 0);
}

#[test]
fn still_life_repeats_on_the_next_check() {
    // a block with margin is a still life: the state after one transition
    // is an exact repeat of the tracked one
    let mut b = board(6, 6);
    b.make_alive(coords(&[(2, 2), (2, 3), (3, 2), (3, 3)])).unwrap();
    let mut seen: Vec<Vec<bool>> = Vec::new();
    assert!(!b.track_duplicates(&mut seen));
    b.next_state();
    assert!(b.track_duplicates(&mut seen));
}

#[test]
fn oscillator_repeats_after_its_period() {
    let mut b = board(5, 5);
    b.make_alive(coords(&[(2, 1), (2, 2), (2, 3)])).unwrap();
    let mut seen: Vec<Vec<bool>> = Vec::new();
    assert!(!b.track_duplicates(&mut seen));
    b.next_state();
    assert!(!b.track_duplicates(&mut seen));
    b.next_state();
    assert!(b.track_duplicates(&mut seen));
    assert_eq!(seen.len(), 2);
}

#[test]
fn distinct_states_are_not_reported_as_repeats() {
    let mut seen: Vec<Vec<bool>> = Vec::new();
    let mut a = board(3, 3);
    a.make_alive(coords(&[(0, 0)])).unwrap();
    let empty = board(3, 3);
    assert!(!a.track_duplicates(&mut seen));
    assert!(!empty.track_duplicates(&mut seen));
    assert!(a.track_duplicates(&mut seen));
    assert_eq!(seen.len(), 2);
}
