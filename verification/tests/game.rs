use minesweeper_rs::generator::{random_minefield, GenerateError};
use minesweeper_rs::minefield::Minefield;
use minesweeper_rs::tile::Tile;
use minesweeper_rs::tile_type::TileType;

fn blank_tile() -> Tile {
    Tile { tile_type: TileType::Blank, hidden: true, marked: false, adjacent_mines: 0 }
}

fn count_mines(mf: &Minefield<Tile>) -> usize {
    let mut mines: usize = 0;
    for r in 0..mf.num_rows {
        for c in 0..mf.num_cols {
            if mf.get_at(r, c).tile_type == TileType::Mine {
                mines += 1;
            }
        }
    }
    mines
}

/// The number of mines in the clamped 3x3 box centred on `(r, c)`, the
/// centre cell included, recomputed by brute force.
fn brute_force_adjacent(mf: &Minefield<Tile>, r: usize, c: usize) -> usize {
    let mut mines: usize = 0;
    let r_lo = if r > 0 { r - 1 } else { 0 };
    let c_lo = if c > 0 { c - 1 } else { 0 };
    let r_hi = if r + 2 < mf.num_rows { r + 2 } else { mf.num_rows };
    let c_hi = if c + 2 < mf.num_cols { c + 2 } else { mf.num_cols };
    for i in r_lo..r_hi {
        for j in c_lo..c_hi {
            if mf.get_at(i, j).tile_type == TileType::Mine {
                mines += 1;
            }
        }
    }
    mines
}

#[test]
fn generated_board_has_exact_mine_count() {
    let mf = random_minefield(4, 7, 6).unwrap();
    assert_eq!(mf.num_rows, 4);
    assert_eq!(mf.num_cols, 7);
    assert_eq!(count_mines(&mf), 6);
    for r in 0..4 {
        for c in 0..7 {
            let t = mf.get_at(r, c);
            assert!(t.hidden);
            assert!(!t.marked);
        }
    }
}

#[test]
fn adjacency_counts_match_brute_force() {
    let mf = random_minefield(6, 4, 7).unwrap();
    for r in 0..6 {
        for c in 0..4 {
            assert_eq!(mf.get_at(r, c).adjacent_mines, brute_force_adjacent(&mf, r, c));
        }
    }
}

#[test]
fn five_by_five_scenario() {
    let mf = random_minefield(5, 5, 5).unwrap();
    assert_eq!(count_mines(&mf), 5);
    for r in 0..5 {
        for c in 0..5 {
            let t = mf.get_at(r, c);
            if t.tile_type == TileType::Blank {
                assert!(t.adjacent_mines <= 8);
            }
        }
    }
}

#[test]
fn zero_mines_leaves_board_blank() {
    let mf = random_minefield(3, 3, 0).unwrap();
    assert_eq!(count_mines(&mf), 0);
    for r in 0..3 {
        for c in 0..3 {
            assert_eq!(mf.get_at(r, c).adjacent_mines, 0);
        }
    }
}

#[test]
fn full_density_terminates_all_mines() {
    let mf = random_minefield(2, 2, 4).unwrap();
    assert_eq!(count_mines(&mf), 4);
    for r in 0..2 {
        for c in 0..2 {
            let t = mf.get_at(r, c);
            assert_eq!(t.tile_type, TileType::Mine);
            assert_eq!(t.adjacent_mines, 4);
        }
    }
}

#[test]
fn too_many_mines_rejected() {
    assert!(matches!(random_minefield(2, 2, 5), Err(GenerateError::TooManyMines)));
    assert!(random_minefield(2, 2, 4).is_ok());
}

#[test]
fn reveal_is_idempotent() {
    let mut once = Tile { tile_type: TileType::Mine, hidden: true, marked: true, adjacent_mines: 2 };
    once.click();
    assert!(!once.hidden);
    assert!(!once.marked);
    assert_eq!(once.tile_type, TileType::Mine);
    assert_eq!(once.adjacent_mines, 2);
    let mut twice = once;
    twice.click();
    assert_eq!(twice.tile_type, once.tile_type);
    assert_eq!(twice.hidden, once.hidden);
    assert_eq!(twice.marked, once.marked);
    assert_eq!(twice.adjacent_mines, once.adjacent_mines);
}

#[test]
fn flag_after_reveal_is_noop() {
    let mut t = blank_tile();
    t.click();
    t.mark();
    assert!(!t.hidden);
    assert!(!t.marked);
}

#[test]
fn flag_toggle_pair_cancels() {
    let mut t = blank_tile();
    t.mark();
    assert!(t.marked);
    assert!(t.hidden);
    t.mark();
    assert!(!t.marked);
    assert!(t.hidden);
}

#[test]
fn flag_then_reveal_ends_unflagged() {
    let mut t = blank_tile();
    t.mark();
    t.click();
    assert!(!t.hidden);
    assert!(!t.marked);
}

#[test]
fn reveal_blank_does_not_cascade() {
    let mut mf = Minefield::new(3, 3, blank_tile());
    mf.get_at_mut(1, 1).click();
    for r in 0..3 {
        for c in 0..3 {
            let t = mf.get_at(r, c);
            assert_eq!(t.adjacent_mines, 0);
            if (r, c) == (1, 1) {
                assert!(!t.hidden);
            } else {
                assert!(t.hidden);
            }
        }
    }
}

#[test]
fn grid_addressing_routes_distinct_cells() {
    let mut g = Minefield::new(3, 5, 0usize);
    for r in 0..3 {
        for c in 0..5 {
            assert_eq!(*g.get_at(r, c), 0);
        }
    }
    for r in 0..3 {
        for c in 0..5 {
            *g.get_at_mut(r, c) = r * 100 + c;
        }
    }
    for r in 0..3 {
        for c in 0..5 {
            assert_eq!(*g.get_at(r, c), r * 100 + c);
        }
    }
}

#[test]
fn nearby_mines_formats_decimal() {
    let mut t = blank_tile();
    assert_eq!(t.nearby_mines(), "0");
    t.adjacent_mines = 5;
    assert_eq!(t.nearby_mines(), "5");
    t.adjacent_mines = 12;
    assert_eq!(t.nearby_mines(), "12");
    t.adjacent_mines = 120;
    assert_eq!(t.nearby_mines(), "120");
}
