//! Board generation: random mine placement and adjacent-mine counting.
//!
//! A fresh board starts all blank and concealed; `mine_count` distinct cells
//! are then turned into mines at random, and every cell's adjacent-mine
//! count is computed from the finished layout.
use vstd::prelude::*;
use rand::Rng;
use crate::minefield::{Minefield, lemma_index_in_bounds, lemma_index_injective};
use crate::tile::Tile;
use crate::tile_type::TileType;

verus! {

/// Rejected generation parameters.
#[derive(Debug, Copy, Clone, PartialEq, Eq, Structural)]
pub enum GenerateError {
    /// More mines were requested than the board has cells.
    TooManyMines,
}

/// Whether a tile holds a mine.
pub open spec fn is_mine(t: Tile) -> bool {
    t.tile_type == TileType::Mine
}

/// How many tiles of the sequence hold mines.
pub open spec fn mine_count_of(s: Seq<Tile>) -> nat
    decreases s.len(),
{
    if s.len() == 0 {
        0
    } else {
        mine_count_of(s.drop_last()) + (if is_mine(s.last()) {
            1nat
        } else {
            0nat
        })
    }
}

/// 1 if `(r, c)` lies on the board and holds a mine, 0 otherwise.
pub open spec fn mine_at(mf: Minefield<Tile>, r: int, c: int) -> nat {
    if 0 <= r < mf.num_rows && 0 <= c < mf.num_cols && is_mine(mf.cell(r, c)) {
        1nat
    } else {
        0nat
    }
}

/// The number of mines in the 3x3 box centred on `(r, c)`, clamped at the
/// board edges; generation counts the centre cell itself along with its
/// eight neighbours.
pub open spec fn adjacent_mines_of(mf: Minefield<Tile>, r: int, c: int) -> nat {
    mine_at(mf, r - 1, c - 1) + mine_at(mf, r - 1, c) + mine_at(mf, r - 1, c + 1) + mine_at(
        mf,
        r,
        c - 1,
    ) + mine_at(mf, r, c) + mine_at(mf, r, c + 1) + mine_at(mf, r + 1, c - 1) + mine_at(
        mf,
        r + 1,
        c,
    ) + mine_at(mf, r + 1, c + 1)
}

/// A ready-to-play board: the requested shape, exactly `mine_count` mines,
/// every tile concealed and unmarked, and every tile's stored count equal to
/// the number of mines in its clamped neighbourhood.
pub open spec fn board_generated(
    mf: Minefield<Tile>,
    rows: int,
    cols: int,
    mine_count: nat,
) -> bool {
    &&& mf.wf()
    &&& mf.num_rows == rows
    &&& mf.num_cols == cols
    &&& mine_count_of(mf@) == mine_count
    &&& forall|r: int, c: int|
        0 <= r < rows && 0 <= c < cols ==> {
            &&& (#[trigger] mf.cell(r, c)).hidden
            &&& !mf.cell(r, c).marked
            &&& mf.cell(r, c).adjacent_mines == adjacent_mines_of(mf, r, c)
        }
}

/// Relies on rand's `thread_rng` and `Rng::gen_range`: a value drawn
/// uniformly from `[0, n)`. `gen_range` panics only on an empty range, which
/// the precondition rules out.
#[verifier::external_body]
fn random_below(n: usize) -> (r: usize)
    requires
        n > 0,
    ensures
        r < n,
{
    rand::thread_rng().gen_range(0..n)
}

/// A sequence never holds more mines than tiles.
proof fn lemma_mine_count_le_len(s: Seq<Tile>)
    ensures
        mine_count_of(s) <= s.len(),
    decreases s.len(),
{
    if s.len() > 0 {
        lemma_mine_count_le_len(s.drop_last());
    }
}

/// A sequence without a mine has mine count zero.
proof fn lemma_mine_count_none(s: Seq<Tile>)
    requires
        forall|k: int| 0 <= k < s.len() ==> !is_mine(#[trigger] s[k]),
    ensures
        mine_count_of(s) == 0,
    decreases s.len(),
{
    if s.len() > 0 {
        lemma_mine_count_none(s.drop_last());
    }
}

/// Two boards of the same shape with mines in the same cells have the same
/// adjacent-mine count everywhere, whatever else differs between their
/// tiles.
proof fn lemma_same_mines_same_adjacent(pre: Minefield<Tile>, post: Minefield<Tile>, i: int, j: int)
    requires
        pre.wf(),
        post.wf(),
        post.num_rows == pre.num_rows,
        post.num_cols == pre.num_cols,
        forall|k: int| 0 <= k < pre@.len() ==> is_mine(#[trigger] post@[k]) == is_mine(pre@[k]),
    ensures
        adjacent_mines_of(post, i, j) == adjacent_mines_of(pre, i, j),
{
    assert forall|x: int, y: int| #[trigger] mine_at(post, x, y) == mine_at(pre, x, y) by {
        if 0 <= x < pre.num_rows && 0 <= y < pre.num_cols {
            lemma_index_in_bounds(x, y, pre.num_rows as int, pre.num_cols as int);
            assert(is_mine(post@[x * post.num_cols + y]) == is_mine(pre@[x * pre.num_cols + y]));
        }
    }
}

/// Replacing one tile changes the mine count exactly by the difference
/// between the new tile and the old one.
proof fn lemma_mine_count_update(s: Seq<Tile>, i: int, t: Tile)
    requires
        0 <= i < s.len(),
    ensures
        mine_count_of(s.update(i, t)) + (if is_mine(s[i]) {
            1nat
        } else {
            0nat
        }) == mine_count_of(s) + (if is_mine(t) {
            1nat
        } else {
            0nat
        }),
    decreases s.len(),
{
    let s2 = s.update(i, t);
    if i == s.len() - 1 {
        assert(s2.drop_last() =~= s.drop_last());
    } else {
        assert(s2.drop_last() =~= s.drop_last().update(i, t));
        assert(s2.last() == s.last());
        lemma_mine_count_update(s.drop_last(), i, t);
    }
}

/// A board whose mine count equals its cell count is all mines: the general
/// half of the full-density scenario.
pub proof fn lemma_full_board_all_mines(s: Seq<Tile>)
    requires
        mine_count_of(s) == s.len(),
    ensures
        forall|k: int| 0 <= k < s.len() ==> is_mine(#[trigger] s[k]),
    decreases s.len(),
{
    if s.len() > 0 {
        lemma_mine_count_le_len(s.drop_last());
        assert(is_mine(s.last()));
        lemma_full_board_all_mines(s.drop_last());
        assert forall|k: int| 0 <= k < s.len() implies is_mine(#[trigger] s[k]) by {
            if k < s.len() - 1 {
                assert(s[k] == s.drop_last()[k]);
            } else {
                assert(s[k] == s.last());
            }
        }
    }
}

/// A board generated with as many mines as it has cells is all mines.
pub proof fn lemma_full_density_board(mf: Minefield<Tile>, rows: int, cols: int)
    requires
        rows > 0,
        cols > 0,
        board_generated(mf, rows, cols, (rows * cols) as nat),
    ensures
        forall|r: int, c: int|
            0 <= r < rows && 0 <= c < cols ==> is_mine(#[trigger] mf.cell(r, c)),
{
    lemma_full_board_all_mines(mf@);
    assert forall|r: int, c: int|
        0 <= r < rows && 0 <= c < cols implies is_mine(#[trigger] mf.cell(r, c)) by {
        lemma_index_in_bounds(r, c, rows, cols);
    }
}

/// Whether the cell at `(r, c)` holds a mine.
fn is_mine_at(mf: &Minefield<Tile>, r: usize, c: usize) -> (b: bool)
    requires
        mf.wf(),
        r < mf.num_rows,
        c < mf.num_cols,
    ensures
        b == is_mine(mf.cell(r as int, c as int)),
{
    mf.get_at(r, c).tile_type == TileType::Mine
}

/// Counts the mines in the clamped 3x3 box centred on `(r, c)`.
fn count_adjacent_mines(mf: &Minefield<Tile>, r: usize, c: usize) -> (n: usize)
    requires
        mf.wf(),
        r < mf.num_rows,
        c < mf.num_cols,
    ensures
        n == adjacent_mines_of(*mf, r as int, c as int),
{
    let mut n: usize = 0;
    if r > 0 {
        if c > 0 && is_mine_at(mf, r - 1, c - 1) {
            n += 1;
        }
        if is_mine_at(mf, r - 1, c) {
            n += 1;
        }
        if c + 1 < mf.num_cols && is_mine_at(mf, r - 1, c + 1) {
            n += 1;
        }
    }
    if c > 0 && is_mine_at(mf, r, c - 1) {
        n += 1;
    }
    if is_mine_at(mf, r, c) {
        n += 1;
    }
    if c + 1 < mf.num_cols && is_mine_at(mf, r, c + 1) {
        n += 1;
    }
    if r + 1 < mf.num_rows {
        if c > 0 && is_mine_at(mf, r + 1, c - 1) {
            n += 1;
        }
        if is_mine_at(mf, r + 1, c) {
            n += 1;
        }
        if c + 1 < mf.num_cols && is_mine_at(mf, r + 1, c + 1) {
            n += 1;
        }
    }
    n
}

/// Builds a ready-to-play board: all tiles start blank and concealed,
/// `mine_count` distinct cells become mines, and every tile's adjacent-mine
/// count is computed from the layout. A request for more mines than the
/// board has cells is rejected before any placement starts.
///
/// Placement walks the cells once in row-major order and, at each cell,
/// mines it with probability (mines still to place) / (cells still to
/// visit). This selection sampling places every subset of the requested
/// size with equal probability and, unlike rejection sampling, terminates
/// for every density up to a fully mined board.
#[verifier::rlimit(60)]
pub fn random_minefield(rows: usize, cols: usize, mine_count: usize) -> (result: Result<
    Minefield<Tile>,
    GenerateError,
>)
    requires
        rows > 0,
        cols > 0,
        rows * cols <= usize::MAX,
    ensures
        result is Ok <==> mine_count <= rows * cols,
        result matches Ok(mf) ==> board_generated(mf, rows as int, cols as int, mine_count as nat),
        result matches Err(e) ==> e == GenerateError::TooManyMines,
{
    if mine_count > rows * cols {
        return Err(GenerateError::TooManyMines);
    }
    let n = rows * cols;
    let blank = Tile { tile_type: TileType::Blank, hidden: true, marked: false, adjacent_mines: 0 };
    let mut mf = Minefield::new(rows, cols, blank);
    proof {
        assert forall|k: int| 0 <= k < mf@.len() implies !is_mine(#[trigger] mf@[k]) by {}
        lemma_mine_count_none(mf@);
    }
    let mut placed: usize = 0;
    let mut seen: usize = 0;
    let mut r: usize = 0;
    while r < rows
        invariant
            mf.wf(),
            mf.num_rows == rows,
            mf.num_cols == cols,
            rows > 0,
            cols > 0,
            n == rows * cols,
            r <= rows,
            seen == r * cols,
            placed <= mine_count,
            mine_count <= n,
            placed + n >= mine_count + seen,
            mine_count_of(mf@) == placed,
            forall|k: int| seen <= k < mf@.len() ==> !is_mine(#[trigger] mf@[k]),
            forall|k: int|
                0 <= k < mf@.len() ==> (#[trigger] mf@[k]).hidden && !mf@[k].marked && mf@[
                    k
                ].adjacent_mines == 0,
        decreases rows - r,
    {
        let mut c: usize = 0;
        while c < cols
            invariant
                mf.wf(),
                mf.num_rows == rows,
                mf.num_cols == cols,
                rows > 0,
                cols > 0,
                n == rows * cols,
                r < rows,
                c <= cols,
                seen == r * cols + c,
                placed <= mine_count,
                mine_count <= n,
                placed + n >= mine_count + seen,
                mine_count_of(mf@) == placed,
                forall|k: int| seen <= k < mf@.len() ==> !is_mine(#[trigger] mf@[k]),
                forall|k: int|
                    0 <= k < mf@.len() ==> (#[trigger] mf@[k]).hidden && !mf@[k].marked && mf@[
                        k
                    ].adjacent_mines == 0,
            decreases cols - c,
        {
            proof {
                lemma_index_in_bounds(r as int, c as int, rows as int, cols as int);
            }
            let d = random_below(n - seen);
            if d < mine_count - placed {
                let ghost pre = mf;
                let t = mf.get_at_mut(r, c);
                t.tile_type = TileType::Mine;
                proof {
                    let idx = (r * cols + c) as int;
                    lemma_mine_count_update(pre@, idx, mf@[idx]);
                }
                placed += 1;
            }
            seen += 1;
            c += 1;
        }
        proof {
            assert(r * cols + cols == (r + 1) * cols) by (nonlinear_arith);
        }
        r += 1;
    }
    let mut r: usize = 0;
    while r < rows
        invariant
            mf.wf(),
            mf.num_rows == rows,
            mf.num_cols == cols,
            rows > 0,
            cols > 0,
            r <= rows,
            mine_count_of(mf@) == mine_count,
            forall|k: int| 0 <= k < mf@.len() ==> (#[trigger] mf@[k]).hidden && !mf@[k].marked,
            forall|i: int, j: int|
                0 <= i < r && 0 <= j < cols ==> (#[trigger] mf.cell(i, j)).adjacent_mines
                    == adjacent_mines_of(mf, i, j),
        decreases rows - r,
    {
        let mut c: usize = 0;
        while c < cols
            invariant
                mf.wf(),
                mf.num_rows == rows,
                mf.num_cols == cols,
                rows > 0,
                cols > 0,
                r < rows,
                c <= cols,
                mine_count_of(mf@) == mine_count,
                forall|k: int| 0 <= k < mf@.len() ==> (#[trigger] mf@[k]).hidden && !mf@[k].marked,
                forall|i: int, j: int|
                    0 <= i < r && 0 <= j < cols ==> (#[trigger] mf.cell(i, j)).adjacent_mines
                        == adjacent_mines_of(mf, i, j),
                forall|j: int|
                    0 <= j < c ==> (#[trigger] mf.cell(r as int, j)).adjacent_mines
                        == adjacent_mines_of(mf, r as int, j),
            decreases cols - c,
        {
            let cnt = count_adjacent_mines(&mf, r, c);
            let ghost pre = mf;
            proof {
                lemma_index_in_bounds(r as int, c as int, rows as int, cols as int);
            }
            let t = mf.get_at_mut(r, c);
            t.adjacent_mines = cnt;
            proof {
                let idx = (r * cols + c) as int;
                lemma_mine_count_update(pre@, idx, mf@[idx]);
                assert forall|k: int|
                    0 <= k < pre@.len() implies is_mine(#[trigger] mf@[k]) == is_mine(
                    pre@[k],
                ) by {}
                assert forall|i: int, j: int|
                    0 <= i < rows && 0 <= j < cols implies #[trigger] adjacent_mines_of(mf, i, j)
                    == adjacent_mines_of(pre, i, j) by {
                    lemma_same_mines_same_adjacent(pre, mf, i, j);
                };
                assert forall|i: int, j: int|
                    0 <= i < rows && 0 <= j < cols && (i, j) != (r as int, c as int) implies (
                #[trigger] mf.cell(i, j)) == pre.cell(i, j) by {
                    lemma_index_in_bounds(i, j, rows as int, cols as int);
                    lemma_index_injective(
                        i,
                        j,
                        r as int,
                        c as int,
                        rows as int,
                        cols as int,
                    );
                };
            }
            c += 1;
        }
        r += 1;
    }
    proof {
        assert forall|i: int, j: int|
            0 <= i < rows && 0 <= j < cols implies (#[trigger] mf.cell(i, j)).hidden && !mf.cell(
            i,
            j,
        ).marked by {
            lemma_index_in_bounds(i, j, rows as int, cols as int);
        };
    }
    Ok(mf)
}

} // verus!
