//! The export pipeline's decisions: which pixels produce an entity, in what
//! order the entities of one row appear, and how per-row strings are joined
//! into the final document.
//!
//! Row strings may be computed concurrently by the caller; [`join_strings`]
//! concatenates them strictly in row-index order, so the document is the same
//! as for a sequential top-to-bottom run whatever order rows finished in.

use vstd::prelude::*;
use vstd::string::StringExecFns;
use crate::bitmap_parser::{Bitmap, RGB};

verus! {

/// Whether a pixel is the white background sentinel, all channels 255.
pub open spec fn is_white(p: RGB) -> bool {
    p.r == 255 && p.g == 255 && p.b == 255
}

/// Whether a pixel survives the filter: every pixel does, unless the caller
/// asked to exclude white pixels and this one is white.
pub open spec fn emits(p: RGB, exclude_white: bool) -> bool {
    !(exclude_white && is_white(p))
}

/// The columns in `[0, upto)` of `row`, in increasing order, whose pixels
/// survive the filter.
pub open spec fn emitted_cols(row: Seq<RGB>, exclude_white: bool, upto: int) -> Seq<int>
    decreases upto,
{
    if upto <= 0 {
        Seq::empty()
    } else if emits(row[upto - 1], exclude_white) {
        emitted_cols(row, exclude_white, upto - 1).push(upto - 1)
    } else {
        emitted_cols(row, exclude_white, upto - 1)
    }
}

/// How many pixels of `row` produce an entity.
pub open spec fn emit_count_row(row: Seq<RGB>, exclude_white: bool) -> nat {
    emitted_cols(row, exclude_white, row.len() as int).len()
}

/// How many pixels of the whole grid produce an entity.
pub open spec fn emit_count(grid: Seq<Seq<RGB>>, exclude_white: bool) -> nat
    decreases grid.len(),
{
    if grid.len() == 0 {
        0
    } else {
        emit_count(grid.drop_last(), exclude_white) + emit_count_row(grid.last(), exclude_white)
    }
}

/// Decides whether the pixel `p` produces an entity in the export.
pub fn should_emit(p: &RGB, exclude_white: bool) -> (r: bool)
    ensures
        r == emits(*p, exclude_white),
{
    !(exclude_white && p.r == 255 && p.g == 255 && p.b == 255)
}

/// The columns of row `y` that produce an entity, in increasing column
/// order: exactly the columns whose pixel survives the filter.
pub fn emitted_columns(bm: &Bitmap, y: u32, exclude_white: bool) -> (cols: Vec<u32>)
    requires
        bm.wf(),
        y < bm.height,
    ensures
        cols@.map_values(|c: u32| c as int) == emitted_cols(
            bm@[y as int],
            exclude_white,
            bm.width as int,
        ),
        cols@.len() == emit_count_row(bm@[y as int], exclude_white),
        forall|i: int| 0 <= i < cols@.len() ==> (#[trigger] cols@[i]) < bm.width,
{
    let mut cols: Vec<u32> = Vec::new();
    let mut x: u32 = 0;
    while x < bm.width
        invariant
            x <= bm.width,
            bm.wf(),
            y < bm.height,
            cols@.map_values(|c: u32| c as int) == emitted_cols(
                bm@[y as int],
                exclude_white,
                x as int,
            ),
            forall|i: int| 0 <= i < cols@.len() ==> (#[trigger] cols@[i]) < bm.width,
        decreases bm.width - x,
    {
        let p = bm.get_pixel_at(x, y);
        let ghost prev = cols@;
        if should_emit(p, exclude_white) {
            cols.push(x);
            proof {
                assert(cols@.map_values(|c: u32| c as int) =~= prev.map_values(
                    |c: u32| c as int,
                ).push(x as int));
            }
        }
        x = x + 1;
    }
    cols
}

/// The concatenation of a sequence of strings, in index order.
pub open spec fn concat_all(parts: Seq<Seq<char>>) -> Seq<char>
    decreases parts.len(),
{
    if parts.len() == 0 {
        Seq::empty()
    } else {
        concat_all(parts.drop_last()) + parts.last()
    }
}

/// Joins already-computed part strings into one document, strictly in index
/// order. However the parts were produced — sequentially or by concurrent
/// workers that each filled their own slot — the result depends only on the
/// indexed contents, which makes the export deterministic in the number of
/// workers and their completion order.
pub fn join_strings(parts: &Vec<String>) -> (doc: String)
    ensures
        doc@ == concat_all(parts@.map_values(|s: String| s@)),
{
    let mut doc = String::new();
    let mut i: usize = 0;
    while i < parts.len()
        invariant
            i <= parts@.len(),
            doc@ == concat_all(parts@.map_values(|s: String| s@).take(i as int)),
        decreases parts@.len() - i,
    {
        let ghost m = parts@.map_values(|s: String| s@);
        doc.append(parts[i].as_str());
        proof {
            assert(m.take(i + 1).drop_last() =~= m.take(i as int));
            assert(m.take(i + 1).last() == m[i as int]);
        }
        i = i + 1;
    }
    proof {
        let m = parts@.map_values(|s: String| s@);
        assert(m.take(parts@.len() as int) =~= m);
    }
    doc
}

/// Filtering never adds entities: with the white filter on, no prefix of a
/// row emits more columns than with it off, and strictly fewer as soon as
/// the prefix holds a white pixel.
proof fn lemma_row_filter_le(row: Seq<RGB>, upto: int)
    requires
        0 <= upto <= row.len(),
    ensures
        emitted_cols(row, true, upto).len() <= emitted_cols(row, false, upto).len(),
        (exists|x: int| 0 <= x < upto && is_white(#[trigger] row[x])) ==> emitted_cols(
            row,
            true,
            upto,
        ).len() < emitted_cols(row, false, upto).len(),
    decreases upto,
{
    if upto > 0 {
        lemma_row_filter_le(row, upto - 1);
        if exists|x: int| 0 <= x < upto && is_white(#[trigger] row[x]) {
            let x = choose|x: int| 0 <= x < upto && is_white(#[trigger] row[x]);
            if x < upto - 1 {
                assert(exists|x: int| 0 <= x < upto - 1 && is_white(#[trigger] row[x]));
            }
        }
    }
}

/// The grid-level form of the previous lemma, summed over all rows.
proof fn lemma_grid_filter_le(grid: Seq<Seq<RGB>>)
    ensures
        emit_count(grid, true) <= emit_count(grid, false),
    decreases grid.len(),
{
    if grid.len() > 0 {
        lemma_grid_filter_le(grid.drop_last());
        lemma_row_filter_le(grid.last(), grid.last().len() as int);
    }
}

/// A grid that contains at least one white pixel produces strictly fewer
/// entities with the white filter on than with it off.
pub proof fn lemma_white_filter_strict(grid: Seq<Seq<RGB>>)
    requires
        exists|y: int, x: int|
            0 <= y < grid.len() && 0 <= x < grid[y].len() && is_white(#[trigger] grid[y][x]),
    ensures
        emit_count(grid, true) < emit_count(grid, false),
    decreases grid.len(),
{
    let (y, x) = choose|y: int, x: int|
        0 <= y < grid.len() && 0 <= x < grid[y].len() && is_white(#[trigger] grid[y][x]);
    lemma_row_filter_le(grid.last(), grid.last().len() as int);
    if y == grid.len() - 1 {
        lemma_grid_filter_le(grid.drop_last());
        assert(exists|j: int| 0 <= j < grid.last().len() && is_white(#[trigger] grid.last()[j]));
    } else {
        assert(grid.drop_last()[y] == grid[y]);
        assert(exists|yy: int, xx: int|
            0 <= yy < grid.drop_last().len() && 0 <= xx < grid.drop_last()[yy].len() && is_white(
                #[trigger] grid.drop_last()[yy][xx],
            ));
        lemma_white_filter_strict(grid.drop_last());
    }
}

/// With the white filter on, a grid whose pixels are all white produces no
/// entities at all.
pub proof fn lemma_all_white_yields_nothing(grid: Seq<Seq<RGB>>)
    requires
        forall|y: int, x: int|
            0 <= y < grid.len() && 0 <= x < grid[y].len() ==> is_white(#[trigger] grid[y][x]),
    ensures
        emit_count(grid, true) == 0,
    decreases grid.len(),
{
    if grid.len() > 0 {
        assert forall|y: int, x: int|
            0 <= y < grid.drop_last().len() && 0 <= x < grid.drop_last()[y].len() implies is_white(
            #[trigger] grid.drop_last()[y][x],
        ) by {
            assert(grid.drop_last()[y] == grid[y]);
        }
        lemma_all_white_yields_nothing(grid.drop_last());
        lemma_all_white_row(grid.last(), grid.last().len() as int, grid.len() - 1, grid);
    }
}

/// An all-white row emits no column with the filter on.
proof fn lemma_all_white_row(row: Seq<RGB>, upto: int, y: int, grid: Seq<Seq<RGB>>)
    requires
        0 <= upto <= row.len(),
        0 <= y < grid.len(),
        row == grid[y],
        forall|yy: int, x: int|
            0 <= yy < grid.len() && 0 <= x < grid[yy].len() ==> is_white(#[trigger] grid[yy][x]),
    ensures
        emitted_cols(row, true, upto).len() == 0,
    decreases upto,
{
    if upto > 0 {
        assert(is_white(grid[y][upto - 1]));
        lemma_all_white_row(row, upto - 1, y, grid);
    }
}

} // verus!
