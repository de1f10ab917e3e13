//! The tiles a map camera sees. The camera's own state is floating point; the
//! integer part of its visibility computation lives here: from the tile
//! under the view's centre and the number of tiles across the view, the
//! window of tiles to show, and the tiles of that window in order.

use vstd::prelude::*;
use vstd::arithmetic::power2::{lemma2_to64, lemma_pow2_pos, lemma_pow2_strictly_increases};
use vstd::arithmetic::div_mod::lemma_fundamental_div_mod_converse;
use crate::map::tile::{TileId, tiles_per_axis, wrap_tile_x, is_valid_tile_y, wrap_tile_x_defined};

verus! {

/// Integer division by two, rounding toward zero as Rust's `/` does.
pub open spec fn half_toward_zero(a: int) -> int {
    if a >= 0 {
        a / 2
    } else {
        -((-a) / 2)
    }
}

/// The number of integers in `lo..=hi`.
pub open spec fn span(lo: int, hi: int) -> nat {
    if hi >= lo {
        (hi - lo + 1) as nat
    } else {
        0
    }
}

/// Whether row `y` exists at zoom `z` (as `is_valid_tile_y` decides).
pub open spec fn row_exists(y: int, z: u8) -> bool {
    z < 31 && 0 <= y < tiles_per_axis(z)
}

/// The tiles of row `y` for the columns `min_x .. min_x + count`, each column
/// wrapped around the world.
pub open spec fn row_tiles(z: u8, min_x: int, count: nat, y: int) -> Seq<TileId> {
    Seq::new(count, |i: int| TileId { x: ((min_x + i) % tiles_per_axis(z)) as u32, y: y as u32, z })
}

/// The tiles of the first `rows` rows from `min_y` on, row by row, for the
/// columns `min_x..=max_x`; rows outside the map are left out.
pub open spec fn grid_tiles(z: u8, min_x: int, max_x: int, min_y: int, rows: nat) -> Seq<TileId>
    decreases rows,
{
    if rows == 0 {
        Seq::empty()
    } else {
        let y = min_y + rows - 1;
        grid_tiles(z, min_x, max_x, min_y, (rows - 1) as nat) + if row_exists(y, z) {
            row_tiles(z, min_x, span(min_x, max_x), y)
        } else {
            Seq::empty()
        }
    }
}

/// Every column of `min_x..=max_x` can be wrapped at zoom `z`.
pub open spec fn columns_wrap(min_x: i32, max_x: i32, z: u8) -> bool {
    forall|x: i32| min_x <= x <= max_x ==> #[trigger] wrap_tile_x_defined(x, z)
}

/// The tiles of the rectangle of columns `min_x..=max_x` and rows
/// `min_y..=max_y` at zoom `z`, row by row from the top: rows outside the map
/// are skipped, columns wrap around the world.
pub fn tiles_in_range(z: u8, min_x: i32, max_x: i32, min_y: i32, max_y: i32) -> (r: Vec<TileId>)
    requires
        z < 32,
        columns_wrap(min_x, max_x, z),
    ensures
        r@ == grid_tiles(z, min_x as int, max_x as int, min_y as int, span(min_y as int, max_y as int)),
{
    let mut tiles: Vec<TileId> = Vec::new();
    let mut ty: i64 = min_y as i64;
    while ty <= max_y as i64
        invariant
            z < 32,
            columns_wrap(min_x, max_x, z),
            min_y <= ty <= max_y as i64 + 1 || (ty == min_y && min_y > max_y),
            tiles@ == grid_tiles(z, min_x as int, max_x as int, min_y as int, span(min_y as int, ty - 1)),
        decreases max_y as i64 + 1 - ty,
    {
        let ghost before = tiles@;
        let valid = is_valid_tile_y(ty as i32, z);
        if valid {
            let mut tx: i64 = min_x as i64;
            while tx <= max_x as i64
                invariant
                    z < 32,
                    min_y <= ty <= max_y,
                    row_exists(ty as int, z),
                    columns_wrap(min_x, max_x, z),
                    min_x <= tx <= max_x as i64 + 1 || (tx == min_x && min_x > max_x),
                    tiles@ == before + row_tiles(z, min_x as int, span(min_x as int, tx - 1), ty as int),
                decreases max_x as i64 + 1 - tx,
            {
                assert(wrap_tile_x_defined(tx as i32, z));
                let wrapped_x = wrap_tile_x(tx as i32, z);
                tiles.push(TileId::new(wrapped_x, ty as u32, z));
                tx = tx + 1;
                assert(tiles@ =~= before + row_tiles(z, min_x as int, span(min_x as int, tx - 1), ty as int));
            }
        }
        ty = ty + 1;
        assert(span(min_y as int, ty - 1) == span(min_y as int, ty - 2) + 1);
        assert(tiles@ =~= grid_tiles(z, min_x as int, max_x as int, min_y as int, span(min_y as int, ty - 1)));
    }
    tiles
}

/// Every tile of a grid is a tile of the map at zoom `z`: its column and row
/// are below the number of tiles per axis.
pub proof fn law_grid_tiles_on_map(z: u8, min_x: int, max_x: int, min_y: int, rows: nat)
    requires
        z < 32,
    ensures
        forall|i: int| 0 <= i < grid_tiles(z, min_x, max_x, min_y, rows).len() ==> {
            let t = #[trigger] grid_tiles(z, min_x, max_x, min_y, rows)[i];
            &&& t.z == z
            &&& t.x < tiles_per_axis(z)
            &&& t.y < tiles_per_axis(z)
        },
    decreases rows,
{
    lemma_pow2_pos(z as nat);
    if rows > 0 {
        law_grid_tiles_on_map(z, min_x, max_x, min_y, (rows - 1) as nat);
        let prev = grid_tiles(z, min_x, max_x, min_y, (rows - 1) as nat);
        let g = grid_tiles(z, min_x, max_x, min_y, rows);
        let y = min_y + rows - 1;
        assert forall|i: int| 0 <= i < g.len() implies {
            let t = #[trigger] g[i];
            &&& t.z == z
            &&& t.x < tiles_per_axis(z)
            &&& t.y < tiles_per_axis(z)
        } by {
            if i >= prev.len() {
                let row = row_tiles(z, min_x, span(min_x, max_x), y);
                assert(g[i] == row[i - prev.len()]);
                let m = tiles_per_axis(z);
                let c = (min_x + (i - prev.len())) % m;
                assert(0 <= c < m);
                assert(m <= 0x8000_0000) by {
                    lemma2_to64();
                    if z < 31 {
                        lemma_pow2_strictly_increases(z as nat, 31);
                    }
                }
            } else {
                assert(g[i] == prev[i]);
            }
        }
    }
}

/// The tile of column `x` (wrapped around the world) and row `y`.
pub open spec fn cell_tile(z: u8, x: int, y: int) -> TileId {
    TileId { x: (x % tiles_per_axis(z)) as u32, y: y as u32, z }
}

/// Every tile of a grid is the tile of some column `x` in `min_x..=max_x`
/// and some row `y` among its rows that lies on the map.
pub proof fn lemma_grid_member_has_cell(z: u8, min_x: int, max_x: int, min_y: int, rows: nat, t: TileId)
    requires
        grid_tiles(z, min_x, max_x, min_y, rows).contains(t),
    ensures
        exists|x: int, y: int|
            min_x <= x <= max_x && min_y <= y < min_y + rows && row_exists(y, z)
                && t == #[trigger] cell_tile(z, x, y),
    decreases rows,
{
    let g = grid_tiles(z, min_x, max_x, min_y, rows);
    let i = choose|i: int| 0 <= i < g.len() && g[i] == t;
    let prev = grid_tiles(z, min_x, max_x, min_y, (rows - 1) as nat);
    let y = min_y + rows - 1;
    if i < prev.len() {
        assert(prev[i] == t);
        assert(prev.contains(t));
        lemma_grid_member_has_cell(z, min_x, max_x, min_y, (rows - 1) as nat, t);
    } else {
        let x = min_x + (i - prev.len());
        assert(row_exists(y, z));
        assert(t == row_tiles(z, min_x, span(min_x, max_x), y)[i - prev.len()]);
        assert(min_x <= x <= max_x && min_y <= y < min_y + rows && row_exists(y, z)
            && t == cell_tile(z, x, y));
    }
}

/// The tile of every column in `min_x..=max_x` and every row among a grid's
/// rows that lies on the map is in the grid.
pub proof fn lemma_grid_has_cell(z: u8, min_x: int, max_x: int, min_y: int, rows: nat, x: int, y: int)
    requires
        min_x <= x <= max_x,
        min_y <= y < min_y + rows,
        row_exists(y, z),
    ensures
        grid_tiles(z, min_x, max_x, min_y, rows).contains(cell_tile(z, x, y)),
    decreases rows,
{
    let t = cell_tile(z, x, y);
    let g = grid_tiles(z, min_x, max_x, min_y, rows);
    let prev = grid_tiles(z, min_x, max_x, min_y, (rows - 1) as nat);
    if y < min_y + rows - 1 {
        lemma_grid_has_cell(z, min_x, max_x, min_y, (rows - 1) as nat, x, y);
        let j = choose|j: int| 0 <= j < prev.len() && prev[j] == t;
        assert(g[j] == t);
    } else {
        let k = x - min_x;
        assert(g[prev.len() + k] == row_tiles(z, min_x, span(min_x, max_x), y)[k]);
        assert(g[prev.len() + k] == t);
    }
}

/// The first row at or below `min_y` that can lie on a map: row 0 for a
/// window that starts above the map.
pub open spec fn first_map_row(min_y: int) -> int {
    if min_y < 0 {
        0
    } else {
        min_y
    }
}

/// The number of rows of `min_y..=max_y` that lie on the map at zoom `z`.
pub open spec fn map_rows(z: u8, min_y: int, max_y: int) -> nat {
    if z < 31 {
        span(first_map_row(min_y), if max_y < tiles_per_axis(z) - 1 { max_y } else { tiles_per_axis(z) - 1 })
    } else {
        0
    }
}

/// A grid holds, row by row, one tile per column for each of its rows that
/// lies on the map: tile `k` is that of column `min_x + k % n` and of the
/// `k / n`-th row on the map, for `n` columns.
proof fn lemma_grid_layout(z: u8, min_x: int, max_x: int, min_y: int, rows: nat)
    ensures
        ({
            let n = span(min_x, max_x);
            let g = grid_tiles(z, min_x, max_x, min_y, rows);
            &&& g.len() == n * map_rows(z, min_y, min_y + rows - 1)
            &&& forall|k: int| 0 <= k < g.len() ==> #[trigger] g[k]
                == cell_tile(z, min_x + k % (n as int), first_map_row(min_y) + k / (n as int))
        }),
    decreases rows,
{
    let n = span(min_x, max_x);
    let g = grid_tiles(z, min_x, max_x, min_y, rows);
    lemma_pow2_pos(z as nat);
    if rows > 0 {
        let r0 = (rows - 1) as nat;
        lemma_grid_layout(z, min_x, max_x, min_y, r0);
        let prev = grid_tiles(z, min_x, max_x, min_y, r0);
        let y = min_y + rows - 1;
        let m0 = map_rows(z, min_y, min_y + r0 - 1);
        let m1 = map_rows(z, min_y, y);
        if row_exists(y, z) {
            assert(m1 == m0 + 1);
            assert(y == first_map_row(min_y) + m0);
            let row = row_tiles(z, min_x, n, y);
            assert(g =~= prev + row);
            assert(g.len() == n * m0 + n) by (nonlinear_arith)
                requires
                    g.len() == prev.len() + n,
                    prev.len() == n * m0,
            ;
            assert(n * m1 == n * m0 + n) by (nonlinear_arith)
                requires
                    m1 == m0 + 1,
            ;
            assert forall|k: int| 0 <= k < g.len() implies #[trigger] g[k]
                == cell_tile(z, min_x + k % (n as int), first_map_row(min_y) + k / (n as int)) by {
                if k < prev.len() {
                    assert(g[k] == prev[k]);
                } else {
                    let j = k - prev.len();
                    assert(0 <= j < n);
                    lemma_fundamental_div_mod_converse(k, n as int, m0 as int, j);
                    assert(g[k] == row[j]);
                }
            }
        } else {
            assert(m1 == m0);
            assert(g =~= prev);
        }
    } else {
        assert(map_rows(z, min_y, min_y - 1) == 0);
        assert(n * 0 == 0) by (nonlinear_arith);
    }
}

/// Whether the window arithmetic of `visible_tile_grid` stays within `i32`.
pub open spec fn window_fits(center_floor: (i32, i32), center_ceil: (i32, i32), tiles_across: (i32, i32), buffer: i32) -> bool {
    let w = window(center_floor, center_ceil, tiles_across, buffer);
    &&& i32::MIN <= w.0 <= i32::MAX
    &&& i32::MIN <= w.1 <= i32::MAX
    &&& i32::MIN <= w.2 <= i32::MAX
    &&& i32::MIN <= w.3 <= i32::MAX
}

/// The number of tiles the window reaches back from the tile under the
/// view's centre: one less than half the tiles across the view.
pub open spec fn lead(tiles_across: i32) -> int {
    half_toward_zero(tiles_across as int) - 1
}

/// The window of tiles around the view's centre, per axis: from `lead` tiles
/// before the tile under the centre's floor to `buffer` tiles past the tile
/// under its ceiling. As `(min_x, max_x, min_y, max_y)`.
pub open spec fn window(center_floor: (i32, i32), center_ceil: (i32, i32), tiles_across: (i32, i32), buffer: i32) -> (int, int, int, int) {
    (
        center_floor.0 - lead(tiles_across.0),
        center_ceil.0 + buffer,
        center_floor.1 - lead(tiles_across.1),
        center_ceil.1 + buffer,
    )
}

/// A larger buffer only adds tiles: every tile seen with buffer `b1` is
/// also seen with any buffer `b2 >= b1`.
pub proof fn law_window_grows_with_buffer(
    z: u8,
    center_floor: (i32, i32),
    center_ceil: (i32, i32),
    tiles_across: (i32, i32),
    b1: i32,
    b2: i32,
    t: TileId,
)
    requires
        b1 <= b2,
        ({
            let w = window(center_floor, center_ceil, tiles_across, b1);
            grid_tiles(z, w.0, w.1, w.2, span(w.2, w.3)).contains(t)
        }),
    ensures
        ({
            let w = window(center_floor, center_ceil, tiles_across, b2);
            grid_tiles(z, w.0, w.1, w.2, span(w.2, w.3)).contains(t)
        }),
{
    let w1 = window(center_floor, center_ceil, tiles_across, b1);
    let w2 = window(center_floor, center_ceil, tiles_across, b2);
    lemma_grid_member_has_cell(z, w1.0, w1.1, w1.2, span(w1.2, w1.3), t);
    let (x, y) = choose|x: int, y: int|
        w1.0 <= x <= w1.1 && w1.2 <= y < w1.2 + span(w1.2, w1.3) && row_exists(y, z)
            && t == cell_tile(z, x, y);
    lemma_grid_has_cell(z, w2.0, w2.1, w2.2, span(w2.2, w2.3), x, y);
}

/// Whether column `x` and row `y` lie in the view of a camera: from one less
/// than half the tiles across the view (rounded toward zero) before the tile
/// under the centre's floor, to `buffer` tiles past the tile under its
/// ceiling, along each axis.
pub open spec fn in_view(x: int, y: int, center_floor: (i32, i32), center_ceil: (i32, i32), tiles_across: (i32, i32), buffer: i32) -> bool {
    &&& center_floor.0 - (half_toward_zero(tiles_across.0 as int) - 1) <= x <= center_ceil.0 + buffer
    &&& center_floor.1 - (half_toward_zero(tiles_across.1 as int) - 1) <= y <= center_ceil.1 + buffer
}

/// The tiles a camera sees are exactly the tiles of the columns and rows in
/// its view, columns wrapped around the world and rows off the map left out:
/// every such tile is in the grid, and every tile of the grid is one.
pub proof fn law_visible_tiles(
    z: u8,
    center_floor: (i32, i32),
    center_ceil: (i32, i32),
    tiles_across: (i32, i32),
    buffer: i32,
)
    ensures
        ({
            let w = window(center_floor, center_ceil, tiles_across, buffer);
            let g = grid_tiles(z, w.0, w.1, w.2, span(w.2, w.3));
            &&& forall|x: int, y: int|
                in_view(x, y, center_floor, center_ceil, tiles_across, buffer) && row_exists(y, z)
                    ==> g.contains(#[trigger] cell_tile(z, x, y))
            &&& forall|t: TileId| #[trigger] g.contains(t) ==> exists|x: int, y: int|
                in_view(x, y, center_floor, center_ceil, tiles_across, buffer) && row_exists(y, z)
                    && t == #[trigger] cell_tile(z, x, y)
        }),
{
    let w = window(center_floor, center_ceil, tiles_across, buffer);
    let rows = span(w.2, w.3);
    let g = grid_tiles(z, w.0, w.1, w.2, rows);
    assert forall|x: int, y: int|
        in_view(x, y, center_floor, center_ceil, tiles_across, buffer) && row_exists(y, z)
            implies g.contains(#[trigger] cell_tile(z, x, y)) by {
        lemma_grid_has_cell(z, w.0, w.1, w.2, rows, x, y);
    }
    assert forall|t: TileId| #[trigger] g.contains(t) implies exists|x: int, y: int|
        in_view(x, y, center_floor, center_ceil, tiles_across, buffer) && row_exists(y, z)
            && t == #[trigger] cell_tile(z, x, y) by {
        lemma_grid_member_has_cell(z, w.0, w.1, w.2, rows, t);
        let (x, y) = choose|x: int, y: int|
            w.0 <= x <= w.1 && w.2 <= y < w.2 + rows && row_exists(y, z) && t == #[trigger] cell_tile(z, x, y);
        assert(in_view(x, y, center_floor, center_ceil, tiles_across, buffer));
    }
}

/// The tiles a camera sees, in order: for each row of its view that lies on
/// the map, from the top, one tile for each column of its view, from the
/// left, wrapped around the world. The view reaches one less than half the
/// tiles across (rounded toward zero) before the tile under the centre's
/// floor, and `buffer` tiles past the tile under its ceiling, along each
/// axis.
pub proof fn law_visible_tiles_in_order(
    z: u8,
    center_floor: (i32, i32),
    center_ceil: (i32, i32),
    tiles_across: (i32, i32),
    buffer: i32,
)
    ensures
        ({
            let min_x = center_floor.0 - (half_toward_zero(tiles_across.0 as int) - 1);
            let max_x = center_ceil.0 + buffer;
            let min_y = center_floor.1 - (half_toward_zero(tiles_across.1 as int) - 1);
            let max_y = center_ceil.1 + buffer;
            let n = span(min_x, max_x);
            let w = window(center_floor, center_ceil, tiles_across, buffer);
            let g = grid_tiles(z, w.0, w.1, w.2, span(w.2, w.3));
            &&& g.len() == n * map_rows(z, min_y, max_y)
            &&& forall|k: int| 0 <= k < g.len() ==> #[trigger] g[k]
                == cell_tile(z, min_x + k % (n as int), first_map_row(min_y) + k / (n as int))
        }),
{
    let w = window(center_floor, center_ceil, tiles_across, buffer);
    let rows = span(w.2, w.3);
    lemma_grid_layout(z, w.0, w.1, w.2, rows);
    if w.3 < w.2 {
        assert(map_rows(z, w.2, w.2 + rows - 1) == 0);
        assert(map_rows(z, w.2, w.3) == 0);
    } else {
        assert(w.2 + rows - 1 == w.3);
    }
}

/// The tiles a camera sees at tile zoom `z`, given the floor and ceiling of
/// the fractional tile position of the view's centre, the number of tiles
/// that fit across the view along each axis, and `buffer` extra tiles kept
/// past the view for pre-loading.
pub fn visible_tile_grid(
    z: u8,
    center_floor: (i32, i32),
    center_ceil: (i32, i32),
    tiles_across: (i32, i32),
    buffer: i32,
) -> (r: Vec<TileId>)
    requires
        z < 32,
        window_fits(center_floor, center_ceil, tiles_across, buffer),
        ({
            let w = window(center_floor, center_ceil, tiles_across, buffer);
            columns_wrap(w.0 as i32, w.1 as i32, z)
        }),
    ensures
        ({
            let w = window(center_floor, center_ceil, tiles_across, buffer);
            r@ == grid_tiles(z, w.0, w.1, w.2, span(w.2, w.3))
        }),
{
    let lead_x = tiles_across.0 / 2 - 1;
    let lead_y = tiles_across.1 / 2 - 1;
    let min_x = center_floor.0 - lead_x;
    let max_x = center_ceil.0 + buffer;
    let min_y = center_floor.1 - lead_y;
    let max_y = center_ceil.1 + buffer;
    tiles_in_range(z, min_x, max_x, min_y, max_y)
}

} // verus!
