//! Rendering of chunk cells into a 256 x 256 RGBA overlay tile: each cell of
//! a chunk covers a 4 x 4 block of pixels.

use vstd::prelude::*;
use vstd::arithmetic::div_mod::{lemma_fundamental_div_mod, lemma_fundamental_div_mod_converse};
use crate::server::{Color, Coordinate, PixelData, DEFAULT_PALETTE};
use crate::codec::{encode_png, png_encoding};

verus! {

/// Alpha of a painted pixel.
pub const ALPHA: u8 = 0xFF;

/// Pixels per side of an overlay tile.
pub const OVERLAY_SIDE: usize = 256;

/// Bytes of an overlay tile: 256 x 256 pixels of four bytes.
pub const OVERLAY_BYTES: usize = 262144;

/// The red, green and blue of a colour, or `None` for an index past the
/// palette.
pub open spec fn palette_rgb(c: Color) -> Option<(u8, u8, u8)> {
    if c.0 < 256 {
        let v = DEFAULT_PALETTE@[c.0 as int];
        Some((((v >> 16u32) & 0xffu32) as u8, ((v >> 8u32) & 0xffu32) as u8, (v & 0xffu32) as u8))
    } else {
        None
    }
}

/// The red, green and blue of a colour, or `None` for an index past the
/// palette.
pub fn color_rgb(c: Color) -> (r: Option<(u8, u8, u8)>)
    ensures
        r == palette_rgb(c),
{
    if c.0 < 256 {
        let v = DEFAULT_PALETTE[c.0 as usize];
        Some((((v >> 16u32) & 0xffu32) as u8, ((v >> 8u32) & 0xffu32) as u8, (v & 0xffu32) as u8))
    } else {
        None
    }
}

/// Every palette entry is a 24-bit colour.
proof fn lemma_palette_entries_fit()
    ensures
        forall|i: int| 0 <= i < 256 ==> #[trigger] DEFAULT_PALETTE@[i] < 0x1000000u32,
{
    assert forall|i: int| 0 <= i < 256 implies #[trigger] DEFAULT_PALETTE@[i] < 0x1000000u32 by {
        assert(DEFAULT_PALETTE@.len() == 256);
    }
}

/// A colour of the palette has the red, green and blue of its palette
/// entry, an integer written `0xRRGGBB`: red times 65536 plus green times 256
/// plus blue gives the entry back. A colour past the palette has none.
pub proof fn law_palette_colour(c: Color)
    ensures
        c.0 < 256 <==> palette_rgb(c) is Some,
        palette_rgb(c) matches Some(rgb) ==> rgb.0 as int * 65536 + rgb.1 as int * 256 + rgb.2 as int
            == DEFAULT_PALETTE@[c.0 as int],
{
    if c.0 < 256 {
        lemma_palette_entries_fit();
        let v = DEFAULT_PALETTE@[c.0 as int];
        assert(v < 0x1000000u32);
        assert((((v >> 16u32) & 0xffu32) as u8) as int * 65536 + (((v >> 8u32) & 0xffu32) as u8) as int * 256
            + ((v & 0xffu32) as u8) as int == v as int) by (bit_vector)
            requires
                v < 0x1000000u32,
        ;
    }
}

/// The pixel row of byte `i` of an overlay tile.
pub open spec fn pixel_row(i: int) -> int {
    i / 1024
}

/// The pixel column of byte `i` of an overlay tile.
pub open spec fn pixel_col(i: int) -> int {
    (i % 1024) / 4
}

/// Whether byte `i` of an overlay tile belongs to the block of cell `c`.
pub open spec fn in_cell(i: int, c: Coordinate) -> bool {
    &&& c.y * 4 <= pixel_row(i) < c.y * 4 + 4
    &&& c.x * 4 <= pixel_col(i) < c.x * 4 + 4
}

/// Channel `k` of a painted pixel of colour `rgb`: red, green, blue, then
/// the opaque alpha.
pub open spec fn channel(rgb: (u8, u8, u8), k: int) -> u8 {
    if k == 0 {
        rgb.0
    } else if k == 1 {
        rgb.1
    } else if k == 2 {
        rgb.2
    } else {
        ALPHA
    }
}

/// An overlay tile with the block of one cell painted in its colour; a cell
/// of a colour past the palette leaves the tile as it is.
pub open spec fn paint(buf: Seq<u8>, p: PixelData) -> Seq<u8> {
    match palette_rgb(p.color) {
        Some(rgb) => Seq::new(buf.len(), |i: int| if in_cell(i, p.coordinate) { channel(rgb, i % 4) } else { buf[i] }),
        None => buf,
    }
}

/// The overlay tile of a list of cells: a transparent tile with the cells
/// painted in order, so that a later cell paints over an earlier one.
pub open spec fn overlay(pixels: Seq<PixelData>) -> Seq<u8>
    decreases pixels.len(),
{
    if pixels.len() == 0 {
        Seq::new(OVERLAY_BYTES as nat, |i: int| 0u8)
    } else {
        paint(overlay(pixels.drop_last()), pixels.last())
    }
}

/// Whether some cell of the list covers byte `i` of the tile.
pub open spec fn covered(cells: Seq<PixelData>, i: int) -> bool {
    exists|j: int| 0 <= j < cells.len() && in_cell(i, (#[trigger] cells[j]).coordinate)
}

/// An overlay tile always has the size of one.
pub proof fn lemma_overlay_len(cells: Seq<PixelData>)
    ensures
        overlay(cells).len() == OVERLAY_BYTES,
    decreases cells.len(),
{
    if cells.len() > 0 {
        lemma_overlay_len(cells.drop_last());
    }
}

/// When all cells have one palette colour, a byte of the overlay tile is the
/// matching channel of that colour where some cell covers it, and
/// transparent elsewhere.
pub proof fn lemma_overlay_one_colour(cells: Seq<PixelData>, c: Color, rgb: (u8, u8, u8))
    requires
        palette_rgb(c) == Some(rgb),
        forall|j: int| 0 <= j < cells.len() ==> (#[trigger] cells[j]).color == c,
    ensures
        forall|i: int| 0 <= i < OVERLAY_BYTES ==> #[trigger] overlay(cells)[i] == if covered(cells, i) {
            channel(rgb, i % 4)
        } else {
            0u8
        },
    decreases cells.len(),
{
    lemma_overlay_len(cells);
    if cells.len() > 0 {
        let rest = cells.drop_last();
        assert forall|j: int| 0 <= j < rest.len() implies (#[trigger] rest[j]).color == c by {
            assert(rest[j] == cells[j]);
        }
        lemma_overlay_one_colour(rest, c, rgb);
        lemma_overlay_len(rest);
        let last = cells.last();
        assert(last == cells[cells.len() - 1]);
        assert forall|i: int| 0 <= i < OVERLAY_BYTES implies #[trigger] overlay(cells)[i] == if covered(cells, i) {
            channel(rgb, i % 4)
        } else {
            0u8
        } by {
            if covered(rest, i) {
                let j = choose|j: int| 0 <= j < rest.len() && in_cell(i, (#[trigger] rest[j]).coordinate);
                assert(cells[j] == rest[j]);
            }
            if covered(cells, i) && !in_cell(i, last.coordinate) {
                let j = choose|j: int| 0 <= j < cells.len() && in_cell(i, (#[trigger] cells[j]).coordinate);
                assert(j != cells.len() - 1);
                assert(rest[j] == cells[j]);
            }
        }
    }
}

/// No two cells of the list are at the same position.
pub open spec fn distinct_cells(cells: Seq<PixelData>) -> bool {
    forall|a: int, b: int| 0 <= a < cells.len() && 0 <= b < cells.len() && a != b
        ==> cells[a].coordinate != cells[b].coordinate
}

/// Channel `k` of the pixels of a cell's block: of its palette colour, or
/// transparent for a colour past the palette.
pub open spec fn cell_channel(p: PixelData, k: int) -> u8 {
    match palette_rgb(p.color) {
        Some(rgb) => channel(rgb, k),
        None => 0u8,
    }
}

/// When no two cells share a position, each cell's block shows that cell's
/// colour, and every byte outside the cells' blocks is transparent.
pub proof fn law_overlay_of_distinct_cells(cells: Seq<PixelData>)
    requires
        distinct_cells(cells),
    ensures
        forall|i: int, j: int| 0 <= i < OVERLAY_BYTES && 0 <= j < cells.len() && in_cell(i, (#[trigger] cells[j]).coordinate)
            ==> #[trigger] overlay(cells)[i] == cell_channel(cells[j], i % 4),
        forall|i: int| 0 <= i < OVERLAY_BYTES && !covered(cells, i) ==> #[trigger] overlay(cells)[i] == 0u8,
    decreases cells.len(),
{
    lemma_overlay_len(cells);
    if cells.len() > 0 {
        let rest = cells.drop_last();
        let n = cells.len() - 1;
        let last = cells[n];
        assert forall|a: int, b: int| 0 <= a < rest.len() && 0 <= b < rest.len() && a != b
            implies rest[a].coordinate != rest[b].coordinate by {
            assert(rest[a] == cells[a] && rest[b] == cells[b]);
        }
        law_overlay_of_distinct_cells(rest);
        lemma_overlay_len(rest);
        assert forall|i: int, j: int| 0 <= i < OVERLAY_BYTES && 0 <= j < cells.len() && in_cell(i, (#[trigger] cells[j]).coordinate)
            implies #[trigger] overlay(cells)[i] == cell_channel(cells[j], i % 4) by {
            if j < n {
                assert(rest[j] == cells[j]);
                assert(cells[j].coordinate != last.coordinate);
                assert(!in_cell(i, last.coordinate));
            } else if !in_cell(i, last.coordinate) || palette_rgb(last.color) is None {
                assert(!covered(rest, i)) by {
                    if covered(rest, i) {
                        let k = choose|k: int| 0 <= k < rest.len() && in_cell(i, (#[trigger] rest[k]).coordinate);
                        assert(rest[k] == cells[k]);
                        assert(cells[k].coordinate != last.coordinate);
                    }
                }
            }
        }
        assert forall|i: int| 0 <= i < OVERLAY_BYTES && !covered(cells, i) implies #[trigger] overlay(cells)[i] == 0u8 by {
            if covered(rest, i) {
                let k = choose|k: int| 0 <= k < rest.len() && in_cell(i, (#[trigger] rest[k]).coordinate);
                assert(rest[k] == cells[k]);
            }
            assert(!in_cell(i, cells[n].coordinate));
        }
    }
}

/// Every cell of the list lies inside a chunk.
pub open spec fn cells_in_chunk(pixels: Seq<PixelData>) -> bool {
    forall|i: int| 0 <= i < pixels.len() ==> (#[trigger] pixels[i]).coordinate.in_chunk_spec()
}

/// Byte `i` of a tile sits at row `i / 1024`, column `(i % 1024) / 4`,
/// channel `i % 4`; byte `(row * 256 + col) * 4 + k` is channel `k` of the
/// pixel at `(row, col)`.
proof fn lemma_pixel_layout(i: int, row: int, col: int)
    requires
        0 <= i,
        0 <= row,
        0 <= col < 256,
    ensures
        (pixel_row(i) == row && pixel_col(i) == col) <==> ((row * 256 + col) * 4 <= i < (row * 256 + col) * 4 + 4),
        (pixel_row(i) == row && pixel_col(i) == col) ==> i % 4 == i - (row * 256 + col) * 4,
{
    lemma_fundamental_div_mod(i, 1024);
    let r = i % 1024;
    lemma_fundamental_div_mod(r, 4);
    let q = i / 1024;
    let c = r / 4;
    let k = r % 4;
    assert(i == (q * 256 + c) * 4 + k);
    lemma_fundamental_div_mod_converse(i, 4, q * 256 + c, k);
    if (row * 256 + col) * 4 <= i < (row * 256 + col) * 4 + 4 {
        let kk = i - (row * 256 + col) * 4;
        lemma_fundamental_div_mod_converse(i, 1024, row, col * 4 + kk);
        lemma_fundamental_div_mod_converse(col * 4 + kk, 4, col, kk);
    }
}

/// Set the pixel at `(row, col)` to colour `rgb`, opaque.
fn set_pixel(buf: &mut Vec<u8>, row: usize, col: usize, rgb: (u8, u8, u8))
    requires
        old(buf)@.len() == OVERLAY_BYTES,
        row < 256,
        col < 256,
    ensures
        final(buf)@.len() == OVERLAY_BYTES,
        forall|i: int| 0 <= i < OVERLAY_BYTES ==> #[trigger] final(buf)@[i] == if pixel_row(i) == row && pixel_col(i) == col {
            channel(rgb, i % 4)
        } else {
            old(buf)@[i]
        },
{
    let base = (row * 256 + col) * 4;
    buf.set(base, rgb.0);
    buf.set(base + 1, rgb.1);
    buf.set(base + 2, rgb.2);
    buf.set(base + 3, ALPHA);
    proof {
        assert forall|i: int| 0 <= i < OVERLAY_BYTES implies #[trigger] buf@[i] == if pixel_row(i) == row && pixel_col(i) == col {
            channel(rgb, i % 4)
        } else {
            old(buf)@[i]
        } by {
            lemma_pixel_layout(i, row as int, col as int);
        }
    }
}

/// Paint the 4 x 4 block of cell `c` in colour `rgb`.
fn paint_cell(buf: &mut Vec<u8>, c: Coordinate, rgb: (u8, u8, u8))
    requires
        old(buf)@.len() == OVERLAY_BYTES,
        c.in_chunk_spec(),
    ensures
        final(buf)@ == Seq::new(OVERLAY_BYTES as nat, |i: int| if in_cell(i, c) { channel(rgb, i % 4) } else { old(buf)@[i] }),
{
    let x = (c.x * 4) as usize;
    let y = (c.y * 4) as usize;
    let ghost start = buf@;
    let mut dy: usize = 0;
    while dy < 4
        invariant
            c.in_chunk_spec(),
            x == c.x * 4,
            y == c.y * 4,
            dy <= 4,
            buf@.len() == OVERLAY_BYTES,
            forall|i: int| 0 <= i < OVERLAY_BYTES ==> #[trigger] buf@[i] == if y <= pixel_row(i) < y + dy && x <= pixel_col(i) < x + 4 {
                channel(rgb, i % 4)
            } else {
                start[i]
            },
        decreases 4 - dy,
    {
        let mut dx: usize = 0;
        while dx < 4
            invariant
                c.in_chunk_spec(),
                x == c.x * 4,
                y == c.y * 4,
                dy < 4,
                dx <= 4,
                buf@.len() == OVERLAY_BYTES,
                forall|i: int| 0 <= i < OVERLAY_BYTES ==> #[trigger] buf@[i] == if (y <= pixel_row(i) < y + dy && x <= pixel_col(i) < x + 4)
                    || (pixel_row(i) == y + dy && x <= pixel_col(i) < x + dx) {
                    channel(rgb, i % 4)
                } else {
                    start[i]
                },
            decreases 4 - dx,
        {
            set_pixel(buf, y + dy, x + dx, rgb);
            dx = dx + 1;
        }
        dy = dy + 1;
    }
    assert(buf@ =~= Seq::new(OVERLAY_BYTES as nat, |i: int| if in_cell(i, c) { channel(rgb, i % 4) } else { start[i] }));
}

/// The RGBA pixels of the overlay tile of a list of cells: each cell of a
/// palette colour becomes an opaque 4 x 4 block of that colour, later cells
/// over earlier ones, on a transparent tile.
pub fn overlay_rgba(pixels: &[PixelData]) -> (r: Vec<u8>)
    requires
        cells_in_chunk(pixels@),
    ensures
        r@ == overlay(pixels@),
        r@.len() == OVERLAY_BYTES,
{
    let mut buf: Vec<u8> = Vec::new();
    let mut n: usize = 0;
    while n < OVERLAY_BYTES
        invariant
            n <= OVERLAY_BYTES,
            buf@ == Seq::new(n as nat, |i: int| 0u8),
        decreases OVERLAY_BYTES - n,
    {
        buf.push(0u8);
        n = n + 1;
        assert(buf@ =~= Seq::new(n as nat, |i: int| 0u8));
    }
    let mut k: usize = 0;
    while k < pixels.len()
        invariant
            cells_in_chunk(pixels@),
            k <= pixels@.len(),
            buf@ == overlay(pixels@.take(k as int)),
            buf@.len() == OVERLAY_BYTES,
        decreases pixels@.len() - k,
    {
        let pixel = pixels[k];
        assert(pixels@.take(k + 1).drop_last() =~= pixels@.take(k as int));
        assert(pixels@.take(k + 1).last() == pixel);
        assert(pixel.coordinate.in_chunk_spec());
        match color_rgb(pixel.color) {
            Some(rgb) => paint_cell(&mut buf, pixel.coordinate, rgb),
            None => {},
        }
        k = k + 1;
    }
    assert(pixels@.take(pixels@.len() as int) =~= pixels@);
    buf
}

/// Render a list of cells into a PNG overlay tile (64 x 64 cells only).
pub fn generate_overlay_png(pixels: &[PixelData]) -> (r: Result<Vec<u8>, &'static str>)
    requires
        cells_in_chunk(pixels@),
    ensures
        r is Ok <==> png_encoding(256, 256, overlay(pixels@)) is Some,
        r matches Ok(png) ==> png_encoding(256, 256, overlay(pixels@)) == Some(png@),
        r matches Err(e) ==> e@ == "Could not write to PNG file"@,
{
    let rgba = overlay_rgba(pixels);
    match encode_png(256, 256, rgba) {
        Ok(png) => Ok(png),
        Err(_) => Err("Could not write to PNG file"),
    }
}

} // verus!
