//! The pixel canvas server: 64 x 64 chunks of palette colours, and their
//! rendering into 256 x 256 PNG overlay tiles.

pub mod overlay;

use vstd::prelude::*;
use vstd::string::*;
use crate::text::{
    signed_decimal, push_signed_decimal, signed_value, is_signed_numeral, lacks, law_signed_decimal_reads_back,
    lemma_signed_numeral_lacks, lemma_split_at, lemma_drop_suffix, lemma_drop_prefix,
};
use crate::codec::png_encoding;
use crate::server::overlay::{generate_overlay_png, overlay, cells_in_chunk, covered, in_cell, pixel_col, pixel_row, palette_rgb, channel, lemma_overlay_one_colour, lemma_overlay_len, law_overlay_of_distinct_cells};

verus! {

broadcast use vstd::string::group_string_axioms;

/// The 256-colour VGA palette that chunk colours index, as `0xRRGGBB`.
pub const DEFAULT_PALETTE: [u32; 256] = [
    0x000000, 0x0000a8, 0x00a800, 0x00a8a8, 0xa80000, 0xa800a8, 0xa85400, 0xa8a8a8,
    0x545454, 0x5454fc, 0x54fc54, 0x54fcfc, 0xfc5454, 0xfc54fc, 0xfcfc54, 0xfcfcfc,
    0x000000, 0x141414, 0x202020, 0x2c2c2c, 0x383838, 0x444444, 0x505050, 0x606060,
    0x707070, 0x808080, 0x909090, 0xa0a0a0, 0xb4b4b4, 0xc8c8c8, 0xe0e0e0, 0xfcfcfc,
    0x0000fc, 0x4000fc, 0x7c00fc, 0xbc00fc, 0xfc00fc, 0xfc00bc, 0xfc007c, 0xfc0040,
    0xfc0000, 0xfc4000, 0xfc7c00, 0xfcbc00, 0xfcfc00, 0xbcfc00, 0x7cfc00, 0x40fc00,
    0x00fc00, 0x00fc40, 0x00fc7c, 0x00fcbc, 0x00fcfc, 0x00bcfc, 0x007cfc, 0x0040fc,
    0x7c7cfc, 0x9c7cfc, 0xbc7cfc, 0xdc7cfc, 0xfc7cfc, 0xfc7cdc, 0xfc7cbc, 0xfc7c9c,
    0xfc7c7c, 0xfc9c7c, 0xfcbc7c, 0xfcdc7c, 0xfcfc7c, 0xdcfc7c, 0xbcfc7c, 0x9cfc7c,
    0x7cfc7c, 0x7cfc9c, 0x7cfcbc, 0x7cfcdc, 0x7cfcfc, 0x7cdcfc, 0x7cbcfc, 0x7c9cfc,
    0xb4b4fc, 0xc4b4fc, 0xd8b4fc, 0xe8b4fc, 0xfcb4fc, 0xfcb4e8, 0xfcb4d8, 0xfcb4c4,
    0xfcb4b4, 0xfcc4b4, 0xfcd8b4, 0xfce8b4, 0xfcfcb4, 0xe8fcb4, 0xd8fcb4, 0xc4fcb4,
    0xb4fcb4, 0xb4fcc4, 0xb4fcd8, 0xb4fce8, 0xb4fcfc, 0xb4e8fc, 0xb4d8fc, 0xb4c4fc,
    0x000070, 0x1c0070, 0x380070, 0x540070, 0x700070, 0x700054, 0x700038, 0x70001c,
    0x700000, 0x701c00, 0x703800, 0x705400, 0x707000, 0x547000, 0x387000, 0x1c7000,
    0x007000, 0x00701c, 0x007038, 0x007054, 0x007070, 0x005470, 0x003870, 0x001c70,
    0x383870, 0x443870, 0x543870, 0x603870, 0x703870, 0x703860, 0x703854, 0x703844,
    0x703838, 0x704438, 0x705438, 0x706038, 0x707038, 0x607038, 0x547038, 0x447038,
    0x387038, 0x387044, 0x387054, 0x387060, 0x387070, 0x386070, 0x385470, 0x384470,
    0x505070, 0x585070, 0x605070, 0x685070, 0x705070, 0x705068, 0x705060, 0x705058,
    0x705050, 0x705850, 0x706050, 0x706850, 0x707050, 0x687050, 0x607050, 0x587050,
    0x507050, 0x507058, 0x507060, 0x507068, 0x507070, 0x506870, 0x506070, 0x505870,
    0x000040, 0x100040, 0x200040, 0x300040, 0x400040, 0x400030, 0x400020, 0x400010,
    0x400000, 0x401000, 0x402000, 0x403000, 0x404000, 0x304000, 0x204000, 0x104000,
    0x004000, 0x004010, 0x004020, 0x004030, 0x004040, 0x003040, 0x002040, 0x001040,
    0x202040, 0x282040, 0x302040, 0x382040, 0x402040, 0x402038, 0x402030, 0x402028,
    0x402020, 0x402820, 0x403020, 0x403820, 0x404020, 0x384020, 0x304020, 0x284020,
    0x204020, 0x204028, 0x204030, 0x204038, 0x204040, 0x203840, 0x203040, 0x202840,
    0x2c2c40, 0x302c40, 0x342c40, 0x3c2c40, 0x402c40, 0x402c3c, 0x402c34, 0x402c30,
    0x402c2c, 0x40302c, 0x40342c, 0x403c2c, 0x40402c, 0x3c402c, 0x34402c, 0x30402c,
    0x2c402c, 0x2c4030, 0x2c4034, 0x2c403c, 0x2c4040, 0x2c3c40, 0x2c3440, 0x2c3040,
    0x000000, 0x000000, 0x000000, 0x000000, 0x000000, 0x000000, 0x000000, 0x000000,
];

/// A colour: an index into `DEFAULT_PALETTE`. Indices past the palette
/// (such as the 256 of a fresh chunk) mark a cell that was never painted.
#[derive(Clone, Copy, Debug, PartialEq, Eq, Structural)]
pub struct Color(pub u32);

/// A cell position inside a chunk.
#[derive(Clone, Copy, Debug, PartialEq, Eq, Structural)]
pub struct Coordinate {
    pub x: i32,
    pub y: i32,
}

/// A painted cell of a chunk.
#[derive(Clone, Copy, Debug, PartialEq, Eq, Structural)]
pub struct PixelData {
    pub color: Color,
    pub coordinate: Coordinate,
}

/// A request to paint one cell of a chunk.
#[derive(Clone, Copy, Debug, PartialEq, Eq, Structural)]
pub struct DrawRequest {
    pub chunk_x: i32,
    pub chunk_y: i32,
    pub pixel_data: PixelData,
}

/// Cells per side of a chunk.
pub const CHUNK_CELLS: usize = 64;

/// A chunk of the canvas: rows of cell colours.
#[derive(Clone, Debug)]
pub struct Chunk {
    pub pixels: Vec<Vec<Color>>,
}

/// The rows of a chunk as sequences of colours.
pub open spec fn chunk_rows(chunk: Chunk) -> Seq<Seq<Color>> {
    chunk.pixels@.map_values(|row: Vec<Color>| row@)
}

/// The colour of a cell that was never painted.
pub open spec fn unpainted() -> Color {
    Color(256)
}

/// A chunk whose 64 x 64 cells all have colour `c`.
pub open spec fn uniform_rows(c: Color) -> Seq<Seq<Color>> {
    Seq::new(64, |y: int| Seq::new(64, |x: int| c))
}

impl Chunk {
    /// A fresh chunk: 64 rows of 64 unpainted cells.
    pub fn new() -> (r: Self)
        ensures
            chunk_rows(r) == uniform_rows(unpainted()),
    {
        uniform_chunk(Color(256))
    }
}

/// A chunk of 64 rows of 64 cells of colour `c`.
fn uniform_chunk(c: Color) -> (r: Chunk)
    ensures
        chunk_rows(r) == uniform_rows(c),
{
        let mut pixels: Vec<Vec<Color>> = Vec::new();
        let mut y: usize = 0;
        while y < CHUNK_CELLS
            invariant
                y <= CHUNK_CELLS,
                pixels@.len() == y,
                forall|j: int| 0 <= j < y ==> (#[trigger] pixels@[j])@ == Seq::new(64, |x: int| c),
            decreases CHUNK_CELLS - y,
        {
            let mut row: Vec<Color> = Vec::new();
            let mut x: usize = 0;
            while x < CHUNK_CELLS
                invariant
                    x <= CHUNK_CELLS,
                    row@ == Seq::new(x as nat, |i: int| c),
                decreases CHUNK_CELLS - x,
            {
                row.push(c);
                x = x + 1;
                assert(row@ =~= Seq::new(x as nat, |i: int| c));
            }
            pixels.push(row);
            y = y + 1;
        }
        let r = Chunk { pixels };
        assert(chunk_rows(r) =~= uniform_rows(c));
        r
}

impl Coordinate {
    /// Whether the position lies inside a chunk.
    pub open spec fn in_chunk_spec(self) -> bool {
        0 <= self.x < 64 && 0 <= self.y < 64
    }

    /// Whether the position lies inside a chunk; a draw request elsewhere is
    /// a bad request.
    pub fn in_chunk(&self) -> (r: bool)
        ensures
            r == self.in_chunk_spec(),
    {
        !(self.x < 0 || self.x >= 64 || self.y < 0 || self.y >= 64)
    }
}

/// The statuses the server answers with.
#[derive(Clone, Copy, Debug, PartialEq, Eq, Structural)]
pub enum ServerStatus {
    Success,
    BadRequest,
    InternalServerError,
}

/// The file a chunk is stored in: `/tmp/chunk_{x}_{y}`.
pub open spec fn chunk_path(chunk_x: i32, chunk_y: i32) -> Seq<char> {
    "/tmp/chunk_"@ + signed_decimal(chunk_x as int) + "_"@ + signed_decimal(chunk_y as int)
}

/// The file a chunk is stored in.
pub fn get_chunk_path(chunk_x: i32, chunk_y: i32) -> (r: String)
    ensures
        r@ == chunk_path(chunk_x, chunk_y),
{
    let mut path = String::new();
    path.append("/tmp/chunk_");
    push_signed_decimal(&mut path, chunk_x as i64);
    path.append("_");
    push_signed_decimal(&mut path, chunk_y as i64);
    path
}

/// The path of a chunk's file is `/tmp/chunk_`, then the chunk's column and
/// row as signed decimal numerals joined by an underscore.
pub proof fn law_chunk_path_shape(chunk_x: i32, chunk_y: i32)
    ensures
        exists|sx: Seq<char>, sy: Seq<char>|
            #![trigger is_signed_numeral(sx), is_signed_numeral(sy)]
            is_signed_numeral(sx) && is_signed_numeral(sy) && chunk_path(chunk_x, chunk_y) == "/tmp/chunk_"@ + sx + "_"@ + sy,
{
    law_signed_decimal_reads_back(chunk_x as int);
    law_signed_decimal_reads_back(chunk_y as int);
}

/// Read at its underscore, the path of a chunk's file gives the chunk back:
/// after `/tmp/chunk_` come its column and its row, each in signed decimal.
pub proof fn law_chunk_path_reads_back(chunk_x: i32, chunk_y: i32, sx: Seq<char>, sy: Seq<char>)
    requires
        chunk_path(chunk_x, chunk_y) == "/tmp/chunk_"@ + sx + "_"@ + sy,
        lacks(sx, '_'),
    ensures
        signed_value(sx) == chunk_x,
        signed_value(sy) == chunk_y,
{
    reveal_strlit("_");
    assert("_"@ =~= seq!['_']);
    let p = "/tmp/chunk_"@;
    let dx = signed_decimal(chunk_x as int);
    let dy = signed_decimal(chunk_y as int);
    assert(chunk_path(chunk_x, chunk_y) =~= p + (dx + seq!['_'] + dy));
    assert(chunk_path(chunk_x, chunk_y) =~= p + (sx + seq!['_'] + sy));
    lemma_drop_prefix(p, dx + seq!['_'] + dy, sx + seq!['_'] + sy);
    law_signed_decimal_reads_back(chunk_x as int);
    law_signed_decimal_reads_back(chunk_y as int);
    lemma_signed_numeral_lacks(dx, '_');
    lemma_split_at(dx, dy, sx, sy, '_');
}

/// Different chunks are stored in different files.
pub proof fn law_chunk_path_distinct(x1: i32, y1: i32, x2: i32, y2: i32)
    requires
        chunk_path(x1, y1) == chunk_path(x2, y2),
    ensures
        x1 == x2,
        y1 == y2,
{
    law_signed_decimal_reads_back(x1 as int);
    lemma_signed_numeral_lacks(signed_decimal(x1 as int), '_');
    law_chunk_path_reads_back(x1, y1, signed_decimal(x1 as int), signed_decimal(y1 as int));
    law_chunk_path_reads_back(x2, y2, signed_decimal(x1 as int), signed_decimal(y1 as int));
}

/// The cells of row `y` of a chunk, left to right.
pub open spec fn row_cells(row: Seq<Color>, y: int) -> Seq<PixelData> {
    Seq::new(row.len(), |x: int| PixelData { color: row[x], coordinate: Coordinate { x: x as i32, y: y as i32 } })
}

/// The cells of a chunk, row by row from the top, each row left to right.
pub open spec fn chunk_cells(rows: Seq<Seq<Color>>) -> Seq<PixelData>
    decreases rows.len(),
{
    if rows.len() == 0 {
        Seq::empty()
    } else {
        chunk_cells(rows.drop_last()) + row_cells(rows.last(), rows.len() - 1)
    }
}

/// A chunk has at most 64 rows of at most 64 cells.
pub open spec fn chunk_fits(rows: Seq<Seq<Color>>) -> bool {
    &&& rows.len() <= 64
    &&& forall|y: int| 0 <= y < rows.len() ==> (#[trigger] rows[y]).len() <= 64
}

/// The cells rendered for a chunk that is not stored: all black.
pub open spec fn blank_cells() -> Seq<PixelData> {
    chunk_cells(uniform_rows(Color(0)))
}

/// The cells of a chunk, row by row, each row left to right.
fn cells_of(chunk: &Chunk) -> (r: Vec<PixelData>)
    requires
        chunk_fits(chunk_rows(*chunk)),
    ensures
        r@ == chunk_cells(chunk_rows(*chunk)),
        cells_in_chunk(r@),
{
    let ghost rows = chunk_rows(*chunk);
    let mut cells: Vec<PixelData> = Vec::new();
    let mut y: usize = 0;
    while y < chunk.pixels.len()
        invariant
            rows == chunk_rows(*chunk),
            chunk_fits(rows),
            y <= rows.len(),
            cells@ == chunk_cells(rows.take(y as int)),
            cells_in_chunk(cells@),
        decreases rows.len() - y,
    {
        let row = &chunk.pixels[y];
        assert(row@ == rows[y as int]);
        let ghost before = cells@;
        let mut x: usize = 0;
        while x < row.len()
            invariant
                rows == chunk_rows(*chunk),
                chunk_fits(rows),
                y < rows.len(),
                row@ == rows[y as int],
                x <= row@.len(),
                cells@ == before + row_cells(row@, y as int).take(x as int),
                cells_in_chunk(cells@),
            decreases row@.len() - x,
        {
            cells.push(PixelData { color: row[x], coordinate: Coordinate { x: x as i32, y: y as i32 } });
            x = x + 1;
            assert(cells@ =~= before + row_cells(row@, y as int).take(x as int));
        }
        assert(row_cells(row@, y as int).take(x as int) =~= row_cells(row@, y as int));
        assert(rows.take(y + 1).drop_last() =~= rows.take(y as int));
        y = y + 1;
    }
    assert(rows.take(rows.len() as int) =~= rows);
    cells
}

/// The cells to render for a chunk: those of the stored chunk, or, where no
/// chunk is stored, 64 x 64 black cells.
pub fn chunk_pixel_data(chunk: Option<&Chunk>) -> (r: Vec<PixelData>)
    requires
        chunk matches Some(c) ==> chunk_fits(chunk_rows(*c)),
    ensures
        r@ == match chunk {
            Some(c) => chunk_cells(chunk_rows(*c)),
            None => blank_cells(),
        },
        cells_in_chunk(r@),
{
    match chunk {
        Some(c) => cells_of(c),
        None => {
            let blank = uniform_chunk(Color(0));
            cells_of(&blank)
        },
    }
}

/// Every cell of a chunk whose cells all have colour `c` has colour `c`.
proof fn lemma_uniform_cells(rows: Seq<Seq<Color>>, c: Color)
    requires
        forall|y: int, x: int| 0 <= y < rows.len() && 0 <= x < rows[y].len() ==> #[trigger] rows[y][x] == c,
    ensures
        forall|i: int| 0 <= i < chunk_cells(rows).len() ==> (#[trigger] chunk_cells(rows)[i]).color == c,
    decreases rows.len(),
{
    if rows.len() > 0 {
        let rest = rows.drop_last();
        assert forall|y: int, x: int| 0 <= y < rest.len() && 0 <= x < rest[y].len() implies #[trigger] rest[y][x] == c by {
            assert(rest[y] == rows[y]);
        }
        lemma_uniform_cells(rest, c);
        let p = chunk_cells(rest);
        let row = row_cells(rows.last(), rows.len() - 1);
        assert forall|i: int| 0 <= i < chunk_cells(rows).len() implies (#[trigger] chunk_cells(rows)[i]).color == c by {
            if i >= p.len() {
                assert(chunk_cells(rows)[i] == row[i - p.len()]);
                assert(rows[rows.len() - 1][i - p.len()] == c);
            } else {
                assert(chunk_cells(rows)[i] == p[i]);
            }
        }
    }
}

/// A fresh chunk, with no cell painted, renders as a fully transparent tile.
pub proof fn law_fresh_chunk_is_transparent()
    ensures
        overlay(chunk_cells(uniform_rows(unpainted()))) == Seq::new(262144, |i: int| 0u8),
{
    let rows = uniform_rows(unpainted());
    assert forall|y: int, x: int| 0 <= y < rows.len() && 0 <= x < rows[y].len() implies #[trigger] rows[y][x] == unpainted() by {}
    lemma_uniform_cells(rows, unpainted());
    law_unpainted_cells_are_transparent(chunk_cells(rows));
}

/// Cells of colours past the palette leave the tile transparent.
pub proof fn law_unpainted_cells_are_transparent(cells: Seq<PixelData>)
    requires
        forall|i: int| 0 <= i < cells.len() ==> (#[trigger] cells[i]).color.0 >= 256,
    ensures
        overlay(cells) == Seq::new(262144, |i: int| 0u8),
    decreases cells.len(),
{
    if cells.len() > 0 {
        let rest = cells.drop_last();
        assert forall|i: int| 0 <= i < rest.len() implies (#[trigger] rest[i]).color.0 >= 256 by {
            assert(rest[i] == cells[i]);
        }
        law_unpainted_cells_are_transparent(rest);
        assert(cells[cells.len() - 1].color.0 >= 256);
    }
}

/// In a chunk of full rows of 64 cells, the cell at `(x, y)` stands at
/// position `y * 64 + x` of the chunk's cells.
proof fn lemma_full_rows_cells(rows: Seq<Seq<Color>>)
    requires
        forall|y: int| 0 <= y < rows.len() ==> (#[trigger] rows[y]).len() == 64,
    ensures
        chunk_cells(rows).len() == rows.len() * 64,
        forall|y: int, x: int| 0 <= y < rows.len() && 0 <= x < 64 ==> #[trigger] chunk_cells(rows)[y * 64 + x]
            == (PixelData { color: rows[y][x], coordinate: Coordinate { x: x as i32, y: y as i32 } }),
    decreases rows.len(),
{
    if rows.len() > 0 {
        let rest = rows.drop_last();
        assert forall|y: int| 0 <= y < rest.len() implies (#[trigger] rest[y]).len() == 64 by {
            assert(rest[y] == rows[y]);
        }
        lemma_full_rows_cells(rest);
        let p = chunk_cells(rest);
        let n = rows.len() - 1;
        let row = row_cells(rows.last(), n);
        assert(rows.last().len() == 64);
        assert forall|y: int, x: int| 0 <= y < rows.len() && 0 <= x < 64 implies #[trigger] chunk_cells(rows)[y * 64 + x]
            == (PixelData { color: rows[y][x], coordinate: Coordinate { x: x as i32, y: y as i32 } }) by {
            if y < n {
                assert(rest[y] == rows[y]);
                assert(p[y * 64 + x] == (PixelData { color: rest[y][x], coordinate: Coordinate { x: x as i32, y: y as i32 } }));
            } else {
                assert(chunk_cells(rows)[y * 64 + x] == row[x]);
            }
        }
    }
}

/// A chunk that is not stored is served as an opaque black tile.
pub proof fn law_missing_chunk_is_black()
    ensures
        overlay(blank_cells()) == Seq::new(262144, |i: int| if i % 4 == 3 { 255u8 } else { 0u8 }),
{
    let rows = uniform_rows(Color(0));
    let cells = blank_cells();
    assert forall|y: int| 0 <= y < rows.len() implies (#[trigger] rows[y]).len() == 64 by {}
    lemma_full_rows_cells(rows);
    lemma_uniform_cells(rows, Color(0));
    let rgb = (0u8, 0u8, 0u8);
    assert(DEFAULT_PALETTE@[0] == 0u32);
    assert(palette_rgb(Color(0)) == Some(rgb)) by {
        assert(((0u32 >> 16u32) & 0xffu32) == 0u32) by (bit_vector);
        assert(((0u32 >> 8u32) & 0xffu32) == 0u32) by (bit_vector);
        assert((0u32 & 0xffu32) == 0u32) by (bit_vector);
    }
    lemma_overlay_one_colour(cells, Color(0), rgb);
    lemma_overlay_len(cells);
    assert forall|i: int| 0 <= i < 262144 implies covered(cells, i) by {
        let x = pixel_col(i) / 4;
        let y = pixel_row(i) / 4;
        assert(0 <= x < 64 && 0 <= y < 64);
        assert(cells[y * 64 + x].coordinate == Coordinate { x: x as i32, y: y as i32 });
        assert(in_cell(i, cells[y * 64 + x].coordinate));
    }
    assert(overlay(cells) =~= Seq::new(262144, |i: int| if i % 4 == 3 { 255u8 } else { 0u8 }));
}

/// A PNG overlay tile and the file name it is served under.
pub struct PngResponse {
    data: Vec<u8>,
    filename: String,
}

impl PngResponse {
    pub closed spec fn data_spec(&self) -> Seq<u8> {
        self.data@
    }

    pub closed spec fn filename_spec(&self) -> Seq<char> {
        self.filename@
    }

    /// The PNG bytes.
    pub fn data(&self) -> (r: &Vec<u8>)
        ensures
            r@ == self.data_spec(),
    {
        &self.data
    }

    /// The file name.
    pub fn filename(&self) -> (r: &str)
        ensures
            r@ == self.filename_spec(),
    {
        self.filename.as_str()
    }

    /// The PNG bytes and the file name.
    pub fn into_parts(self) -> (r: (Vec<u8>, String))
        ensures
            r.0@ == self.data_spec(),
            r.1@ == self.filename_spec(),
    {
        (self.data, self.filename)
    }
}

/// The file name of the overlay tile of a chunk: `{x}_{y}.png`.
pub open spec fn png_filename(chunk_x: i32, chunk_y: i32) -> Seq<char> {
    signed_decimal(chunk_x as int) + "_"@ + signed_decimal(chunk_y as int) + ".png"@
}

/// The file name of a chunk's overlay tile is the chunk's column and row as
/// signed decimal numerals joined by an underscore, then `.png`.
pub proof fn law_png_filename_shape(chunk_x: i32, chunk_y: i32)
    ensures
        exists|sx: Seq<char>, sy: Seq<char>|
            #![trigger is_signed_numeral(sx), is_signed_numeral(sy)]
            is_signed_numeral(sx) && is_signed_numeral(sy) && png_filename(chunk_x, chunk_y) == sx + "_"@ + sy + ".png"@,
{
    law_signed_decimal_reads_back(chunk_x as int);
    law_signed_decimal_reads_back(chunk_y as int);
}

/// Read at its underscore, the file name of a chunk's overlay tile gives the
/// chunk back: its column, then its row, each in signed decimal.
pub proof fn law_png_filename_reads_back(chunk_x: i32, chunk_y: i32, sx: Seq<char>, sy: Seq<char>)
    requires
        png_filename(chunk_x, chunk_y) == sx + "_"@ + sy + ".png"@,
        lacks(sx, '_'),
    ensures
        signed_value(sx) == chunk_x,
        signed_value(sy) == chunk_y,
{
    reveal_strlit("_");
    assert("_"@ =~= seq!['_']);
    let e = ".png"@;
    let dx = signed_decimal(chunk_x as int);
    let dy = signed_decimal(chunk_y as int);
    assert(png_filename(chunk_x, chunk_y) =~= (dx + seq!['_'] + dy) + e);
    assert(png_filename(chunk_x, chunk_y) =~= (sx + seq!['_'] + sy) + e);
    lemma_drop_suffix(dx + seq!['_'] + dy, sx + seq!['_'] + sy, e);
    law_signed_decimal_reads_back(chunk_x as int);
    law_signed_decimal_reads_back(chunk_y as int);
    lemma_signed_numeral_lacks(dx, '_');
    lemma_split_at(dx, dy, sx, sy, '_');
}

/// Different chunks get overlay tiles of different file names.
pub proof fn law_png_filename_distinct(x1: i32, y1: i32, x2: i32, y2: i32)
    requires
        png_filename(x1, y1) == png_filename(x2, y2),
    ensures
        x1 == x2,
        y1 == y2,
{
    law_signed_decimal_reads_back(x1 as int);
    lemma_signed_numeral_lacks(signed_decimal(x1 as int), '_');
    law_png_filename_reads_back(x1, y1, signed_decimal(x1 as int), signed_decimal(y1 as int));
    law_png_filename_reads_back(x2, y2, signed_decimal(x1 as int), signed_decimal(y1 as int));
}

/// The answer for the overlay tile of a chunk, given what PNG rendering gave:
/// the PNG under the chunk's file name, or an internal server error.
pub fn png_response(chunk_x: i32, chunk_y: i32, png: Result<Vec<u8>, &'static str>) -> (r: Result<PngResponse, ServerStatus>)
    ensures
        png is Ok <==> r is Ok,
        png matches Ok(bytes) ==> (r matches Ok(resp) && resp.data_spec() == bytes@
            && resp.filename_spec() == png_filename(chunk_x, chunk_y)),
        png is Err ==> r == Err::<PngResponse, ServerStatus>(ServerStatus::InternalServerError),
{
    match png {
        Ok(data) => {
            let mut filename = String::new();
            push_signed_decimal(&mut filename, chunk_x as i64);
            filename.append("_");
            push_signed_decimal(&mut filename, chunk_y as i64);
            filename.append(".png");
            Ok(PngResponse { data, filename })
        },
        Err(_) => Err(ServerStatus::InternalServerError),
    }
}

/// The sample cells of the mock drawing.
pub open spec fn sample_cells() -> Seq<PixelData> {
    seq![
        PixelData { color: Color(3), coordinate: Coordinate { x: 10, y: 10 } },
        PixelData { color: Color(5), coordinate: Coordinate { x: 32, y: 32 } },
        PixelData { color: Color(2), coordinate: Coordinate { x: 56, y: 56 } },
        PixelData { color: Color(1), coordinate: Coordinate { x: 0, y: 0 } },
        PixelData { color: Color(0), coordinate: Coordinate { x: 63, y: 63 } },
    ]
}

/// The mock drawing's tile: the 4 x 4 blocks of cells (10, 10), (32, 32),
/// (56, 56), (0, 0) and (63, 63) in the colours 3, 5, 2, 1 and 0, every
/// other pixel transparent.
pub proof fn law_mock_drawing_blocks()
    ensures
        overlay(sample_cells()) == Seq::new(262144, |i: int|
            if in_cell(i, Coordinate { x: 10, y: 10 }) {
                channel(palette_rgb(Color(3)).unwrap(), i % 4)
            } else if in_cell(i, Coordinate { x: 32, y: 32 }) {
                channel(palette_rgb(Color(5)).unwrap(), i % 4)
            } else if in_cell(i, Coordinate { x: 56, y: 56 }) {
                channel(palette_rgb(Color(2)).unwrap(), i % 4)
            } else if in_cell(i, Coordinate { x: 0, y: 0 }) {
                channel(palette_rgb(Color(1)).unwrap(), i % 4)
            } else if in_cell(i, Coordinate { x: 63, y: 63 }) {
                channel(palette_rgb(Color(0)).unwrap(), i % 4)
            } else {
                0u8
            }),
{
    let cells = sample_cells();
    law_overlay_of_distinct_cells(cells);
    lemma_overlay_len(cells);
    let want = Seq::new(262144, |i: int|
        if in_cell(i, Coordinate { x: 10, y: 10 }) {
            channel(palette_rgb(Color(3)).unwrap(), i % 4)
        } else if in_cell(i, Coordinate { x: 32, y: 32 }) {
            channel(palette_rgb(Color(5)).unwrap(), i % 4)
        } else if in_cell(i, Coordinate { x: 56, y: 56 }) {
            channel(palette_rgb(Color(2)).unwrap(), i % 4)
        } else if in_cell(i, Coordinate { x: 0, y: 0 }) {
            channel(palette_rgb(Color(1)).unwrap(), i % 4)
        } else if in_cell(i, Coordinate { x: 63, y: 63 }) {
            channel(palette_rgb(Color(0)).unwrap(), i % 4)
        } else {
            0u8
        });
    assert forall|i: int| 0 <= i < 262144 implies overlay(cells)[i] == want[i] by {
        if in_cell(i, cells[0].coordinate) {
        } else if in_cell(i, cells[1].coordinate) {
        } else if in_cell(i, cells[2].coordinate) {
        } else if in_cell(i, cells[3].coordinate) {
        } else if in_cell(i, cells[4].coordinate) {
        } else {
            assert(!covered(cells, i));
        }
    }
    assert(overlay(cells) =~= want);
}

/// The mock drawing: the overlay tile of five sample cells, whatever chunk
/// and zoom level are asked for, served under the chunk's file name.
pub fn get_drawing(chunk_x: i32, chunk_y: i32, zoom_lv: u8) -> (r: Result<PngResponse, ServerStatus>)
    ensures
        r is Ok <==> png_encoding(256, 256, overlay(sample_cells())) is Some,
        r matches Ok(resp) ==> Some(resp.data_spec()) == png_encoding(256, 256, overlay(sample_cells()))
            && resp.filename_spec() == png_filename(chunk_x, chunk_y),
        r is Err ==> r == Err::<PngResponse, ServerStatus>(ServerStatus::InternalServerError),
{
    let sample_data = vec![
        PixelData { color: Color(3), coordinate: Coordinate { x: 10, y: 10 } },
        PixelData { color: Color(5), coordinate: Coordinate { x: 32, y: 32 } },
        PixelData { color: Color(2), coordinate: Coordinate { x: 56, y: 56 } },
        PixelData { color: Color(1), coordinate: Coordinate { x: 0, y: 0 } },
        PixelData { color: Color(0), coordinate: Coordinate { x: 63, y: 63 } },
    ];
    assert(sample_data@ =~= sample_cells());
    png_response(chunk_x, chunk_y, generate_overlay_png(sample_data.as_slice()))
}

/// The overlay tile of a chunk, given the stored chunk or `None` where no
/// chunk is stored.
pub fn chunk_png_response(chunk_x: i32, chunk_y: i32, chunk: Option<&Chunk>) -> (r: Result<PngResponse, ServerStatus>)
    requires
        chunk matches Some(c) ==> chunk_fits(chunk_rows(*c)),
    ensures
        ({
            let cells = match chunk {
                Some(c) => chunk_cells(chunk_rows(*c)),
                None => blank_cells(),
            };
            &&& r is Ok <==> png_encoding(256, 256, overlay(cells)) is Some
            &&& r matches Ok(resp) ==> Some(resp.data_spec()) == png_encoding(256, 256, overlay(cells))
                && resp.filename_spec() == png_filename(chunk_x, chunk_y)
            &&& r is Err ==> r == Err::<PngResponse, ServerStatus>(ServerStatus::InternalServerError)
        }),
{
    let pixels_vec = chunk_pixel_data(chunk);
    png_response(chunk_x, chunk_y, generate_overlay_png(pixels_vec.as_slice()))
}

} // verus!
