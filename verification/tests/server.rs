use cplace::server::overlay::{color_rgb, generate_overlay_png, overlay_rgba};
use cplace::server::{
    chunk_pixel_data, chunk_png_response, get_chunk_path, get_drawing, png_response, Chunk, Color,
    Coordinate, DrawRequest, PixelData, ServerStatus, DEFAULT_PALETTE,
};
use cplace::map::loader::decode_tile_image;

fn cell(c: u32, x: i32, y: i32) -> PixelData {
    PixelData { color: Color(c), coordinate: Coordinate { x, y } }
}

fn px(buf: &[u8], row: usize, col: usize) -> [u8; 4] {
    let i = (row * 256 + col) * 4;
    [buf[i], buf[i + 1], buf[i + 2], buf[i + 3]]
}

#[test]
fn chunk_paths() {
    assert_eq!(get_chunk_path(3, 12), "/tmp/chunk_3_12");
    assert_eq!(get_chunk_path(-7, 0), "/tmp/chunk_-7_0");
    assert_eq!(get_chunk_path(i32::MIN, i32::MAX), "/tmp/chunk_-2147483648_2147483647");
}

#[test]
fn fresh_chunk_is_unpainted() {
    let chunk = Chunk::new();
    assert_eq!(chunk.pixels.len(), 64);
    assert!(chunk.pixels.iter().all(|row| row.len() == 64 && row.iter().all(|c| *c == Color(256))));
}

#[test]
fn draw_coordinates() {
    let req = DrawRequest { chunk_x: 0, chunk_y: 0, pixel_data: cell(1, 63, 0) };
    assert!(req.pixel_data.coordinate.in_chunk());
    assert!(!Coordinate { x: 64, y: 0 }.in_chunk());
    assert!(!Coordinate { x: 0, y: -1 }.in_chunk());
    assert!(Coordinate { x: 0, y: 0 }.in_chunk());
}

#[test]
fn palette_colours() {
    assert_eq!(color_rgb(Color(0)), Some((0, 0, 0)));
    assert_eq!(color_rgb(Color(6)), Some((0xa8, 0x54, 0x00)));
    assert_eq!(color_rgb(Color(255)), Some((0, 0, 0)));
    assert_eq!(color_rgb(Color(256)), None);
    assert_eq!(DEFAULT_PALETTE[9], 0x5454fc);
}

#[test]
fn overlay_paints_four_by_four_blocks() {
    let buf = overlay_rgba(&[cell(9, 2, 1)]);
    assert_eq!(buf.len(), 262144);
    for row in 0..256 {
        for col in 0..256 {
            let inside = (4..8).contains(&row) && (8..12).contains(&col);
            let want = if inside { [0x54, 0x54, 0xfc, 0xff] } else { [0, 0, 0, 0] };
            assert_eq!(px(&buf, row, col), want);
        }
    }
}

#[test]
fn later_cells_paint_over_earlier_ones() {
    let buf = overlay_rgba(&[cell(4, 0, 0), cell(2, 0, 0), cell(300, 0, 0)]);
    assert_eq!(px(&buf, 3, 3), [0x00, 0xa8, 0x00, 0xff]);
    assert_eq!(px(&buf, 4, 4), [0, 0, 0, 0]);
}

#[test]
fn unpainted_cells_stay_transparent() {
    let cells = chunk_pixel_data(Some(&Chunk::new()));
    assert_eq!(cells.len(), 4096);
    assert!(overlay_rgba(&cells).iter().all(|b| *b == 0));
}

#[test]
fn chunk_cells_are_row_major() {
    let mut chunk = Chunk::new();
    chunk.pixels[1][2] = Color(7);
    let cells = chunk_pixel_data(Some(&chunk));
    assert_eq!(cells[0], cell(256, 0, 0));
    assert_eq!(cells[63], cell(256, 63, 0));
    assert_eq!(cells[64 + 2], cell(7, 2, 1));
    let jagged = Chunk { pixels: vec![vec![Color(1); 2], vec![], vec![Color(3)]] };
    assert_eq!(chunk_pixel_data(Some(&jagged)), vec![cell(1, 0, 0), cell(1, 1, 0), cell(3, 0, 2)]);
}

#[test]
fn missing_chunk_renders_black() {
    let cells = chunk_pixel_data(None);
    assert_eq!(cells.len(), 4096);
    assert_eq!(cells[4095], cell(0, 63, 63));
    let buf = overlay_rgba(&cells);
    for row in 0..256 {
        for col in 0..256 {
            assert_eq!(px(&buf, row, col), [0, 0, 0, 0xff]);
        }
    }
}

#[test]
fn png_of_overlay_decodes_back() {
    let cells = [cell(12, 63, 63), cell(1, 0, 0)];
    let png = generate_overlay_png(&cells).unwrap();
    assert_eq!(&png[1..4], b"PNG");
    let img = decode_tile_image(&png).unwrap();
    assert_eq!(img.pixels, overlay_rgba(&cells));
}

#[test]
fn responses() {
    let ok = png_response(-1, 5, Ok(vec![1, 2])).unwrap();
    assert_eq!(ok.data(), &vec![1, 2]);
    assert_eq!(ok.filename(), "-1_5.png");
    let (data, name) = ok.into_parts();
    assert_eq!((data, name.as_str()), (vec![1, 2], "-1_5.png"));
    assert_eq!(png_response(0, 0, Err("x")).err(), Some(ServerStatus::InternalServerError));
}

#[test]
fn mock_drawing() {
    let resp = get_drawing(4, 9, 3).unwrap();
    assert_eq!(resp.filename(), "4_9.png");
    let img = decode_tile_image(resp.data()).unwrap();
    // sample cell 3 at (10, 10) is 0x00a8a8; cell 0 at (63, 63) is black
    assert_eq!(px(&img.pixels, 40, 40), [0x00, 0xa8, 0xa8, 0xff]);
    assert_eq!(px(&img.pixels, 255, 255), [0, 0, 0, 0xff]);
    assert_eq!(px(&img.pixels, 100, 100), [0, 0, 0, 0]);
    // all five blocks, in colours 3, 5, 2, 1, 0
    let blocks = [(40, 3), (128, 5), (224, 2), (0, 1), (252, 0)];
    for (at, colour) in blocks {
        let (r, g, b) = color_rgb(Color(colour)).unwrap();
        for d in 0..4 {
            assert_eq!(px(&img.pixels, at + d, at + 3 - d), [r, g, b, 0xff]);
        }
    }
    // the same tile for every chunk and zoom level
    assert_eq!(get_drawing(-3, 0, 17).unwrap().data(), resp.data());
}

#[test]
fn chunk_png_for_stored_and_missing_chunks() {
    let mut chunk = Chunk::new();
    chunk.pixels[0][0] = Color(14);
    let resp = chunk_png_response(1, 2, Some(&chunk)).unwrap();
    assert_eq!(resp.filename(), "1_2.png");
    let img = decode_tile_image(resp.data()).unwrap();
    assert_eq!(px(&img.pixels, 0, 0), [0xfc, 0xfc, 0x54, 0xff]);
    assert_eq!(px(&img.pixels, 4, 4), [0, 0, 0, 0]);
    let resp = chunk_png_response(1, 2, None).unwrap();
    let img = decode_tile_image(resp.data()).unwrap();
    assert_eq!(px(&img.pixels, 4, 4), [0, 0, 0, 0xff]);
}
