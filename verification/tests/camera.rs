use cplace::map::camera::{tiles_in_range, visible_tile_grid};
use cplace::map::tile::TileId;

fn tiles(v: &[(u32, u32, u8)]) -> Vec<TileId> {
    v.iter().map(|&(x, y, z)| TileId { x, y, z }).collect()
}

#[test]
fn grid_is_row_major() {
    let got = tiles_in_range(14, 13969, 13972, 6346, 6348);
    let want = tiles(&[
        (13969, 6346, 14), (13970, 6346, 14), (13971, 6346, 14), (13972, 6346, 14),
        (13969, 6347, 14), (13970, 6347, 14), (13971, 6347, 14), (13972, 6347, 14),
        (13969, 6348, 14), (13970, 6348, 14), (13971, 6348, 14), (13972, 6348, 14),
    ]);
    assert_eq!(got, want);
}

#[test]
fn grid_wraps_columns_and_skips_rows_off_the_map() {
    let got = tiles_in_range(1, -1, 2, -1, 2);
    let want = tiles(&[
        (1, 0, 1), (0, 0, 1), (1, 0, 1), (0, 0, 1),
        (1, 1, 1), (0, 1, 1), (1, 1, 1), (0, 1, 1),
    ]);
    assert_eq!(got, want);
}

#[test]
fn empty_grids() {
    assert!(tiles_in_range(3, 5, 4, 0, 2).is_empty());
    assert!(tiles_in_range(3, 0, 2, 3, 2).is_empty());
    assert!(tiles_in_range(3, 0, 2, 8, 10).is_empty());
}

#[test]
fn test_visibility() {
    // The camera at (126.9794, 37.5372), zoom 14, 800 x 200 pixels: its
    // centre lies in tile (13970.97, 6346.42), and 5 x 2 tiles fit across
    // the view (ceil(800 / 256) + 1, ceil(200 / 256) + 1). Buffer 1.
    let visibles = visible_tile_grid(14, (13970, 6346), (13971, 6347), (5, 2), 1);
    let test_data: Vec<_> = [
        (13969, 6346, 14), (13970, 6346, 14), (13971, 6346, 14), (13972, 6346, 14),
        (13969, 6347, 14), (13970, 6347, 14), (13971, 6347, 14), (13972, 6347, 14),
        (13969, 6348, 14), (13970, 6348, 14), (13971, 6348, 14), (13972, 6348, 14)
    ].into_iter().map(|(x, y, z)| TileId { x, y, z }).collect();
    assert_eq!(visibles, test_data);
}

#[test]
fn visible_window_around_centre() {
    // centre between columns 5 and 6 and on row 2 exactly, five tiles
    // across and four down, one buffer tile: the window starts 5 / 2 - 1 = 1
    // and 4 / 2 - 1 = 1 tiles before the centre and ends one past it
    let got = visible_tile_grid(4, (5, 2), (6, 2), (5, 4), 1);
    let mut want = Vec::new();
    for y in 1..=3u32 {
        for x in 4..=7u32 {
            want.push(TileId { x, y, z: 4 });
        }
    }
    assert_eq!(got, want);
}

#[test]
fn larger_buffer_only_adds_tiles() {
    let small = visible_tile_grid(4, (5, 5), (6, 6), (5, 4), 0);
    let large = visible_tile_grid(4, (5, 5), (6, 6), (5, 4), 2);
    assert!(small.len() < large.len());
    assert!(small.iter().all(|t| large.contains(t)));
}

#[test]
fn visible_window_with_negative_lead() {
    // -3 / 2 rounds toward zero to -1, so the window starts two columns
    // past the centre's floor and is empty when the ceiling is passed
    let got = visible_tile_grid(4, (5, 5), (5, 5), (-3, 2), 0);
    assert!(got.is_empty());
    let got = visible_tile_grid(4, (5, 5), (5, 5), (3, 2), 0);
    assert_eq!(got, tiles(&[(5, 5, 4)]));
}
