use cplace::map::tile::{is_valid_tile_y, wrap_tile_x, TileId};

#[test]
fn test_wrap_tile_x() {
    // At zoom 2, max tiles = 4 (0-3)
    assert_eq!(wrap_tile_x(4, 2), 0); // Wrap around
    assert_eq!(wrap_tile_x(-1, 2), 3); // Wrap negative
    assert_eq!(wrap_tile_x(2, 2), 2); // Normal
}

#[test]
fn wrap_tile_x_far_negative_and_zoom_zero() {
    assert_eq!(wrap_tile_x(-9, 2), 3);
    assert_eq!(wrap_tile_x(-8, 2), 0);
    assert_eq!(wrap_tile_x(12345, 0), 0);
    assert_eq!(wrap_tile_x(-12345, 0), 0);
    assert_eq!(wrap_tile_x(i32::MAX, 30), (i32::MAX as u32) % (1 << 30));
    assert_eq!(wrap_tile_x(i32::MIN, 30), 0);
}

#[test]
fn wrap_tile_x_at_zoom_31() {
    assert_eq!(wrap_tile_x(5, 31), 5);
    assert_eq!(wrap_tile_x(i32::MAX, 31), i32::MAX as u32);
    assert_eq!(wrap_tile_x(i32::MIN, 31), 0);
}

#[test]
fn wrap_tile_x_is_periodic() {
    for x in -20..20 {
        assert_eq!(wrap_tile_x(x, 3), wrap_tile_x(x + 8, 3));
    }
}

#[test]
fn valid_tile_rows() {
    assert!(is_valid_tile_y(0, 2));
    assert!(is_valid_tile_y(3, 2));
    assert!(!is_valid_tile_y(4, 2));
    assert!(!is_valid_tile_y(-1, 2));
    assert!(is_valid_tile_y(0, 0));
    assert!(!is_valid_tile_y(1, 0));
    assert!(is_valid_tile_y((1 << 30) - 1, 30));
    assert!(!is_valid_tile_y(0, 31));
    assert!(!is_valid_tile_y(i32::MAX, 31));
}

#[test]
fn tile_id_new_and_url() {
    let t = TileId::new(13970, 6346, 14);
    assert_eq!(t, TileId { x: 13970, y: 6346, z: 14 });
    assert_eq!(t.to_osm_url(), "https://tile.openstreetmap.org/14/13970/6346.png");
    assert_eq!(TileId::new(0, 0, 0).to_osm_url(), "https://tile.openstreetmap.org/0/0/0.png");
    assert_eq!(
        TileId::new(u32::MAX, 10, 255).to_osm_url(),
        "https://tile.openstreetmap.org/255/4294967295/10.png"
    );
}

#[test]
fn different_tiles_have_different_urls() {
    let tiles = [
        TileId::new(1, 11, 1), TileId::new(11, 1, 1), TileId::new(1, 1, 11),
        TileId::new(11, 11, 1), TileId::new(1, 11, 11), TileId::new(111, 1, 1),
    ];
    for a in &tiles {
        for b in &tiles {
            assert_eq!(a == b, a.to_osm_url() == b.to_osm_url());
        }
    }
}
