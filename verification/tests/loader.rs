use cplace::map::loader::{decode_tile_image, tile_memory_size, TileLoadResult, TileLoader};
use cplace::map::tile::TileId;
use cplace::codec::ImageErrorKind;
use cplace::server::overlay::generate_overlay_png;
use cplace::server::{Color, Coordinate, PixelData};

#[test]
fn request_builds_url_until_pending() {
    let mut loader = TileLoader::new("agent/1");
    assert_eq!(loader.user_agent(), "agent/1");
    let id = TileId::new(3, 4, 5);
    let req = loader.request(id).unwrap();
    assert_eq!(req.tile_id, id);
    assert_eq!(req.url, "https://tile.openstreetmap.org/5/3/4.png");
    assert!(!loader.is_loading(&id));
    loader.mark_pending(id);
    assert!(loader.is_loading(&id));
    assert!(loader.request(id).is_none());
    loader.mark_pending(id);
    assert_eq!(loader.pending_count(), 1);
}

#[test]
fn poll_clears_finished_tiles() {
    let mut loader = TileLoader::default();
    assert_eq!(loader.user_agent(), "CPlace/0.1 (https://github.com/antegral/cplace)");
    let a = TileId::new(1, 1, 1);
    let b = TileId::new(0, 1, 1);
    loader.mark_pending(a);
    loader.mark_pending(b);
    assert_eq!(loader.pending_count(), 2);
    let got = loader.poll(Some(TileLoadResult::Failed(a, "HTTP 404".to_string())));
    assert!(matches!(got, Some(TileLoadResult::Failed(id, ref e)) if id == a && e == "HTTP 404"));
    assert!(!loader.is_loading(&a));
    assert!(loader.is_loading(&b));
    assert!(loader.poll(None).is_none());
    assert_eq!(loader.pending_count(), 1);
    let got = loader.poll(Some(TileLoadResult::Success(b, vec![1, 2, 3])));
    assert!(matches!(got, Some(TileLoadResult::Success(id, ref d)) if id == b && d == &vec![1, 2, 3]));
    assert_eq!(loader.pending_count(), 0);
    // a result for a tile nobody waits for is ignored
    let got = loader.poll(Some(TileLoadResult::Failed(a, String::new())));
    assert!(got.is_none());
    assert_eq!(loader.pending_count(), 0);
}

#[test]
fn clear_pending_forgets_everything() {
    let mut loader = TileLoader::new("x");
    loader.mark_pending(TileId::new(0, 0, 0));
    loader.mark_pending(TileId::new(0, 0, 1));
    loader.clear_pending();
    assert_eq!(loader.pending_count(), 0);
    assert!(loader.request(TileId::new(0, 0, 0)).is_some());
    // cancelled tiles still complete, but their results are ignored
    assert!(loader.poll(Some(TileLoadResult::Success(TileId::new(0, 0, 1), vec![]))).is_none());
}

#[test]
fn marking_a_new_tile_grows_the_count_by_one() {
    let mut loader = TileLoader::new("x");
    let t = TileId::new(9, 9, 9);
    loader.mark_pending(TileId::new(1, 1, 1));
    assert!(loader.request(t).is_some());
    loader.mark_pending(t);
    assert!(loader.request(t).is_none());
    assert_eq!(loader.pending_count(), 2);
    assert!(loader.poll(Some(TileLoadResult::Success(t, vec![]))).is_some());
    assert_eq!(loader.pending_count(), 1);
    assert!(loader.request(t).is_some());
}

#[test]
fn memory_size_is_four_bytes_per_pixel() {
    assert_eq!(tile_memory_size(256, 256), 262144);
    assert_eq!(tile_memory_size(0, 10), 0);
    assert_eq!(tile_memory_size(512, 1), 2048);
}

#[test]
fn decode_rejects_garbage() {
    assert_eq!(decode_tile_image(&[1, 2, 3, 4]).unwrap_err(), ImageErrorKind::Unsupported);
}

#[test]
fn decode_reads_back_an_overlay() {
    let cells = [PixelData { color: Color(4), coordinate: Coordinate { x: 1, y: 0 } }];
    let png = generate_overlay_png(&cells).unwrap();
    let img = decode_tile_image(&png).unwrap();
    assert_eq!((img.width, img.height), (256, 256));
    assert_eq!(img.pixels.len(), tile_memory_size(img.width, img.height));
    assert_eq!(img.pixels.len(), 262144);
    // pixel (4, 0) lies in the block of cell (1, 0): palette 4 is 0xa80000
    assert_eq!(&img.pixels[16..20], &[0xa8, 0, 0, 0xff]);
    assert_eq!(&img.pixels[0..4], &[0, 0, 0, 0]);
}
