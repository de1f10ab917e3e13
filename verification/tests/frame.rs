use cplace::map::cache::{CachedTile, TileCache, TileType};
use cplace::map::loader::TileLoader;
use cplace::map::tile::TileId;
use cplace::map::{tiles_to_render, tiles_to_request};
use cplace::config::Configuration;

#[test]
fn frame_requests_and_draws() {
    let mut cache = TileCache::new(Configuration::default().tiles);
    let mut loader = TileLoader::default();
    let a = TileId::new(0, 0, 1);
    let b = TileId::new(1, 0, 1);
    let c = TileId::new(0, 1, 1);
    cache.insert(a, CachedTile { resource: 1, width: 256, tile_type: TileType::MapTile });
    loader.mark_pending(b);
    let visible = vec![a, b, c, c, a];
    assert_eq!(tiles_to_request(&cache, &loader, &visible), vec![c]);
    assert_eq!(tiles_to_render(&cache, &visible), vec![a, a]);
    assert!(tiles_to_request(&cache, &loader, &Vec::new()).is_empty());
}

#[test]
fn default_configuration() {
    assert_eq!(Configuration::default().tiles, 128);
}
