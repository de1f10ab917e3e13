use cplace::map::cache::{CachedTile, TileCache, TileType, LEVEL_COUNT, MAX_ZOOM};
use cplace::map::tile::TileId;

fn tile(resource: u64) -> CachedTile {
    CachedTile { resource, width: 256, tile_type: TileType::MapTile }
}

#[test]
fn new_cache_is_empty() {
    let cache = TileCache::new(3);
    assert_eq!(cache.tile_counts(), [0usize; 15]);
    let stats = cache.stats();
    assert_eq!(stats.tile_count, 0);
    assert_eq!(stats.max_tiles, 45);
    assert_eq!(MAX_ZOOM + 1, LEVEL_COUNT);
}

#[test]
fn insert_then_contains_and_peek() {
    let mut cache = TileCache::new(2);
    let id = TileId::new(1, 2, 3);
    assert!(!cache.contains(&id));
    assert_eq!(cache.peek(&id), None);
    assert_eq!(cache.insert(id, tile(7)), None);
    assert!(cache.contains(&id));
    assert_eq!(cache.peek(&id), Some(tile(7)));
    // same x, y at another zoom is another tile
    assert!(!cache.contains(&TileId::new(1, 2, 4)));
}

#[test]
fn reinsert_replaces_and_returns_old_entry() {
    let mut cache = TileCache::new(2);
    let id = TileId::new(1, 2, 3);
    cache.insert(id, tile(7));
    assert_eq!(cache.insert(id, tile(8)), Some((id, tile(7))));
    assert_eq!(cache.peek(&id), Some(tile(8)));
    assert_eq!(cache.level_stats(3).unwrap().tile_count, 1);
}

#[test]
fn full_level_evicts_least_recently_used() {
    let mut cache = TileCache::new(2);
    let a = TileId::new(0, 0, 5);
    let b = TileId::new(1, 0, 5);
    let c = TileId::new(2, 0, 5);
    cache.insert(a, tile(1));
    cache.insert(b, tile(2));
    // re-inserting a makes b the least recently used
    cache.insert(a, tile(3));
    assert_eq!(cache.insert(c, tile(4)), Some((b, tile(2))));
    assert!(cache.contains(&a));
    assert!(!cache.contains(&b));
    assert!(cache.contains(&c));
    assert_eq!(cache.level_stats(5).unwrap().tile_count, 2);
}

#[test]
fn peek_does_not_refresh() {
    let mut cache = TileCache::new(2);
    let a = TileId::new(0, 0, 5);
    let b = TileId::new(1, 0, 5);
    let c = TileId::new(2, 0, 5);
    cache.insert(a, tile(1));
    cache.insert(b, tile(2));
    assert_eq!(cache.peek(&a), Some(tile(1)));
    assert!(cache.contains(&a));
    // a is still the least recently used
    assert_eq!(cache.insert(c, tile(3)), Some((a, tile(1))));
}

#[test]
fn levels_are_separate() {
    let mut cache = TileCache::new(1);
    let a = TileId::new(0, 0, 1);
    let b = TileId::new(0, 0, 2);
    cache.insert(a, tile(1));
    assert_eq!(cache.insert(b, tile(2)), None);
    assert!(cache.contains(&a));
    assert!(cache.contains(&b));
    let mut counts = [0usize; 15];
    counts[1] = 1;
    counts[2] = 1;
    assert_eq!(cache.tile_counts(), counts);
    assert_eq!(cache.stats().tile_count, 2);
    assert_eq!(cache.stats().max_tiles, 15);
}

#[test]
fn zoom_past_max_is_not_cached() {
    let mut cache = TileCache::new(4);
    let id = TileId::new(0, 0, 15);
    assert_eq!(cache.insert(id, tile(1)), None);
    assert!(!cache.contains(&id));
    assert_eq!(cache.peek(&id), None);
    assert!(cache.level_stats(15).is_none());
    assert_eq!(cache.stats().tile_count, 0);
}

#[test]
fn level_stats_of_a_level() {
    let mut cache = TileCache::new(4);
    cache.insert(TileId::new(0, 0, 14), tile(1));
    cache.insert(TileId::new(1, 0, 14), tile(2));
    let stats = cache.level_stats(14).unwrap();
    assert_eq!(stats.zoom, 14);
    assert_eq!(stats.tile_count, 2);
    assert_eq!(stats.max_tiles, 4);
    assert_eq!(cache.level_stats(0).unwrap().tile_count, 0);
}
