//! LRU tile cache with one cache per zoom level.

use vstd::prelude::*;
use lru::LruCache;
use crate::map::tile::TileId;

verus! {

#[verifier::external_type_specification]
#[verifier::external_body]
#[verifier::reject_recursive_types(K)]
#[verifier::reject_recursive_types(V)]
#[verifier::reject_recursive_types(S)]
pub struct ExLruCache<K, V, S>(LruCache<K, V, S>);

#[verifier::external_type_specification]
#[verifier::external_body]
pub struct ExLruDefaultHasher(lru::DefaultHasher);

/// Tile type for different use cases
#[derive(Clone, Copy, Debug, PartialEq, Eq, Structural)]
pub enum TileType {
    /// Standard OSM map tile (typically 256x256)
    MapTile,
    /// Pixel art overlay (variable size)
    PixelArt,
    /// High resolution tile (512x512)
    HighRes,
    /// Custom user-defined tile
    Custom,
}

impl Default for TileType {
    fn default() -> (r: Self)
        ensures
            r == TileType::MapTile,
    {
        TileType::MapTile
    }
}

/// A cached tile: the handle under which the GPU resources of the tile are
/// kept, and its metadata.
#[derive(Clone, Copy, Debug, PartialEq, Eq, Structural)]
pub struct CachedTile {
    pub resource: u64,
    pub width: u32,
    pub tile_type: TileType,
}

/// Key of a tile inside a level cache: `(x, y, z)`.
pub type TileKey = (u32, u32, u8);

/// The entries of a level cache, most recently used first.
pub uninterp spec fn lru_entries(cache: LruCache<TileKey, CachedTile>) -> Seq<(TileKey, CachedTile)>;

/// The capacity a level cache was made with.
pub uninterp spec fn lru_capacity(cache: LruCache<TileKey, CachedTile>) -> nat;

/// `LruCache::new`: an empty cache holding at most `cap` entries.
#[verifier::external_body]
fn lru_new(cap: usize) -> (r: LruCache<TileKey, CachedTile>)
    requires
        cap > 0,
    ensures
        lru_entries(r) == Seq::<(TileKey, CachedTile)>::empty(),
        lru_capacity(r) == cap,
{
    LruCache::new(std::num::NonZeroUsize::new(cap).unwrap())
}

/// `LruCache::push`: the pushed entry becomes the most recently used one.
/// An entry with the same key leaves the cache and is handed back; otherwise,
/// in a full cache, the least recently used entry is evicted and handed back.
#[verifier::external_body]
fn lru_push(cache: &mut LruCache<TileKey, CachedTile>, k: TileKey, v: CachedTile) -> (r: Option<(TileKey, CachedTile)>)
    ensures
        lru_capacity(*final(cache)) == lru_capacity(*old(cache)),
        ({
            let s = lru_entries(*old(cache));
            let t = lru_entries(*final(cache));
            if exists|i: int| 0 <= i < s.len() && s[i].0 == k {
                exists|i: int|
                    0 <= i < s.len() && s[i].0 == k && t == seq![(k, v)] + s.remove(i)
                        && r == Some((k, s[i].1))
            } else if s.len() == lru_capacity(*old(cache)) {
                t == seq![(k, v)] + s.drop_last() && r == Some(s.last())
            } else {
                t == seq![(k, v)] + s && r == None::<(TileKey, CachedTile)>
            }
        }),
{
    cache.push(k, v)
}

/// `LruCache::contains`: whether an entry has the key; the order of use is
/// left as it is.
#[verifier::external_body]
fn lru_contains(cache: &LruCache<TileKey, CachedTile>, k: &TileKey) -> (r: bool)
    ensures
        r == has_key(lru_entries(*cache), *k),
{
    cache.contains(k)
}

/// `LruCache::peek`, with the value copied out: the value of the entry with
/// the key, if any; the order of use is left as it is.
#[verifier::external_body]
fn lru_peek(cache: &LruCache<TileKey, CachedTile>, k: &TileKey) -> (r: Option<CachedTile>)
    ensures
        r is None <==> !has_key(lru_entries(*cache), *k),
        r matches Some(v) ==> has_entry(lru_entries(*cache), *k, v),
{
    cache.peek(k).copied()
}

/// `LruCache::len`: the number of entries.
#[verifier::external_body]
fn lru_len(cache: &LruCache<TileKey, CachedTile>) -> (r: usize)
    ensures
        r == lru_entries(*cache).len(),
{
    cache.len()
}

/// `LruCache::cap`, as a plain number: the capacity the cache was made with.
#[verifier::external_body]
fn lru_cap(cache: &LruCache<TileKey, CachedTile>) -> (r: usize)
    ensures
        r == lru_capacity(*cache),
{
    cache.cap().get()
}

/// Maximum supported zoom level
pub const MAX_ZOOM: usize = 14;

/// Number of zoom levels the cache keeps apart, `MAX_ZOOM + 1`.
pub const LEVEL_COUNT: usize = 15;

/// The cache key of a tile.
pub open spec fn key_of(tile_id: TileId) -> TileKey {
    (tile_id.x, tile_id.y, tile_id.z)
}

/// Whether some entry of a level has key `k`.
pub open spec fn has_key(s: Seq<(TileKey, CachedTile)>, k: TileKey) -> bool {
    exists|i: int| 0 <= i < s.len() && s[i].0 == k
}

/// Whether some entry of a level is `(k, v)`.
pub open spec fn has_entry(s: Seq<(TileKey, CachedTile)>, k: TileKey, v: CachedTile) -> bool {
    exists|i: int| 0 <= i < s.len() && s[i] == (k, v)
}

/// The position of the entry with key `k` in a level that has one.
pub open spec fn key_index(s: Seq<(TileKey, CachedTile)>, k: TileKey) -> int {
    choose|i: int| 0 <= i < s.len() && s[i].0 == k
}

/// The value stored under `k` in a level, if any.
pub open spec fn lookup(s: Seq<(TileKey, CachedTile)>, k: TileKey) -> Option<CachedTile> {
    if has_key(s, k) {
        Some(s[key_index(s, k)].1)
    } else {
        None
    }
}

/// No two entries of a level share a key.
pub open spec fn keys_distinct(s: Seq<(TileKey, CachedTile)>) -> bool {
    forall|i: int, j: int| 0 <= i < s.len() && 0 <= j < s.len() && i != j ==> s[i].0 != s[j].0
}

/// A level `z` of a cache with capacity `cap`: within capacity, no key twice,
/// and every tile in it is a tile of zoom `z`.
pub open spec fn level_ok(s: Seq<(TileKey, CachedTile)>, z: int, cap: nat) -> bool {
    &&& s.len() <= cap
    &&& keys_distinct(s)
    &&& forall|i: int| 0 <= i < s.len() ==> (#[trigger] s[i]).0.2 == z
}

/// A level after pushing `(k, v)` into it: the entry becomes the most recently
/// used; an entry with the same key leaves; otherwise a full level loses its
/// least recently used entry.
pub open spec fn pushed(s: Seq<(TileKey, CachedTile)>, cap: nat, k: TileKey, v: CachedTile) -> Seq<(TileKey, CachedTile)> {
    if has_key(s, k) {
        seq![(k, v)] + s.remove(key_index(s, k))
    } else if s.len() == cap {
        seq![(k, v)] + s.drop_last()
    } else {
        seq![(k, v)] + s
    }
}

/// The entry that leaves a level when `(k, v)` is pushed into it, if any.
pub open spec fn displaced(s: Seq<(TileKey, CachedTile)>, cap: nat, k: TileKey) -> Option<(TileKey, CachedTile)> {
    if has_key(s, k) {
        Some((k, s[key_index(s, k)].1))
    } else if s.len() == cap {
        Some(s.last())
    } else {
        None
    }
}

/// The sum of the first `n` numbers of `counts`.
pub open spec fn sum_upto(counts: Seq<nat>, n: int) -> nat
    decreases n,
{
    if n <= 0 {
        0
    } else {
        sum_upto(counts, n - 1) + counts[n - 1]
    }
}

proof fn lemma_key_index_unique(s: Seq<(TileKey, CachedTile)>, k: TileKey, i: int)
    requires
        keys_distinct(s),
        0 <= i < s.len(),
        s[i].0 == k,
    ensures
        has_key(s, k),
        key_index(s, k) == i,
{
    assert(has_key(s, k));
}

proof fn lemma_push_keeps_level(s: Seq<(TileKey, CachedTile)>, z: int, cap: nat, k: TileKey, v: CachedTile)
    requires
        level_ok(s, z, cap),
        cap > 0,
        k.2 == z,
    ensures
        level_ok(pushed(s, cap, k, v), z, cap),
{
    let t = pushed(s, cap, k, v);
    if has_key(s, k) {
        let i = key_index(s, k);
        let rest = s.remove(i);
        assert forall|a: int| 0 <= a < rest.len() implies rest[a].0 != k by {
            if a < i {
                assert(rest[a] == s[a]);
            } else {
                assert(rest[a] == s[a + 1]);
            }
        }
        assert forall|a: int, b: int| 0 <= a < t.len() && 0 <= b < t.len() && a != b implies t[a].0 != t[b].0 by {
            if a > 0 && b > 0 {
                let sa = if a - 1 < i { a - 1 } else { a };
                let sb = if b - 1 < i { b - 1 } else { b };
                assert(t[a] == s[sa]);
                assert(t[b] == s[sb]);
            } else if a == 0 {
                assert(t[b] == rest[b - 1]);
            } else {
                assert(t[a] == rest[a - 1]);
            }
        }
        assert forall|a: int| 0 <= a < t.len() implies (#[trigger] t[a]).0.2 == z by {
            if a > 0 {
                let sa = if a - 1 < i { a - 1 } else { a };
                assert(t[a] == s[sa]);
            }
        }
    } else if s.len() == cap {
        let rest = s.drop_last();
        assert forall|a: int, b: int| 0 <= a < t.len() && 0 <= b < t.len() && a != b implies t[a].0 != t[b].0 by {
            if a > 0 && b > 0 {
                assert(t[a] == s[a - 1]);
                assert(t[b] == s[b - 1]);
            } else if a == 0 {
                assert(t[b] == s[b - 1]);
            } else {
                assert(t[a] == s[a - 1]);
            }
        }
        assert forall|a: int| 0 <= a < t.len() implies (#[trigger] t[a]).0.2 == z by {
            if a > 0 {
                assert(t[a] == s[a - 1]);
            }
        }
    } else {
        assert forall|a: int, b: int| 0 <= a < t.len() && 0 <= b < t.len() && a != b implies t[a].0 != t[b].0 by {
            if a > 0 && b > 0 {
                assert(t[a] == s[a - 1]);
                assert(t[b] == s[b - 1]);
            } else if a == 0 {
                assert(t[b] == s[b - 1]);
            } else {
                assert(t[a] == s[a - 1]);
            }
        }
        assert forall|a: int| 0 <= a < t.len() implies (#[trigger] t[a]).0.2 == z by {
            if a > 0 {
                assert(t[a] == s[a - 1]);
            }
        }
    }
}

/// A tile just pushed into a level is found there with the value pushed.
pub proof fn law_read_after_insert(s: Seq<(TileKey, CachedTile)>, z: int, cap: nat, k: TileKey, v: CachedTile)
    requires
        level_ok(s, z, cap),
        cap > 0,
        k.2 == z,
    ensures
        lookup(pushed(s, cap, k, v), k) == Some(v),
{
    let t = pushed(s, cap, k, v);
    lemma_push_keeps_level(s, z, cap, k, v);
    lemma_key_index_unique(t, k, 0);
}

/// Pushing a tile leaves every other tile of the level as it was, except the
/// one that the push displaces, which is gone.
pub proof fn law_insert_keeps_others(s: Seq<(TileKey, CachedTile)>, z: int, cap: nat, k: TileKey, v: CachedTile, other: TileKey)
    requires
        level_ok(s, z, cap),
        cap > 0,
        k.2 == z,
        other != k,
    ensures
        lookup(pushed(s, cap, k, v), other) == if displaced(s, cap, k) matches Some(e) && e.0 == other {
            None
        } else {
            lookup(s, other)
        },
{
    let t = pushed(s, cap, k, v);
    lemma_push_keeps_level(s, z, cap, k, v);
    if has_key(s, k) {
        let i = key_index(s, k);
        let rest = s.remove(i);
        if has_key(s, other) {
            let j = key_index(s, other);
            assert(j != i);
            let tj = if j < i { j + 1 } else { j };
            assert(t[tj] == s[j]);
            lemma_key_index_unique(t, other, tj);
        } else {
            if has_key(t, other) {
                let tj = key_index(t, other);
                assert(tj > 0);
                let sj = if tj - 1 < i { tj - 1 } else { tj };
                assert(t[tj] == s[sj]);
            }
        }
    } else if s.len() == cap {
        let last = s.len() - 1;
        if has_key(s, other) {
            let j = key_index(s, other);
            if j == last {
                if has_key(t, other) {
                    let tj = key_index(t, other);
                    assert(tj > 0);
                    assert(t[tj] == s[tj - 1]);
                    assert(tj - 1 != last);
                }
            } else {
                assert(t[j + 1] == s[j]);
                lemma_key_index_unique(t, other, j + 1);
            }
        } else {
            if has_key(t, other) {
                let tj = key_index(t, other);
                assert(tj > 0);
                assert(t[tj] == s[tj - 1]);
            }
        }
    } else {
        if has_key(s, other) {
            let j = key_index(s, other);
            assert(t[j + 1] == s[j]);
            lemma_key_index_unique(t, other, j + 1);
        } else {
            if has_key(t, other) {
                let tj = key_index(t, other);
                assert(tj > 0);
                assert(t[tj] == s[tj - 1]);
            }
        }
    }
}

/// Pushing a new tile into a full level evicts the least recently used tile
/// of that level, and the level stays full.
pub proof fn law_full_level_evicts_lru(s: Seq<(TileKey, CachedTile)>, z: int, cap: nat, k: TileKey, v: CachedTile)
    requires
        level_ok(s, z, cap),
        cap > 0,
        k.2 == z,
        s.len() == cap,
        !has_key(s, k),
    ensures
        displaced(s, cap, k) == Some(s.last()),
        !has_key(pushed(s, cap, k, v), s.last().0),
        pushed(s, cap, k, v).len() == cap,
{
    let t = pushed(s, cap, k, v);
    if has_key(t, s.last().0) {
        let j = key_index(t, s.last().0);
        assert(j > 0);
        assert(t[j] == s[j - 1]);
        assert(s[j - 1].0 == s[s.len() - 1].0);
    }
}

/// LRU cache for map tiles, separated by zoom level
pub struct TileCache {
    /// Per-zoom-level caches
    levels: [LruCache<TileKey, CachedTile>; 15],
}

/// Cache statistics for debugging/UI
#[derive(Debug, Clone, Copy)]
pub struct CacheStats {
    pub tile_count: usize,
    /// Never zero.
    pub max_tiles: usize,
}

/// Statistics for a single zoom level
#[derive(Debug, Clone, Copy)]
pub struct ZoomLevelStats {
    pub zoom: u8,
    pub tile_count: usize,
    /// Never zero.
    pub max_tiles: usize,
}

impl TileCache {
    /// The entries of level `z`, most recently used first.
    pub closed spec fn level(self, z: int) -> Seq<(TileKey, CachedTile)> {
        lru_entries(self.levels[z])
    }

    /// The number of tiles each level holds at most.
    pub closed spec fn capacity(self) -> nat {
        lru_capacity(self.levels[0])
    }

    /// The number of tiles in each level.
    pub open spec fn counts(self) -> Seq<nat> {
        Seq::new(LEVEL_COUNT as nat, |z: int| self.level(z).len())
    }

    /// The value cached for a tile, if any.
    pub open spec fn get_spec(self, tile_id: TileId) -> Option<CachedTile> {
        if tile_id.z <= MAX_ZOOM {
            lookup(self.level(tile_id.z as int), key_of(tile_id))
        } else {
            None
        }
    }

    pub closed spec fn wf(self) -> bool {
        &&& self.capacity() > 0
        &&& forall|z: int| 0 <= z < LEVEL_COUNT ==> lru_capacity(#[trigger] self.levels[z]) == self.capacity()
        &&& forall|z: int| 0 <= z < LEVEL_COUNT ==> level_ok(#[trigger] self.level(z), z, self.capacity())
    }

    /// What every cache keeps: capacity above zero, each level within it,
    /// no key twice in a level, and each tile in the level of its zoom.
    pub proof fn lemma_wf(self)
        requires
            self.wf(),
        ensures
            self.capacity() > 0,
            forall|z: int| 0 <= z < LEVEL_COUNT ==> level_ok(#[trigger] self.level(z), z, self.capacity()),
    {
    }

    /// Create a new tile cache holding at most `tiles_per_level` tiles in each
    /// zoom level.
    pub fn new(tiles_per_level: usize) -> (r: Self)
        requires
            tiles_per_level > 0,
        ensures
            r.wf(),
            r.capacity() == tiles_per_level,
            forall|z: int| 0 <= z < LEVEL_COUNT ==> #[trigger] r.level(z) == Seq::<(TileKey, CachedTile)>::empty(),
    {
        let levels = [
            lru_new(tiles_per_level), lru_new(tiles_per_level), lru_new(tiles_per_level),
            lru_new(tiles_per_level), lru_new(tiles_per_level), lru_new(tiles_per_level),
            lru_new(tiles_per_level), lru_new(tiles_per_level), lru_new(tiles_per_level),
            lru_new(tiles_per_level), lru_new(tiles_per_level), lru_new(tiles_per_level),
            lru_new(tiles_per_level), lru_new(tiles_per_level), lru_new(tiles_per_level),
        ];
        let r = TileCache { levels };
        assert(forall|z: int| 0 <= z < LEVEL_COUNT ==> lru_capacity(#[trigger] r.levels[z]) == tiles_per_level);
        r
    }

    /// Check if tile exists in cache
    pub fn contains(&self, tile_id: &TileId) -> (r: bool)
        requires
            self.wf(),
        ensures
            r == (self.get_spec(*tile_id) is Some),
    {
        let z = tile_id.z as usize;
        if z < LEVEL_COUNT {
            let k = (tile_id.x, tile_id.y, tile_id.z);
            lru_contains(&self.levels[z], &k)
        } else {
            false
        }
    }

    /// Get a tile without updating access order (for read-only checks)
    pub fn peek(&self, tile_id: &TileId) -> (r: Option<CachedTile>)
        requires
            self.wf(),
        ensures
            r == self.get_spec(*tile_id),
    {
        let z = tile_id.z as usize;
        if z < LEVEL_COUNT {
            let k = (tile_id.x, tile_id.y, tile_id.z);
            let r = lru_peek(&self.levels[z], &k);
            proof {
                let s = self.level(z as int);
                assert(level_ok(s, z as int, self.capacity()));
                if let Some(v) = r {
                    let i = choose|i: int| 0 <= i < s.len() && s[i] == (k, v);
                    lemma_key_index_unique(s, k, i);
                }
            }
            r
        } else {
            None
        }
    }

    /// Insert a new tile into cache, evicting the least recently used tile of
    /// its level if that level is full. The tile that leaves the cache, if any
    /// (the one replaced under the same id, or the one evicted), is handed
    /// back so that its resources can be released. A tile of an unsupported
    /// zoom level is not cached.
    pub fn insert(&mut self, tile_id: TileId, tile: CachedTile) -> (r: Option<(TileId, CachedTile)>)
        requires
            old(self).wf(),
        ensures
            final(self).wf(),
            final(self).capacity() == old(self).capacity(),
            tile_id.z > MAX_ZOOM ==> *final(self) == *old(self) && r is None,
            tile_id.z <= MAX_ZOOM ==> {
                let s = old(self).level(tile_id.z as int);
                &&& final(self).level(tile_id.z as int) == pushed(s, old(self).capacity(), key_of(tile_id), tile)
                &&& final(self).get_spec(tile_id) == Some(tile)
                &&& r == match displaced(s, old(self).capacity(), key_of(tile_id)) {
                    Some(e) => Some((TileId { x: e.0.0, y: e.0.1, z: e.0.2 }, e.1)),
                    None => None::<(TileId, CachedTile)>,
                }
            },
            forall|z: int| 0 <= z < LEVEL_COUNT && z != tile_id.z ==> #[trigger] final(self).level(z) == old(self).level(z),
    {
        let z = tile_id.z as usize;
        if z >= LEVEL_COUNT {
            return None;
        }
        let ghost s = self.level(z as int);
        let ghost cap = self.capacity();
        let k = (tile_id.x, tile_id.y, tile_id.z);
        let out = lru_push(&mut self.levels[z], k, tile);
        proof {
            let t = self.level(z as int);
            assert(level_ok(s, z as int, cap));
            if has_key(s, k) {
                let i = choose|i: int| 0 <= i < s.len() && s[i].0 == k && t == seq![(k, tile)] + s.remove(i)
                    && out == Some((k, s[i].1));
                lemma_key_index_unique(s, k, i);
            }
            assert(t == pushed(s, cap, k, tile));
            lemma_push_keeps_level(s, z as int, cap, k, tile);
            law_read_after_insert(s, z as int, cap, k, tile);
            assert forall|w: int| 0 <= w < LEVEL_COUNT implies lru_capacity(#[trigger] self.levels[w]) == cap
                && level_ok(self.level(w), w, cap) by {
                if w != z {
                    assert(self.levels[w] == old(self).levels[w]);
                    assert(level_ok(old(self).level(w), w, cap));
                }
            }
            assert(self.capacity() == cap);
        }
        match out {
            Some((key, value)) => Some((TileId { x: key.0, y: key.1, z: key.2 }, value)),
            None => None,
        }
    }

    /// Get cache statistics
    pub fn stats(&self) -> (r: CacheStats)
        requires
            self.wf(),
            LEVEL_COUNT * self.capacity() <= usize::MAX,
        ensures
            r.tile_count == sum_upto(self.counts(), LEVEL_COUNT as int),
            r.max_tiles == LEVEL_COUNT * self.capacity(),
            r.tile_count <= r.max_tiles,
    {
        let mut tile_count: usize = 0;
        let mut max_tiles: usize = 0;
        let mut z: usize = 0;
        while z < LEVEL_COUNT
            invariant
                self.wf(),
                LEVEL_COUNT * self.capacity() <= usize::MAX,
                z <= LEVEL_COUNT,
                tile_count == sum_upto(self.counts(), z as int),
                tile_count <= z * self.capacity(),
                max_tiles == z * self.capacity(),
            decreases LEVEL_COUNT - z,
        {
            proof {
                assert(level_ok(self.level(z as int), z as int, self.capacity()));
                assert(self.counts()[z as int] == self.level(z as int).len());
                assert((z + 1) * self.capacity() == z * self.capacity() + self.capacity()) by (nonlinear_arith);
                assert((z + 1) * self.capacity() <= LEVEL_COUNT * self.capacity()) by (nonlinear_arith)
                    requires z + 1 <= LEVEL_COUNT;
            }
            tile_count = tile_count + lru_len(&self.levels[z]);
            max_tiles = max_tiles + lru_cap(&self.levels[z]);
            z = z + 1;
        }
        CacheStats { tile_count, max_tiles }
    }

    /// Get statistics for a specific zoom level
    pub fn level_stats(&self, z: u8) -> (r: Option<ZoomLevelStats>)
        requires
            self.wf(),
        ensures
            z > MAX_ZOOM ==> r is None,
            z <= MAX_ZOOM ==> r == Some(ZoomLevelStats {
                zoom: z,
                tile_count: self.level(z as int).len() as usize,
                max_tiles: self.capacity() as usize,
            }),
    {
        let i = z as usize;
        if i < LEVEL_COUNT {
            Some(ZoomLevelStats { zoom: z, tile_count: lru_len(&self.levels[i]), max_tiles: lru_cap(&self.levels[i]) })
        } else {
            None
        }
    }

    /// The number of tiles in each zoom level.
    pub fn tile_counts(&self) -> (r: [usize; 15])
        requires
            self.wf(),
        ensures
            forall|z: int| 0 <= z < LEVEL_COUNT ==> r[z] == self.level(z).len(),
    {
        let mut counts = [0usize; 15];
        let mut z: usize = 0;
        while z < LEVEL_COUNT
            invariant
                z <= LEVEL_COUNT,
                forall|a: int| 0 <= a < z ==> counts[a] == self.level(a).len(),
            decreases LEVEL_COUNT - z,
        {
            counts[z] = lru_len(&self.levels[z]);
            z = z + 1;
        }
        counts
    }
}

} // verus!
