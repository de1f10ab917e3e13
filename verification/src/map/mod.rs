//! Map tiles: their grid, their cache, the tiles a camera sees, and which
//! tiles a frame loads and draws.

pub mod cache;
pub mod camera;
pub mod loader;
pub mod tile;

use vstd::prelude::*;
use crate::map::cache::TileCache;
use crate::map::loader::TileLoader;
use crate::map::tile::TileId;

verus! {

/// A visible tile is loaded when it is neither cached nor already loading.
pub open spec fn needs_load(cache: TileCache, loader: TileLoader, t: TileId) -> bool {
    cache.get_spec(t) is None && !loader.pending_tiles().contains(t)
}

/// The tiles a frame asks the loader for: the visible tiles that need
/// loading, in the order they are visible, each once.
pub open spec fn load_plan(cache: TileCache, loader: TileLoader, visible: Seq<TileId>) -> Seq<TileId>
    decreases visible.len(),
{
    if visible.len() == 0 {
        Seq::empty()
    } else {
        let plan = load_plan(cache, loader, visible.drop_last());
        let t = visible.last();
        if needs_load(cache, loader, t) && !plan.contains(t) {
            plan.push(t)
        } else {
            plan
        }
    }
}

/// The visible tiles that are cached, in the order they are visible.
pub open spec fn cached_only(cache: TileCache, visible: Seq<TileId>) -> Seq<TileId>
    decreases visible.len(),
{
    if visible.len() == 0 {
        Seq::empty()
    } else {
        let rest = cached_only(cache, visible.drop_last());
        if cache.get_spec(visible.last()) is Some {
            rest.push(visible.last())
        } else {
            rest
        }
    }
}

/// Appending `t` to `p` gives a sequence that holds exactly what `p` holds
/// and `t`.
proof fn lemma_push_contains(p: Seq<TileId>, t: TileId, u: TileId)
    ensures
        p.push(t).contains(u) <==> p.contains(u) || u == t,
{
    let q = p.push(t);
    if p.contains(u) {
        let k = choose|k: int| 0 <= k < p.len() && p[k] == u;
        assert(q[k] == u);
    }
    if u == t {
        assert(q[p.len() as int] == u);
    }
    if q.contains(u) {
        let k = choose|k: int| 0 <= k < q.len() && q[k] == u;
        if k < p.len() {
            assert(p[k] == u);
        }
    }
}

/// A sequence holds `u` exactly when its prefix without the last element
/// holds `u` or its last element is `u`.
proof fn lemma_drop_last_contains(v: Seq<TileId>, u: TileId)
    requires
        v.len() > 0,
    ensures
        v.contains(u) <==> v.drop_last().contains(u) || v.last() == u,
{
    assert(v =~= v.drop_last().push(v.last()));
    lemma_push_contains(v.drop_last(), v.last(), u);
}

/// A frame asks for each tile at most once, asks only for visible tiles that
/// are neither cached nor loading, and asks for every such tile.
#[verifier::spinoff_prover]
pub proof fn law_load_plan(cache: TileCache, loader: TileLoader, visible: Seq<TileId>)
    ensures
        load_plan(cache, loader, visible).no_duplicates(),
        forall|t: TileId| #[trigger] load_plan(cache, loader, visible).contains(t)
            ==> visible.contains(t) && needs_load(cache, loader, t),
        forall|t: TileId| visible.contains(t) && needs_load(cache, loader, t)
            ==> #[trigger] load_plan(cache, loader, visible).contains(t),
    decreases visible.len(),
{
    if visible.len() > 0 {
        let rest = visible.drop_last();
        let last = visible.last();
        law_load_plan(cache, loader, rest);
        let p = load_plan(cache, loader, rest);
        let q = load_plan(cache, loader, visible);
        let added = needs_load(cache, loader, last) && !p.contains(last);
        assert(q == if added { p.push(last) } else { p });
        if added {
            assert forall|a: int, b: int| 0 <= a < q.len() && 0 <= b < q.len() && a != b implies q[a] != q[b] by {
                if a < p.len() && b < p.len() {
                    assert(q[a] == p[a] && q[b] == p[b]);
                } else if a < p.len() {
                    assert(q[a] == p[a] && q[b] == last);
                } else {
                    assert(q[b] == p[b] && q[a] == last);
                }
            }
        }
        assert forall|t: TileId| #[trigger] q.contains(t) implies visible.contains(t) && needs_load(cache, loader, t) by {
            lemma_drop_last_contains(visible, t);
            if added {
                lemma_push_contains(p, last, t);
            }
        }
        assert forall|t: TileId| visible.contains(t) && needs_load(cache, loader, t) implies #[trigger] q.contains(t) by {
            lemma_drop_last_contains(visible, t);
            if added {
                lemma_push_contains(p, last, t);
            }
        }
    }
}

/// A frame draws exactly the visible tiles that are cached, in order.
#[verifier::spinoff_prover]
pub proof fn law_render_list(cache: TileCache, visible: Seq<TileId>)
    ensures
        forall|t: TileId| #[trigger] cached_only(cache, visible).contains(t)
            <==> visible.contains(t) && cache.get_spec(t) is Some,
        cached_only(cache, visible).len() <= visible.len(),
    decreases visible.len(),
{
    if visible.len() > 0 {
        let rest = visible.drop_last();
        let last = visible.last();
        law_render_list(cache, rest);
        let p = cached_only(cache, rest);
        let q = cached_only(cache, visible);
        let shown = cache.get_spec(last) is Some;
        assert(q == if shown { p.push(last) } else { p });
        assert forall|t: TileId| #[trigger] q.contains(t) <==> visible.contains(t) && cache.get_spec(t) is Some by {
            lemma_drop_last_contains(visible, t);
            if shown {
                lemma_push_contains(p, last, t);
            }
        }
    }
}

fn contains_tile(tiles: &Vec<TileId>, t: &TileId) -> (r: bool)
    ensures
        r == tiles@.contains(*t),
{
    let mut i: usize = 0;
    while i < tiles.len()
        invariant
            i <= tiles@.len(),
            forall|j: int| 0 <= j < i ==> tiles@[j] != *t,
        decreases tiles@.len() - i,
    {
        if tiles[i] == *t {
            return true;
        }
        i = i + 1;
    }
    false
}

/// The tiles to request this frame: the visible tiles that are neither cached
/// nor loading, in order of visibility and without repeats.
pub fn tiles_to_request(cache: &TileCache, loader: &TileLoader, visible: &Vec<TileId>) -> (r: Vec<TileId>)
    requires
        cache.wf(),
    ensures
        r@ == load_plan(*cache, *loader, visible@),
{
    let mut plan: Vec<TileId> = Vec::new();
    let mut i: usize = 0;
    while i < visible.len()
        invariant
            cache.wf(),
            i <= visible@.len(),
            plan@ == load_plan(*cache, *loader, visible@.take(i as int)),
        decreases visible@.len() - i,
    {
        let t = visible[i];
        assert(visible@.take(i + 1).drop_last() =~= visible@.take(i as int));
        if !cache.contains(&t) && !loader.is_loading(&t) && !contains_tile(&plan, &t) {
            plan.push(t);
        }
        i = i + 1;
    }
    assert(visible@.take(visible@.len() as int) =~= visible@);
    plan
}

/// The visible tiles that are cached, which are the ones drawn this frame.
pub fn tiles_to_render(cache: &TileCache, visible: &Vec<TileId>) -> (r: Vec<TileId>)
    requires
        cache.wf(),
    ensures
        r@ == cached_only(*cache, visible@),
{
    let mut shown: Vec<TileId> = Vec::new();
    let mut i: usize = 0;
    while i < visible.len()
        invariant
            cache.wf(),
            i <= visible@.len(),
            shown@ == cached_only(*cache, visible@.take(i as int)),
        decreases visible@.len() - i,
    {
        let t = visible[i];
        assert(visible@.take(i + 1).drop_last() =~= visible@.take(i as int));
        if cache.contains(&t) {
            shown.push(t);
        }
        i = i + 1;
    }
    assert(visible@.take(visible@.len() as int) =~= visible@);
    shown
}

} // verus!
