//! The bookkeeping of the tile loader: which tiles have been asked for and
//! are not back yet. Fetching runs elsewhere: the loader hands out the
//! request to send, is told which requests were sent, and is handed back what
//! came in.

use vstd::prelude::*;
use crate::map::tile::{TileId, osm_url};
use crate::codec::{RgbaImage, ImageErrorKind, decoded_rgba8, decoded_as, failed_with, load_rgba8};

verus! {

broadcast use vstd::string::group_string_axioms;

/// Result of a tile load operation
#[derive(Debug)]
pub enum TileLoadResult {
    Success(TileId, Vec<u8>),
    Failed(TileId, String),
}

impl TileLoadResult {
    /// The tile the result is for.
    pub open spec fn tile(&self) -> TileId {
        match self {
            TileLoadResult::Success(id, _) => *id,
            TileLoadResult::Failed(id, _) => *id,
        }
    }

    /// The tile the result is for.
    pub fn tile_id(&self) -> (r: TileId)
        ensures
            r == self.tile(),
    {
        match self {
            TileLoadResult::Success(id, _) => *id,
            TileLoadResult::Failed(id, _) => *id,
        }
    }
}

/// Tile loading request
#[derive(Debug)]
pub struct TileRequest {
    pub tile_id: TileId,
    pub url: String,
}

/// Tile loader state: the tiles being loaded, and the user agent that the
/// fetches announce. The pending tiles are kept in a vector without repeats;
/// a `HashSet` of tile ids has no specification to reason with.
pub struct TileLoader {
    pending: Vec<TileId>,
    user_agent: String,
}

impl TileLoader {
    /// The tiles asked for and not back yet.
    pub closed spec fn pending_tiles(&self) -> Set<TileId> {
        self.pending@.to_set()
    }

    /// The user agent the fetches announce.
    pub closed spec fn agent(&self) -> Seq<char> {
        self.user_agent@
    }

    pub closed spec fn wf(&self) -> bool {
        self.pending@.no_duplicates()
    }

    /// The pending tiles of a loader are finitely many.
    pub proof fn lemma_pending_finite(&self)
        ensures
            self.pending_tiles().finite(),
    {
        vstd::seq_lib::seq_to_set_is_finite(self.pending@);
    }

    /// Create a new tile loader
    pub fn new(user_agent: &str) -> (r: Self)
        ensures
            r.wf(),
            r.pending_tiles() == Set::<TileId>::empty(),
            r.pending_tiles().finite(),
            r.agent() == user_agent@,
    {
        let r = TileLoader { pending: Vec::new(), user_agent: user_agent.to_string() };
        assert(r.pending@.to_set() =~= Set::<TileId>::empty());
        r
    }

    /// The user agent the fetches announce.
    pub fn user_agent(&self) -> (r: &str)
        ensures
            r@ == self.agent(),
    {
        self.user_agent.as_str()
    }

    /// Where `tile_id` stands in the pending list, if it is there.
    fn position(&self, tile_id: &TileId) -> (r: Option<usize>)
        ensures
            r is None <==> !self.pending@.contains(*tile_id),
            r matches Some(i) ==> i < self.pending@.len() && self.pending@[i as int] == *tile_id,
    {
        let mut i: usize = 0;
        while i < self.pending.len()
            invariant
                i <= self.pending@.len(),
                forall|j: int| 0 <= j < i ==> self.pending@[j] != *tile_id,
            decreases self.pending@.len() - i,
        {
            if self.pending[i] == *tile_id {
                return Some(i);
            }
            i = i + 1;
        }
        None
    }

    /// The request to send for a tile, unless the tile is already being
    /// loaded. Nothing is recorded until `mark_pending` is told that the
    /// request went out.
    pub fn request(&self, tile_id: TileId) -> (r: Option<TileRequest>)
        ensures
            r is None <==> self.pending_tiles().contains(tile_id),
            r matches Some(q) ==> q.tile_id == tile_id && q.url@ == osm_url(tile_id),
    {
        if self.position(&tile_id).is_some() {
            return None;  // Already loading
        }
        let url = tile_id.to_osm_url();
        Some(TileRequest { tile_id, url })
    }

    /// Record that the request for `tile_id` was sent.
    pub fn mark_pending(&mut self, tile_id: TileId)
        requires
            old(self).wf(),
        ensures
            final(self).wf(),
            final(self).pending_tiles() == old(self).pending_tiles().insert(tile_id),
            final(self).pending_tiles().finite(),
            !old(self).pending_tiles().contains(tile_id)
                ==> final(self).pending_tiles().len() == old(self).pending_tiles().len() + 1,
            final(self).agent() == old(self).agent(),
    {
        if self.position(&tile_id).is_none() {
            self.pending.push(tile_id);
            assert(self.pending@ == old(self).pending@.push(tile_id));
            assert forall|x: TileId| #[trigger] self.pending@.contains(x) <==> old(self).pending@.contains(x) || x == tile_id by {
                if self.pending@.contains(x) && x != tile_id {
                    let j = choose|j: int| 0 <= j < self.pending@.len() && self.pending@[j] == x;
                    assert(old(self).pending@[j] == x);
                }
                if old(self).pending@.contains(x) {
                    let j = choose|j: int| 0 <= j < old(self).pending@.len() && old(self).pending@[j] == x;
                    assert(self.pending@[j] == x);
                }
                if x == tile_id {
                    assert(self.pending@[self.pending@.len() - 1] == x);
                }
            }
            assert(self.pending@.to_set() =~= old(self).pending@.to_set().insert(tile_id));
        } else {
            assert(old(self).pending@.to_set().contains(tile_id));
            assert(self.pending@.to_set() =~= old(self).pending@.to_set().insert(tile_id));
        }
    }

    /// Take in what the fetch channel yielded this time: a finished load of a
    /// pending tile is no longer pending, and is handed on; the result of a
    /// tile that is not pending (its request was cancelled) is ignored.
    pub fn poll(&mut self, received: Option<TileLoadResult>) -> (r: Option<TileLoadResult>)
        requires
            old(self).wf(),
        ensures
            final(self).wf(),
            final(self).pending_tiles().finite(),
            r == match received {
                Some(res) => if old(self).pending_tiles().contains(res.tile()) {
                    Some(res)
                } else {
                    None
                },
                None => None,
            },
            final(self).pending_tiles() == match received {
                Some(res) => old(self).pending_tiles().remove(res.tile()),
                None => old(self).pending_tiles(),
            },
            final(self).agent() == old(self).agent(),
    {
        match received {
            Some(result) => {
                let id = result.tile_id();
                match self.position(&id) {
                    Some(i) => {
                        let ghost before = self.pending@;
                        self.pending.remove(i);
                        proof {
                            assert forall|x: TileId| #[trigger] self.pending@.contains(x) <==> before.contains(x) && x != id by {
                                if self.pending@.contains(x) {
                                    let j = choose|j: int| 0 <= j < self.pending@.len() && self.pending@[j] == x;
                                    if j < i {
                                        assert(before[j] == x);
                                    } else {
                                        assert(before[j + 1] == x);
                                    }
                                }
                                if before.contains(x) && x != id {
                                    let j = choose|j: int| 0 <= j < before.len() && before[j] == x;
                                    if j < i {
                                        assert(self.pending@[j] == x);
                                    } else {
                                        assert(self.pending@[j - 1] == x);
                                    }
                                }
                            }
                            assert(self.pending@.to_set() =~= before.to_set().remove(id));
                            assert forall|a: int, b: int| 0 <= a < self.pending@.len() && 0 <= b < self.pending@.len() && a != b
                                implies self.pending@[a] != self.pending@[b] by {
                                let sa = if a < i { a } else { a + 1 };
                                let sb = if b < i { b } else { b + 1 };
                                assert(self.pending@[a] == before[sa]);
                                assert(self.pending@[b] == before[sb]);
                            }
                        }
                    },
                    None => {
                        assert(self.pending@.to_set() =~= old(self).pending@.to_set().remove(id));
                        return None;
                    },
                }
                Some(result)
            },
            None => None,
        }
    }

    /// Check if a tile is currently being loaded
    pub fn is_loading(&self, tile_id: &TileId) -> (r: bool)
        ensures
            r == self.pending_tiles().contains(*tile_id),
    {
        self.position(tile_id).is_some()
    }

    /// Get number of pending requests
    pub fn pending_count(&self) -> (r: usize)
        requires
            self.wf(),
        ensures
            r == self.pending_tiles().len(),
    {
        proof {
            self.pending@.unique_seq_to_set();
        }
        self.pending.len()
    }

    /// Cancel all pending requests (tiles will still complete but be ignored:
    /// `poll` drops the results of tiles that are not pending)
    pub fn clear_pending(&mut self)
        ensures
            final(self).wf(),
            final(self).pending_tiles().finite(),
            final(self).pending_tiles() == Set::<TileId>::empty(),
            final(self).agent() == old(self).agent(),
    {
        self.pending.clear();
        assert(self.pending@.to_set() =~= Set::<TileId>::empty());
    }
}

impl Default for TileLoader {
    fn default() -> (r: Self)
        ensures
            r.wf(),
            r.pending_tiles() == Set::<TileId>::empty(),
            r.agent() == "CPlace/0.1 (https://github.com/antegral/cplace)"@,
    {
        Self::new("CPlace/0.1 (https://github.com/antegral/cplace)")
    }
}

/// Once the request for a tile that was not pending is marked sent,
/// `request` refuses the tile and `pending_count` has grown by one; once the
/// result for it has been polled, the loader is pending on what it was
/// before, and `request` hands out the tile's request again.
pub proof fn law_request_lifecycle(before: TileLoader, marked: TileLoader, polled: TileLoader, result: TileLoadResult)
    requires
        !before.pending_tiles().contains(result.tile()),
        marked.pending_tiles() == before.pending_tiles().insert(result.tile()),
        polled.pending_tiles() == marked.pending_tiles().remove(result.tile()),
    ensures
        marked.pending_tiles().contains(result.tile()),
        marked.pending_tiles().len() == before.pending_tiles().len() + 1,
        !polled.pending_tiles().contains(result.tile()),
        polled.pending_tiles() == before.pending_tiles(),
{
    before.lemma_pending_finite();
    assert(polled.pending_tiles() =~= before.pending_tiles());
}

/// Decode a tile image of any supported format into RGBA8 pixels, or give
/// the kind of error decoding fails with.
pub fn decode_tile_image(data: &[u8]) -> (r: Result<RgbaImage, ImageErrorKind>)
    ensures
        r is Ok <==> decoded_rgba8(data@) is Ok,
        r matches Ok(img) ==> decoded_rgba8(data@) == decoded_as(img),
        r matches Ok(img) ==> img.pixels@.len() == img.width * img.height * 4,
        r matches Err(kind) ==> decoded_rgba8(data@) == failed_with(kind),
{
    load_rgba8(data)
}

/// Calculate memory size for a tile texture: four bytes (RGBA8) per pixel.
pub fn tile_memory_size(width: u32, height: u32) -> (r: usize)
    requires
        width * height * 4 <= u32::MAX,
    ensures
        r == width * height * 4,
{
    proof {
        assert(width * height <= width * height * 4) by (nonlinear_arith);
    }
    (width * height * 4) as usize
}

} // verus!
