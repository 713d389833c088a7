//! The query engine: conjunctive filters over the catalogue, a sort order,
//! and a small bounded first-in-first-out result cache.
#![allow(non_camel_case_types)]
use vstd::prelude::*;

use crate::photos_handler::photo_item::{photo_views, PhotoItem, PhotoModel, PermissionType};
use crate::photos_handler::photo_results::PhotoResults;

verus! {

#[derive(Clone, Copy, Debug, PartialEq, Eq, Structural)]
pub enum QueryType {
    All,
    Year,
    Location,
}

#[derive(Clone, Copy, Debug, PartialEq, Eq, Structural)]
pub enum SortOrderType {
    OldestFirst,
    YoungestFirst,
}

/// Which indices of a result set a query wants built up front; bit-valued.
#[derive(Clone, Copy, Debug, PartialEq, Eq, Structural)]
pub enum AccessorBuildFlags {
    BUILD_DATE_ACCESSOR,
    BUILD_LOCATION_ACCESSOR,
}

impl AccessorBuildFlags {
    pub open spec fn spec_bit(self) -> u32 {
        match self {
            AccessorBuildFlags::BUILD_DATE_ACCESSOR => 1,
            AccessorBuildFlags::BUILD_LOCATION_ACCESSOR => 2,
        }
    }

    pub fn bit(self) -> (r: u32)
        ensures
            r == self.spec_bit(),
    {
        match self {
            AccessorBuildFlags::BUILD_DATE_ACCESSOR => 1,
            AccessorBuildFlags::BUILD_LOCATION_ACCESSOR => 2,
        }
    }
}

/// What one query asks for; the cache key. `min_rating` is held for
/// compatibility and not consulted by the filter.
#[derive(Clone, Copy, Debug, PartialEq, Eq, Structural)]
pub struct QueryParams {
    pub query_type: QueryType,
    pub sort_order_type: SortOrderType,
    pub source_types: u32,
    pub item_types: u32,
    pub permission_type: PermissionType,
    pub min_rating: u32,
}

/// The source-type mask selecting SLR and drone photos as asked.
pub open spec fn spec_make_source_type(want_slr: bool, want_drone: bool) -> u32 {
    if want_slr && want_drone {
        9
    } else if want_slr {
        1
    } else if want_drone {
        8
    } else {
        0
    }
}

impl QueryParams {
    pub fn new() -> (r: QueryParams)
        ensures
            r.query_type == QueryType::All,
            r.sort_order_type == SortOrderType::OldestFirst,
            r.source_types == 0u32,
            r.item_types == 0u32,
            r.permission_type == PermissionType::Public,
            r.min_rating == 0u32,
    {
        QueryParams {
            query_type: QueryType::All,
            sort_order_type: SortOrderType::OldestFirst,
            source_types: 0,
            item_types: 0,
            permission_type: PermissionType::Public,
            min_rating: 0,
        }
    }

    pub fn make_source_type(want_slr: bool, want_drone: bool) -> (r: u32)
        ensures
            r == spec_make_source_type(want_slr, want_drone),
    {
        if want_slr && want_drone {
            9
        } else if want_slr {
            1
        } else if want_drone {
            8
        } else {
            0
        }
    }
}

/// The permission gate: a public photo always passes, any other photo passes
/// only for a caller cleared at or above its level.
pub open spec fn spec_matches_permissions(permission: PermissionType, p: PhotoModel) -> bool {
    p.permission_type == PermissionType::Public || p.permission_type.spec_level()
        <= permission.spec_level()
}

pub fn matches_permissions(permission: PermissionType, item: &PhotoItem) -> (r: bool)
    ensures
        r == spec_matches_permissions(permission, item@),
{
    if item.permission_type == PermissionType::Public {
        return true;
    }
    if item.permission_type.level() > permission.level() {
        return false;
    }
    true
}

/// The conjunctive filter of one query: each nonzero mask must cover the
/// photo's bit, and the permission gate must pass.
pub open spec fn spec_photo_matches(p: PhotoModel, q: QueryParams) -> bool {
    &&& (q.source_types > 0 ==> q.source_types & p.source_type.spec_bit() != 0)
    &&& (q.item_types > 0 ==> q.item_types & p.item_type.spec_bit() != 0)
    &&& spec_matches_permissions(q.permission_type, p)
}

/// The photos a query returns: the filtered catalogue, oldest-first as the
/// catalogue orders them, or reversed for YoungestFirst.
pub open spec fn spec_query_results(photos: Seq<PhotoModel>, q: QueryParams) -> Seq<PhotoModel> {
    let f = photos.filter(|p: PhotoModel| spec_photo_matches(p, q));
    if q.sort_order_type == SortOrderType::YoungestFirst {
        f.reverse()
    } else {
        f
    }
}

pub proof fn lemma_query_filter_snoc(s: Seq<PhotoModel>, p: PhotoModel, q: QueryParams)
    ensures
        s.push(p).filter(|x: PhotoModel| spec_photo_matches(x, q)) == (if spec_photo_matches(p, q) {
            s.filter(|x: PhotoModel| spec_photo_matches(x, q)).push(p)
        } else {
            s.filter(|x: PhotoModel| spec_photo_matches(x, q))
        }),
{
    let pred = |x: PhotoModel| spec_photo_matches(x, q);
    assert(s.push(p).drop_last() =~= s);
    assert(s.push(p).last() == p);
    assert(s.push(p).filter(pred) == if pred(p) {
        s.filter(pred).push(p)
    } else {
        s.filter(pred)
    }) by {
        reveal_with_fuel(Seq::filter, 2);
    }
}

/// With no masks and public clearance, a query keeps exactly the public
/// photos, in catalogue order.
pub proof fn lemma_public_query_keeps_public(photos: Seq<PhotoModel>, q: QueryParams)
    requires
        q.source_types == 0,
        q.item_types == 0,
        q.permission_type == PermissionType::Public,
    ensures
        photos.filter(|p: PhotoModel| spec_photo_matches(p, q)) == photos.filter(
            |p: PhotoModel| p.permission_type == PermissionType::Public,
        ),
        q.sort_order_type == SortOrderType::OldestFirst ==> spec_query_results(photos, q)
            == photos.filter(|p: PhotoModel| p.permission_type == PermissionType::Public),
        q.sort_order_type == SortOrderType::YoungestFirst ==> spec_query_results(photos, q)
            == photos.filter(
            |p: PhotoModel| p.permission_type == PermissionType::Public,
        ).reverse(),
    decreases photos.len(),
{
    let predq = |p: PhotoModel| spec_photo_matches(p, q);
    let predp = |p: PhotoModel| p.permission_type == PermissionType::Public;
    if photos.len() == 0 {
        assert(photos.filter(predq) =~= photos.filter(predp));
    } else {
        let dl = photos.drop_last();
        let p = photos.last();
        lemma_public_query_keeps_public(dl, q);
        assert(predq(p) == predp(p)) by {
            if p.permission_type != PermissionType::Public {
                assert(p.permission_type.spec_level() > 0);
            }
        }
        assert(photos.filter(predq) == if predq(p) {
            dl.filter(predq).push(p)
        } else {
            dl.filter(predq)
        }) by {
            reveal_with_fuel(Seq::filter, 2);
        }
        assert(photos.filter(predp) == if predp(p) {
            dl.filter(predp).push(p)
        } else {
            dl.filter(predp)
        }) by {
            reveal_with_fuel(Seq::filter, 2);
        }
    }
}

fn reverse_photos(v: Vec<PhotoItem>) -> (r: Vec<PhotoItem>)
    ensures
        photo_views(r@) == photo_views(v@).reverse(),
{
    let n = v.len();
    let mut out: Vec<PhotoItem> = Vec::new();
    let mut i: usize = 0;
    while i < n
        invariant
            0 <= i <= n,
            n == v@.len(),
            out@.len() == i,
            forall|p: int| 0 <= p < i ==> (#[trigger] out@[p])@ == v@[n - 1 - p]@,
        decreases n - i,
    {
        out.push(v[n - 1 - i].duplicate());
        i = i + 1;
    }
    proof {
        assert(photo_views(out@) =~= photo_views(v@).reverse());
    }
    out
}

/// Run one query over the catalogue's photos.
pub fn perform_query(photos: &Vec<PhotoItem>, query_params: &QueryParams) -> (r: PhotoResults)
    ensures
        r.wf(),
        !r.date_accessor_built,
        !r.location_accessor_built,
        photo_views(r.results@) == spec_query_results(photo_views(photos@), *query_params),
{
    let ghost pv = photo_views(photos@);
    let ghost q = *query_params;
    let n = photos.len();
    let mut kept: Vec<PhotoItem> = Vec::new();
    let mut i: usize = 0;
    proof {
        assert(pv.take(0).filter(|x: PhotoModel| spec_photo_matches(x, q)) =~= Seq::<
            PhotoModel,
        >::empty());
        assert(photo_views(kept@) =~= pv.take(0).filter(
            |x: PhotoModel| spec_photo_matches(x, q),
        ));
    }
    while i < n
        invariant
            0 <= i <= n,
            n == photos@.len(),
            pv == photo_views(photos@),
            q == *query_params,
            photo_views(kept@) == pv.take(i as int).filter(
                |x: PhotoModel| spec_photo_matches(x, q),
            ),
        decreases n - i,
    {
        let ghost prev = photo_views(kept@);
        proof {
            assert(pv.take(i + 1) =~= pv.take(i as int).push(pv[i as int]));
            assert(pv[i as int] == photos@[i as int]@);
            lemma_query_filter_snoc(pv.take(i as int), pv[i as int], q);
        }
        let p_ref = &photos[i];
        let mut keep = true;
        if query_params.source_types > 0 {
            if query_params.source_types & p_ref.source_type.bit() == 0 {
                keep = false;
            }
        }
        if keep && query_params.item_types > 0 {
            if query_params.item_types & p_ref.item_type.bit() == 0 {
                keep = false;
            }
        }
        if keep && !matches_permissions(query_params.permission_type, p_ref) {
            keep = false;
        }
        proof {
            assert(keep == spec_photo_matches(pv[i as int], q));
        }
        if keep {
            kept.push(photos[i].duplicate());
            proof {
                assert(photo_views(kept@) =~= prev.push(pv[i as int]));
            }
        }
        i = i + 1;
    }
    proof {
        assert(pv.take(n as int) =~= pv);
    }
    let ordered = if query_params.sort_order_type == SortOrderType::YoungestFirst {
        reverse_photos(kept)
    } else {
        kept
    };
    let mut results = PhotoResults::new();
    results.results = ordered;
    results.have_results = true;
    results
}

/// The number of cache slots.
pub const LRU_CACHE_SIZE: usize = 10;

/// The bounded query cache: appends until full, then overwrites the
/// oldest entry, first in first out.
pub struct LRUCache {
    pub cached_queries: Vec<QueryParams>,
    pub cached_results: Vec<PhotoResults>,
    pub num_cached_results: usize,
    pub next_cache_index: usize,
}

impl LRUCache {
    pub fn new() -> (r: LRUCache)
        ensures
            r.cached_queries@.len() == 0,
            r.cached_results@.len() == 0,
            r.num_cached_results == 0,
            r.next_cache_index == 0,
    {
        LRUCache {
            cached_queries: Vec::new(),
            cached_results: Vec::new(),
            num_cached_results: 0,
            next_cache_index: 0,
        }
    }
}

/// The query engine of one catalogue: runs queries and caches result sets.
pub struct PhotoQueryEngine {
    pub cached_items: LRUCache,
}

impl PhotoQueryEngine {
    /// Cache shape and coherence: every cached entry is exactly the result
    /// of its own query over `photos`.
    pub open spec fn wf_for(&self, photos: Seq<PhotoModel>) -> bool {
        &&& self.cached_items.cached_queries@.len() == self.cached_items.num_cached_results
        &&& self.cached_items.cached_results@.len() == self.cached_items.num_cached_results
        &&& self.cached_items.num_cached_results <= LRU_CACHE_SIZE
        &&& (self.cached_items.num_cached_results < LRU_CACHE_SIZE
            ==> self.cached_items.next_cache_index == self.cached_items.num_cached_results)
        &&& (self.cached_items.num_cached_results == LRU_CACHE_SIZE
            ==> self.cached_items.next_cache_index <= LRU_CACHE_SIZE)
        &&& forall|i: int|
            0 <= i < self.cached_items.cached_results@.len() ==> (
            #[trigger] self.cached_items.cached_results@[i]).wf()
        &&& forall|i: int|
            0 <= i < self.cached_items.cached_results@.len() ==> photo_views(
                (#[trigger] self.cached_items.cached_results@[i]).results@,
            ) == spec_query_results(photos, self.cached_items.cached_queries@[i])
    }

    pub open spec fn cache_is_empty(&self) -> bool {
        &&& self.cached_items.cached_queries@.len() == 0
        &&& self.cached_items.cached_results@.len() == 0
        &&& self.cached_items.num_cached_results == 0
        &&& self.cached_items.next_cache_index == 0
    }

    pub fn new() -> (r: PhotoQueryEngine)
        ensures
            r.cache_is_empty(),
            forall|photos: Seq<PhotoModel>| r.wf_for(photos),
    {
        PhotoQueryEngine { cached_items: LRUCache::new() }
    }

    fn find_cached_result(&self, query_params: &QueryParams) -> (r: Option<usize>)
        ensures
            match r {
                Some(i) => i < self.cached_items.cached_queries@.len()
                    && self.cached_items.cached_queries@[i as int] == *query_params,
                None => forall|i: int|
                    0 <= i < self.cached_items.cached_queries@.len()
                        ==> self.cached_items.cached_queries@[i] != *query_params,
            },
    {
        let n = self.cached_items.cached_queries.len();
        let mut i: usize = 0;
        while i < n
            invariant
                0 <= i <= n,
                n == self.cached_items.cached_queries@.len(),
                forall|p: int|
                    0 <= p < i ==> self.cached_items.cached_queries@[p] != *query_params,
            decreases n - i,
        {
            if self.cached_items.cached_queries[i] == *query_params {
                return Some(i);
            }
            i = i + 1;
        }
        None
    }

    /// Answer a query, from the cache when an equal query is cached, else by
    /// running it and caching the outcome first-in-first-out.
    pub fn get_photo_results(
        &mut self,
        photos: &Vec<PhotoItem>,
        query_params: QueryParams,
        build_flags: u32,
    ) -> (r: PhotoResults)
        requires
            old(self).wf_for(photo_views(photos@)),
        ensures
            final(self).wf_for(photo_views(photos@)),
            r.wf(),
            photo_views(r.results@) == spec_query_results(photo_views(photos@), query_params),
            build_flags & 1u32 != 0 ==> r.date_accessor_built,
            build_flags & 1u32 == 0 && build_flags & 2u32 != 0 ==> r.location_accessor_built,
            ({
                let c0 = old(self).cached_items;
                let c1 = final(self).cached_items;
                if exists|i: int|
                    0 <= i < c0.cached_queries@.len() && c0.cached_queries@[i] == query_params {
                    c1 == c0
                } else if c0.num_cached_results < LRU_CACHE_SIZE {
                    &&& c1.cached_queries@ == c0.cached_queries@.push(query_params)
                    &&& c1.num_cached_results == c0.num_cached_results + 1
                    &&& c1.next_cache_index == c0.next_cache_index + 1
                } else {
                    &&& c1.cached_queries@ == c0.cached_queries@.update(
                        (c0.next_cache_index as int) % (LRU_CACHE_SIZE as int),
                        query_params,
                    )
                    &&& c1.num_cached_results == c0.num_cached_results
                    &&& c1.next_cache_index == (c0.next_cache_index as int) % (LRU_CACHE_SIZE as int) + 1
                }
            }),
    {
        let ghost pv = photo_views(photos@);
        let cached = self.find_cached_result(&query_params);
        let mut result = match cached {
            Some(i) => {
                proof {
                    assert(self.cached_items.cached_results@[i as int].wf());
                }
                self.cached_items.cached_results[i].duplicate()
            },
            None => perform_query(photos, &query_params),
        };
        if build_flags & 1 != 0 {
            result.check_date_accessor_is_built();
        } else if build_flags & 2 != 0 {
            result.check_location_accessor_is_built();
        }
        match cached {
            Some(_) => result,
            None => {
                let copy = result.duplicate();
                self.add_cached_result(query_params, copy, Ghost(pv));
                result
            },
        }
    }

    fn add_cached_result(
        &mut self,
        query_params: QueryParams,
        result: PhotoResults,
        Ghost(pv): Ghost<Seq<PhotoModel>>,
    )
        requires
            old(self).wf_for(pv),
            result.wf(),
            photo_views(result.results@) == spec_query_results(pv, query_params),
        ensures
            final(self).wf_for(pv),
            ({
                let c0 = old(self).cached_items;
                let c1 = final(self).cached_items;
                if c0.num_cached_results < LRU_CACHE_SIZE {
                    &&& c1.cached_queries@ == c0.cached_queries@.push(query_params)
                    &&& c1.num_cached_results == c0.num_cached_results + 1
                    &&& c1.next_cache_index == c0.next_cache_index + 1
                } else {
                    &&& c1.cached_queries@ == c0.cached_queries@.update(
                        (c0.next_cache_index as int) % (LRU_CACHE_SIZE as int),
                        query_params,
                    )
                    &&& c1.num_cached_results == c0.num_cached_results
                    &&& c1.next_cache_index == (c0.next_cache_index as int) % (LRU_CACHE_SIZE as int) + 1
                }
            }),
    {
        if self.cached_items.num_cached_results < LRU_CACHE_SIZE {
            self.cached_items.cached_queries.push(query_params);
            self.cached_items.cached_results.push(result);
            self.cached_items.next_cache_index = self.cached_items.next_cache_index + 1;
            self.cached_items.num_cached_results = self.cached_items.num_cached_results + 1;
            proof {
                let c = self.cached_items;
                let c0 = old(self).cached_items;
                assert forall|i: int| 0 <= i < c.cached_results@.len() implies (
                #[trigger] c.cached_results@[i]).wf() && photo_views(c.cached_results@[i].results@)
                    == spec_query_results(pv, c.cached_queries@[i]) by {
                    if i < c.cached_results@.len() - 1 {
                        assert(c.cached_results@[i] == c0.cached_results@[i]);
                        assert(c.cached_queries@[i] == c0.cached_queries@[i]);
                    }
                }
            }
        } else {
            // the append phase leaves next_cache_index one past the last
            // filled slot, so reducing it modulo the capacity lands on the
            // oldest entry: first in, first overwritten
            let next_val = self.cached_items.next_cache_index % LRU_CACHE_SIZE;
            self.cached_items.cached_queries.set(next_val, query_params);
            self.cached_items.cached_results.set(next_val, result);
            self.cached_items.next_cache_index = next_val + 1;
            proof {
                let c = self.cached_items;
                let c0 = old(self).cached_items;
                assert forall|i: int| 0 <= i < c.cached_results@.len() implies (
                #[trigger] c.cached_results@[i]).wf() && photo_views(c.cached_results@[i].results@)
                    == spec_query_results(pv, c.cached_queries@[i]) by {
                    if i != next_val {
                        assert(c.cached_results@[i] == c0.cached_results@[i]);
                        assert(c.cached_queries@[i] == c0.cached_queries@[i]);
                    }
                }
            }
        }
    }
}

/// The cache's size after one more distinct miss: exactly the length change
/// the ensures of `get_photo_results` makes on a miss — one more entry below
/// the capacity, the same ten entries at it.
pub open spec fn spec_cache_len_step(len: int) -> int {
    if len < LRU_CACHE_SIZE {
        len + 1
    } else {
        len
    }
}

/// The cache's size after `n` distinct misses from empty.
pub open spec fn spec_cache_len_after_misses(n: int) -> int
    decreases n,
{
    if n <= 0 {
        0
    } else {
        spec_cache_len_step(spec_cache_len_after_misses(n - 1))
    }
}

/// A transition satisfying the miss clause of `get_photo_results` moves the
/// cache's size by exactly `spec_cache_len_step`: the bridge between the
/// engine's per-call contract and the size law below.
pub proof fn lemma_miss_changes_len_by_step(c0: LRUCache, c1: LRUCache)
    requires
        c0.num_cached_results <= LRU_CACHE_SIZE,
        c0.num_cached_results < LRU_CACHE_SIZE ==> c1.num_cached_results == c0.num_cached_results
            + 1,
        c0.num_cached_results == LRU_CACHE_SIZE ==> c1.num_cached_results
            == c0.num_cached_results,
    ensures
        c1.num_cached_results == spec_cache_len_step(c0.num_cached_results as int),
{
}

/// After `n` distinct misses on an empty cache, the cache holds
/// `min(n, LRU_CACHE_SIZE)` entries.
pub proof fn lemma_cache_len_after_distinct_misses(n: int)
    requires
        n >= 0,
    ensures
        spec_cache_len_after_misses(n) == if n <= LRU_CACHE_SIZE {
            n
        } else {
            LRU_CACHE_SIZE as int
        },
    decreases n,
{
    if n > 0 {
        lemma_cache_len_after_distinct_misses(n - 1);
    }
}

} // verus!
