//! The location index over a result set: a hierarchy of `/`-separated
//! location components, with the photos at or below every node.
use vstd::prelude::*;

use crate::photos_handler::item_file::str_views;
use crate::photos_handler::photo_item::{duplicate_photos, photo_views, PhotoItem, PhotoModel};
use crate::text::{
    lemma_lex_total, lex_lt, spec_split, spec_trim, split_char, str_eq, str_lt, trim_str,
};

verus! {

/// Each piece trimmed of blanks.
pub open spec fn trim_all(s: Seq<Seq<char>>) -> Seq<Seq<char>> {
    s.map_values(|x: Seq<char>| spec_trim(x))
}

/// The components of a query path: split on `/`, each piece trimmed.
pub open spec fn query_components(s: Seq<char>) -> Seq<Seq<char>> {
    trim_all(spec_split(s, '/'))
}

/// The components a photo is indexed under: the whole path trimmed, split on
/// `/`, and each piece trimmed.
pub open spec fn photo_loc_components(p: PhotoModel) -> Seq<Seq<char>> {
    query_components(spec_trim(p.geo_location_path))
}

/// The photos the location index covers: every photo with a location path.
pub open spec fn loc_eligible(p: PhotoModel) -> bool {
    p.geo_location_path.len() > 0
}

pub open spec fn is_path_prefix(pfx: Seq<Seq<char>>, comps: Seq<Seq<char>>) -> bool {
    pfx.len() <= comps.len() && comps.take(pfx.len() as int) == pfx
}

pub open spec fn spec_at_or_below(p: PhotoModel, pfx: Seq<Seq<char>>) -> bool {
    loc_eligible(p) && is_path_prefix(pfx, photo_loc_components(p))
}

/// The photos at or below a node, in the result set's order.
pub open spec fn photos_for_path(photos: Seq<PhotoModel>, pfx: Seq<Seq<char>>) -> Seq<PhotoModel> {
    photos.filter(|p: PhotoModel| spec_at_or_below(p, pfx))
}

pub proof fn lemma_photos_for_path_snoc(s: Seq<PhotoModel>, p: PhotoModel, pfx: Seq<Seq<char>>)
    ensures
        photos_for_path(s.push(p), pfx) == (if spec_at_or_below(p, pfx) {
            photos_for_path(s, pfx).push(p)
        } else {
            photos_for_path(s, pfx)
        }),
{
    let pred = |q: PhotoModel| spec_at_or_below(q, pfx);
    assert(s.push(p).drop_last() =~= s);
    assert(s.push(p).last() == p);
    assert(s.push(p).filter(pred) == if pred(p) {
        s.filter(pred).push(p)
    } else {
        s.filter(pred)
    }) by {
        reveal_with_fuel(Seq::filter, 2);
    }
}

/// A node has photos exactly when some photo lies at or below it.
pub proof fn lemma_photos_for_path_nonempty(photos: Seq<PhotoModel>, pfx: Seq<Seq<char>>)
    ensures
        photos_for_path(photos, pfx).len() > 0 <==> exists|k: int|
            0 <= k < photos.len() && spec_at_or_below(#[trigger] photos[k], pfx),
    decreases photos.len(),
{
    if photos.len() == 0 {
        assert(photos_for_path(photos, pfx) =~= Seq::<PhotoModel>::empty());
    } else {
        let dl = photos.drop_last();
        let p = photos.last();
        lemma_photos_for_path_nonempty(dl, pfx);
        assert(dl.push(p) =~= photos);
        lemma_photos_for_path_snoc(dl, p, pfx);
        if spec_at_or_below(p, pfx) {
            assert(spec_at_or_below(photos[photos.len() - 1], pfx));
        } else {
            if exists|k: int| 0 <= k < dl.len() && spec_at_or_below(#[trigger] dl[k], pfx) {
                let k = choose|k: int| 0 <= k < dl.len() && spec_at_or_below(#[trigger] dl[k], pfx);
                assert(spec_at_or_below(photos[k], pfx));
            }
            if exists|k: int| 0 <= k < photos.len() && spec_at_or_below(#[trigger] photos[k], pfx) {
                let k = choose|k: int|
                    0 <= k < photos.len() && spec_at_or_below(#[trigger] photos[k], pfx);
                assert(k < dl.len());
                assert(spec_at_or_below(dl[k], pfx));
            }
        }
    }
}

/// Lying at or below `pfx.push(n)` is lying at or below `pfx` with `n` as
/// the next component.
pub proof fn lemma_child_prefix(pfx: Seq<Seq<char>>, n: Seq<char>, comps: Seq<Seq<char>>)
    ensures
        is_path_prefix(pfx.push(n), comps) <==> (is_path_prefix(pfx, comps) && comps.len()
            > pfx.len() && comps[pfx.len() as int] == n),
{
    if is_path_prefix(pfx.push(n), comps) {
        assert(comps.take(pfx.len() as int + 1)[pfx.len() as int] == n);
        assert(comps.take(pfx.len() as int) =~= comps.take(pfx.len() as int + 1).take(pfx.len() as int));
        assert(comps.take(pfx.len() as int + 1).take(pfx.len() as int) =~= pfx) by {
            assert forall|q: int| 0 <= q < pfx.len() implies comps.take(pfx.len() as int + 1)[q]
                == pfx[q] by {
                assert(comps.take(pfx.len() as int + 1)[q] == pfx.push(n)[q]);
            }
        }
    }
    if is_path_prefix(pfx, comps) && comps.len() > pfx.len() && comps[pfx.len() as int] == n {
        assert(comps.take(pfx.len() as int + 1) =~= pfx.push(n)) by {
            assert forall|q: int| 0 <= q < pfx.len() as int + 1 implies comps.take(pfx.len() as int + 1)[q]
                == pfx.push(n)[q] by {
                if q < pfx.len() {
                    assert(comps.take(pfx.len() as int)[q] == pfx[q]);
                }
            }
        }
    }
}

/// Whether a name appears in a list of names.
pub open spec fn names_contain(names: Seq<String>, n: Seq<char>) -> bool {
    exists|i: int| 0 <= i < names.len() && (#[trigger] names[i])@ == n
}

/// Whether some entry has exactly this path.
pub open spec fn paths_contain(paths: Seq<Vec<String>>, pfx: Seq<Seq<char>>) -> bool {
    exists|i: int| 0 <= i < paths.len() && str_views((#[trigger] paths[i])@) == pfx
}

/// One node of the location hierarchy: its full component path, the photos
/// at or below it, and its immediate sub-location names in ascending order.
pub struct LocationHierarchyItem {
    pub name: String,
    pub description: String,
    pub path: Vec<String>,
    pub photos: Vec<PhotoItem>,
    pub sub_location_names: Vec<String>,
}

impl LocationHierarchyItem {
    /// A fresh node with the given name and nothing in it yet.
    pub fn new(name: &str) -> (r: LocationHierarchyItem)
        ensures
            r.name@ == name@,
            r.description@.len() == 0,
            r.path@.len() == 0,
            r.photos@.len() == 0,
            r.sub_location_names@.len() == 0,
    {
        LocationHierarchyItem {
            name: name.to_owned(),
            description: String::new(),
            path: Vec::new(),
            photos: Vec::new(),
            sub_location_names: Vec::new(),
        }
    }
}

/// The location index over one result set.
pub struct PhotoResultsLocationAccessor {
    pub items: Vec<LocationHierarchyItem>,
}

/// The first entry with the given path, if any.
pub open spec fn spec_lookup_path(items: Seq<LocationHierarchyItem>, pfx: Seq<Seq<char>>) -> Option<
    int,
>
    decreases items.len(),
{
    if items.len() == 0 {
        None
    } else if str_views(items[0].path@) == pfx {
        Some(0)
    } else {
        match spec_lookup_path(items.drop_first(), pfx) {
            Some(i) => Some(i + 1),
            None => None,
        }
    }
}

pub proof fn lemma_lookup_path_props(items: Seq<LocationHierarchyItem>, pfx: Seq<Seq<char>>)
    ensures
        match spec_lookup_path(items, pfx) {
            Some(i) => 0 <= i < items.len() && str_views(items[i].path@) == pfx,
            None => forall|i: int|
                0 <= i < items.len() ==> str_views((#[trigger] items[i]).path@) != pfx,
        },
    decreases items.len(),
{
    if items.len() > 0 {
        lemma_lookup_path_props(items.drop_first(), pfx);
        if str_views(items[0].path@) != pfx {
            match spec_lookup_path(items.drop_first(), pfx) {
                Some(i) => {
                    assert(items.drop_first()[i] == items[i + 1]);
                },
                None => {
                    assert forall|i: int|
                        0 <= i < items.len() implies str_views((#[trigger] items[i]).path@)
                        != pfx by {
                        if i > 0 {
                            assert(items.drop_first()[i - 1] == items[i]);
                        }
                    }
                },
            }
        }
    }
}

impl PhotoResultsLocationAccessor {
    /// What it means for this index to be the location index of `photos`.
    pub open spec fn built_from(&self, photos: Seq<PhotoModel>) -> bool {
        &&& forall|i: int| 0 <= i < self.items@.len() ==> (#[trigger] self.items@[i]).path@.len() >= 1
        &&& forall|i: int|
            0 <= i < self.items@.len() ==> photo_views((#[trigger] self.items@[i]).photos@)
                == photos_for_path(photos, str_views(self.items@[i].path@))
        &&& forall|pfx: Seq<Seq<char>>|
            pfx.len() >= 1 ==> (photos_for_path(photos, pfx).len() > 0 <==> paths_contain(
                paths_of(self.items@),
                pfx,
            ))
        &&& forall|i: int, p: int|
            0 <= i < self.items@.len() && 0 <= p && p + 1 < self.items@[i].sub_location_names@.len()
                ==> lex_lt(
                (#[trigger] self.items@[i].sub_location_names@[p])@,
                self.items@[i].sub_location_names@[p + 1]@,
            )
        &&& forall|i: int, n: Seq<char>|
            0 <= i < self.items@.len() ==> (#[trigger] names_contain(
                self.items@[i].sub_location_names@,
                n,
            ) <==> photos_for_path(photos, str_views(self.items@[i].path@).push(n)).len() > 0)
    }

    pub fn new() -> (r: PhotoResultsLocationAccessor)
        ensures
            r.items@.len() == 0,
            r.built_from(Seq::<PhotoModel>::empty()),
    {
        let r = PhotoResultsLocationAccessor { items: Vec::new() };
        proof {
            assert(paths_of(r.items@) =~= Seq::<Vec<String>>::empty());
            assert forall|pfx: Seq<Seq<char>>| pfx.len() >= 1 implies !(photos_for_path(
                Seq::<PhotoModel>::empty(),
                pfx,
            ).len() > 0) by {
                assert(photos_for_path(Seq::<PhotoModel>::empty(), pfx) =~= Seq::<
                    PhotoModel,
                >::empty());
            }
        }
        r
    }
}

pub open spec fn paths_of(items: Seq<LocationHierarchyItem>) -> Seq<Vec<String>> {
    Seq::new(items.len(), |i: int| items[i].path)
}

// ---------------------------------------------------------------------------
// Building
// ---------------------------------------------------------------------------
/// Split a path on `/` and trim each piece.
pub fn split_and_trim_components(s: &str) -> (r: Vec<String>)
    ensures
        str_views(r@) == query_components(s@),
{
    let pieces = split_char(s, '/');
    let n = pieces.len();
    let mut out: Vec<String> = Vec::new();
    let mut i: usize = 0;
    while i < n
        invariant
            0 <= i <= n,
            n == pieces@.len(),
            n == spec_split(s@, '/').len(),
            forall|p: int| 0 <= p < n ==> (#[trigger] pieces@[p])@ == spec_split(s@, '/')[p],
            out@.len() == i,
            forall|p: int| 0 <= p < i ==> (#[trigger] out@[p])@ == spec_trim(spec_split(s@, '/')[p]),
        decreases n - i,
    {
        out.push(trim_str(pieces[i].as_str()));
        i = i + 1;
    }
    proof {
        assert(str_views(out@) =~= query_components(s@));
    }
    out
}

fn photo_components(p: &PhotoItem) -> (r: Vec<String>)
    ensures
        str_views(r@) == photo_loc_components(p@),
{
    let t = trim_str(p.geo_location_path.as_str());
    split_and_trim_components(t.as_str())
}

fn photo_eligible(p: &PhotoItem) -> (r: bool)
    ensures
        r == loc_eligible(p@),
{
    p.geo_location_path.as_str().unicode_len() > 0
}

fn path_eq(a: &Vec<String>, b: &Vec<String>) -> (r: bool)
    ensures
        r == (str_views(a@) == str_views(b@)),
{
    let n = a.len();
    if b.len() != n {
        proof {
            assert(str_views(a@).len() != str_views(b@).len());
        }
        return false;
    }
    let mut i: usize = 0;
    while i < n
        invariant
            0 <= i <= n,
            n == a@.len(),
            n == b@.len(),
            forall|p: int| 0 <= p < i ==> (#[trigger] a@[p])@ == b@[p]@,
        decreases n - i,
    {
        if !str_eq(a[i].as_str(), b[i].as_str()) {
            proof {
                assert(str_views(a@)[i as int] != str_views(b@)[i as int]);
            }
            return false;
        }
        i = i + 1;
    }
    proof {
        assert(str_views(a@) =~= str_views(b@));
    }
    true
}

fn path_is_prefix(pfx: &Vec<String>, comps: &Vec<String>) -> (r: bool)
    ensures
        r == is_path_prefix(str_views(pfx@), str_views(comps@)),
{
    let n = pfx.len();
    if comps.len() < n {
        return false;
    }
    let mut i: usize = 0;
    while i < n
        invariant
            0 <= i <= n,
            n == pfx@.len(),
            n <= comps@.len(),
            forall|p: int| 0 <= p < i ==> (#[trigger] pfx@[p])@ == comps@[p]@,
        decreases n - i,
    {
        if !str_eq(pfx[i].as_str(), comps[i].as_str()) {
            proof {
                assert(str_views(comps@).take(n as int)[i as int] != str_views(pfx@)[i as int]);
            }
            return false;
        }
        i = i + 1;
    }
    proof {
        assert(str_views(comps@).take(n as int) =~= str_views(pfx@));
    }
    true
}

fn duplicate_strings(v: &Vec<String>) -> (r: Vec<String>)
    ensures
        str_views(r@) == str_views(v@),
        r@.len() == v@.len(),
        forall|p: int| 0 <= p < v@.len() ==> (#[trigger] r@[p])@ == v@[p]@,
{
    let n = v.len();
    let mut out: Vec<String> = Vec::new();
    let mut i: usize = 0;
    while i < n
        invariant
            0 <= i <= n,
            n == v@.len(),
            out@.len() == i,
            forall|p: int| 0 <= p < i ==> (#[trigger] out@[p])@ == v@[p]@,
        decreases n - i,
    {
        out.push(v[i].clone());
        i = i + 1;
    }
    proof {
        assert(str_views(out@) =~= str_views(v@));
    }
    out
}

fn filter_photos_path(photos: &Vec<PhotoItem>, pfx: &Vec<String>) -> (r: Vec<PhotoItem>)
    ensures
        photo_views(r@) == photos_for_path(photo_views(photos@), str_views(pfx@)),
{
    let ghost pv = photo_views(photos@);
    let ghost pfxv = str_views(pfx@);
    let n = photos.len();
    let mut out: Vec<PhotoItem> = Vec::new();
    let mut i: usize = 0;
    proof {
        assert(photos_for_path(pv.take(0), pfxv) =~= Seq::<PhotoModel>::empty());
        assert(photo_views(out@) =~= photos_for_path(pv.take(0), pfxv));
    }
    while i < n
        invariant
            0 <= i <= n,
            n == photos@.len(),
            pv == photo_views(photos@),
            pfxv == str_views(pfx@),
            photo_views(out@) == photos_for_path(pv.take(i as int), pfxv),
        decreases n - i,
    {
        let ghost prev = photo_views(out@);
        proof {
            assert(pv.take(i + 1) =~= pv.take(i as int).push(pv[i as int]));
            assert(pv[i as int] == photos@[i as int]@);
            lemma_photos_for_path_snoc(pv.take(i as int), pv[i as int], pfxv);
        }
        let p_ref = &photos[i];
        let mut below = photo_eligible(p_ref);
        if below {
            let comps = photo_components(p_ref);
            below = path_is_prefix(pfx, &comps);
        }
        proof {
            assert(below == spec_at_or_below(pv[i as int], pfxv));
        }
        if below {
            out.push(photos[i].duplicate());
            proof {
                assert(photo_views(out@) =~= prev.push(pv[i as int]));
            }
        }
        i = i + 1;
    }
    proof {
        assert(pv.take(n as int) =~= pv);
    }
    out
}

fn lower_bound_name(v: &Vec<String>, x: &str) -> (j: usize)
    ensures
        j <= v@.len(),
        forall|p: int| 0 <= p < j ==> lex_lt((#[trigger] v@[p])@, x@),
        j < v@.len() ==> !lex_lt(v@[j as int]@, x@),
{
    let n = v.len();
    let mut j: usize = 0;
    while j < n
        invariant
            0 <= j <= n,
            n == v@.len(),
            forall|p: int| 0 <= p < j ==> lex_lt((#[trigger] v@[p])@, x@),
        decreases n - j,
    {
        if !str_lt(v[j].as_str(), x) {
            return j;
        }
        j = j + 1;
    }
    j
}

/// Insert a name into an ascending list of names, keeping it so.
fn insert_name_sorted(v: &mut Vec<String>, x: String)
    requires
        forall|i: int|
            0 <= i && i + 1 < old(v)@.len() ==> lex_lt((#[trigger] old(v)@[i])@, old(v)@[i + 1]@),
    ensures
        forall|i: int|
            0 <= i && i + 1 < final(v)@.len() ==> lex_lt((#[trigger] final(v)@[i])@, final(v)@[i
                + 1]@),
        forall|n: Seq<char>|
            #[trigger] names_contain(final(v)@, n) <==> (names_contain(old(v)@, n) || n == x@),
{
    let ghost m = v@;
    let n = v.len();
    let j = lower_bound_name(v, x.as_str());
    if j < n && str_eq(v[j].as_str(), x.as_str()) {
        proof {
            assert(v@[j as int]@ == x@);
            assert forall|z: Seq<char>| #[trigger] names_contain(v@, z) <==> (names_contain(m, z)
                || z == x@) by {
                if z == x@ {
                    assert(names_contain(v@, z));
                }
            }
        }
        return ;
    }
    proof {
        if j < n {
            lemma_lex_total(x@, m[j as int]@);
            if x@ == m[j as int]@ {
                assert(false);
            }
            assert(lex_lt(x@, m[j as int]@));
        }
    }
    v.insert(j, x);
    proof {
        assert(v@ =~= m.take(j as int) + seq![x] + m.skip(j as int));
        assert forall|i: int| 0 <= i && i + 1 < v@.len() implies lex_lt(
            (#[trigger] v@[i])@,
            v@[i + 1]@,
        ) by {
            if i + 1 < j {
                assert(v@[i] == m[i]);
                assert(v@[i + 1] == m[i + 1]);
            } else if i + 1 == j {
                assert(v@[i] == m[i]);
                assert(v@[i + 1]@ == x@);
            } else if i == j {
                assert(v@[i]@ == x@);
                assert(v@[i + 1] == m[i]);
            } else {
                assert(v@[i] == m[i - 1]);
                assert(v@[i + 1] == m[i]);
            }
        }
        assert forall|z: Seq<char>| #[trigger] names_contain(v@, z) <==> (names_contain(m, z) || z
            == x@) by {
            if names_contain(v@, z) {
                let k = choose|k: int| 0 <= k < v@.len() && (#[trigger] v@[k])@ == z;
                if k < j {
                    assert(m[k]@ == z);
                    assert(names_contain(m, z));
                } else if k > j {
                    assert(m[k - 1]@ == z);
                    assert(names_contain(m, z));
                } else {
                    assert(z == x@);
                }
            }
            if names_contain(m, z) {
                let k = choose|k: int| 0 <= k < m.len() && (#[trigger] m[k])@ == z;
                if k < j {
                    assert(v@[k]@ == z);
                } else {
                    assert(v@[k + 1]@ == z);
                }
                assert(names_contain(v@, z));
            }
            if z == x@ {
                assert(v@[j as int]@ == x@);
                assert(names_contain(v@, z));
            }
        }
    }
}

fn collect_child_names(photos: &Vec<PhotoItem>, pfx: &Vec<String>) -> (r: Vec<String>)
    ensures
        forall|i: int|
            0 <= i && i + 1 < r@.len() ==> lex_lt((#[trigger] r@[i])@, r@[i + 1]@),
        forall|n: Seq<char>|
            #[trigger] names_contain(r@, n) <==> photos_for_path(
                photo_views(photos@),
                str_views(pfx@).push(n),
            ).len() > 0,
{
    let ghost pv = photo_views(photos@);
    let ghost pfxv = str_views(pfx@);
    let cnt = photos.len();
    let mut out: Vec<String> = Vec::new();
    let mut i: usize = 0;
    while i < cnt
        invariant
            0 <= i <= cnt,
            cnt == photos@.len(),
            pv == photo_views(photos@),
            pfxv == str_views(pfx@),
            forall|p: int|
                0 <= p && p + 1 < out@.len() ==> lex_lt((#[trigger] out@[p])@, out@[p + 1]@),
            forall|n: Seq<char>|
                #[trigger] names_contain(out@, n) <==> exists|k: int|
                    0 <= k < i && spec_at_or_below(#[trigger] pv[k], pfxv.push(n)),
        decreases cnt - i,
    {
        let ghost prev = out@;
        proof {
            assert(pv[i as int] == photos@[i as int]@);
        }
        let p_ref = &photos[i];
        let mut took = false;
        if photo_eligible(p_ref) {
            let comps = photo_components(p_ref);
            if path_is_prefix(pfx, &comps) && comps.len() > pfx.len() {
                let name = comps[pfx.len()].clone();
                insert_name_sorted(&mut out, name);
                took = true;
                proof {
                    assert forall|n: Seq<char>| #[trigger] names_contain(out@, n) <==> exists|k: int|
                        0 <= k < i + 1 && spec_at_or_below(#[trigger] pv[k], pfxv.push(n)) by {
                        lemma_child_prefix(pfxv, n, photo_loc_components(pv[i as int]));
                        let nm = str_views(comps@)[pfxv.len() as int];
                        if names_contain(out@, n) {
                            if n == nm {
                                assert(spec_at_or_below(pv[i as int], pfxv.push(n)));
                            } else {
                                assert(names_contain(prev, n));
                            }
                        }
                        if exists|k: int|
                            0 <= k < i + 1 && spec_at_or_below(#[trigger] pv[k], pfxv.push(n)) {
                            let k = choose|k: int|
                                0 <= k < i + 1 && spec_at_or_below(#[trigger] pv[k], pfxv.push(n));
                            if k < i {
                                assert(names_contain(prev, n));
                            } else {
                                assert(n == nm);
                            }
                        }
                    }
                }
            }
        }
        proof {
            if !took {
                assert forall|n: Seq<char>| #[trigger] names_contain(out@, n) <==> exists|k: int|
                    0 <= k < i + 1 && spec_at_or_below(#[trigger] pv[k], pfxv.push(n)) by {
                    lemma_child_prefix(pfxv, n, photo_loc_components(pv[i as int]));
                    assert(!spec_at_or_below(pv[i as int], pfxv.push(n)));
                    if exists|k: int|
                        0 <= k < i + 1 && spec_at_or_below(#[trigger] pv[k], pfxv.push(n)) {
                        let k = choose|k: int|
                            0 <= k < i + 1 && spec_at_or_below(#[trigger] pv[k], pfxv.push(n));
                        assert(k < i);
                    }
                }
            }
        }
        i = i + 1;
    }
    proof {
        assert forall|n: Seq<char>| #[trigger] names_contain(out@, n) <==> photos_for_path(
            pv,
            pfxv.push(n),
        ).len() > 0 by {
            lemma_photos_for_path_nonempty(pv, pfxv.push(n));
        }
    }
    out
}

fn contains_path(v: &Vec<Vec<String>>, p: &Vec<String>) -> (r: bool)
    ensures
        r == paths_contain(v@, str_views(p@)),
{
    let n = v.len();
    let mut i: usize = 0;
    while i < n
        invariant
            0 <= i <= n,
            n == v@.len(),
            forall|k: int| 0 <= k < i ==> str_views((#[trigger] v@[k])@) != str_views(p@),
        decreases n - i,
    {
        if path_eq(&v[i], p) {
            return true;
        }
        i = i + 1;
    }
    false
}

fn path_prefix_vec(comps: &Vec<String>, d: usize) -> (r: Vec<String>)
    requires
        d <= comps@.len(),
    ensures
        str_views(r@) == str_views(comps@).take(d as int),
        r@.len() == d,
{
    let mut out: Vec<String> = Vec::new();
    let mut i: usize = 0;
    while i < d
        invariant
            0 <= i <= d,
            d <= comps@.len(),
            out@.len() == i,
            forall|p: int| 0 <= p < i ==> (#[trigger] out@[p])@ == comps@[p]@,
        decreases d - i,
    {
        out.push(comps[i].clone());
        i = i + 1;
    }
    proof {
        assert(str_views(out@) =~= str_views(comps@).take(d as int));
    }
    out
}

fn collect_paths(photos: &Vec<PhotoItem>) -> (r: Vec<Vec<String>>)
    ensures
        forall|i: int| 0 <= i < r@.len() ==> str_views((#[trigger] r@[i])@).len() >= 1,
        forall|pfx: Seq<Seq<char>>|
            pfx.len() >= 1 ==> (#[trigger] paths_contain(r@, pfx) <==> exists|k: int|
                0 <= k < photo_views(photos@).len() && spec_at_or_below(
                    #[trigger] photo_views(photos@)[k],
                    pfx,
                )),
{
    let ghost pv = photo_views(photos@);
    let cnt = photos.len();
    let mut out: Vec<Vec<String>> = Vec::new();
    let mut i: usize = 0;
    while i < cnt
        invariant
            0 <= i <= cnt,
            cnt == photos@.len(),
            pv == photo_views(photos@),
            forall|p: int| 0 <= p < out@.len() ==> str_views((#[trigger] out@[p])@).len() >= 1,
            forall|pfx: Seq<Seq<char>>|
                pfx.len() >= 1 ==> (#[trigger] paths_contain(out@, pfx) <==> exists|k: int|
                    0 <= k < i && spec_at_or_below(#[trigger] pv[k], pfx)),
        decreases cnt - i,
    {
        proof {
            assert(pv[i as int] == photos@[i as int]@);
        }
        let p_ref = &photos[i];
        if photo_eligible(p_ref) {
            let comps = photo_components(p_ref);
            let ghost cv = photo_loc_components(pv[i as int]);
            let clen = comps.len();
            let mut d: usize = 0;
            while d < clen
                invariant
                    0 <= d <= clen,
                    0 <= i < cnt,
                    cnt == photos@.len(),
                    pv == photo_views(photos@),
                    str_views(comps@) == cv,
                    cv == photo_loc_components(pv[i as int]),
                    loc_eligible(pv[i as int]),
                    clen == comps@.len(),
                    forall|p: int|
                        0 <= p < out@.len() ==> str_views((#[trigger] out@[p])@).len() >= 1,
                    forall|pfx: Seq<Seq<char>>|
                        pfx.len() >= 1 ==> (#[trigger] paths_contain(out@, pfx) <==> ((exists|
                            k: int,
                        |
                            0 <= k < i && spec_at_or_below(#[trigger] pv[k], pfx)) || (
                        is_path_prefix(pfx, cv) && pfx.len() <= d))),
                decreases clen - d,
            {
                let prefix = path_prefix_vec(&comps, d + 1);
                let ghost before = out@;
                if !contains_path(&out, &prefix) {
                    out.push(prefix);
                } else {
                }
                proof {
                    assert forall|pfx: Seq<Seq<char>>| pfx.len() >= 1 implies (
                    #[trigger] paths_contain(out@, pfx) <==> ((exists|k: int|
                        0 <= k < i && spec_at_or_below(#[trigger] pv[k], pfx)) || (is_path_prefix(
                        pfx,
                        cv,
                    ) && pfx.len() <= d + 1))) by {
                        let dv = cv.take(d as int + 1);
                        assert(is_path_prefix(dv, cv) && dv.len() == d + 1);
                        if paths_contain(out@, pfx) && !paths_contain(before, pfx) {
                            let k = choose|k: int|
                                0 <= k < out@.len() && str_views((#[trigger] out@[k])@) == pfx;
                            assert(pfx == dv);
                        }
                        if is_path_prefix(pfx, cv) && pfx.len() == d + 1 {
                            assert(pfx =~= dv);
                            if paths_contain(before, pfx) {
                            } else {
                                assert(str_views(out@[out@.len() - 1]@) == dv);
                                assert(paths_contain(out@, pfx));
                            }
                        }
                        if paths_contain(before, pfx) {
                            let k = choose|k: int|
                                0 <= k < before.len() && str_views((#[trigger] before[k])@) == pfx;
                            assert(out@.len() >= before.len());
                            assert(out@[k] == before[k]);
                            assert(paths_contain(out@, pfx));
                        }
                    }
                }
                d = d + 1;
            }
            proof {
                assert forall|pfx: Seq<Seq<char>>| pfx.len() >= 1 implies (#[trigger] paths_contain(
                    out@,
                    pfx,
                ) <==> exists|k: int| 0 <= k < i + 1 && spec_at_or_below(#[trigger] pv[k], pfx)) by {
                    if paths_contain(out@, pfx) {
                        if !(exists|k: int| 0 <= k < i && spec_at_or_below(#[trigger] pv[k], pfx)) {
                            assert(is_path_prefix(pfx, cv) && pfx.len() <= clen);
                            assert(spec_at_or_below(pv[i as int], pfx));
                        } else {
                            let k = choose|k: int|
                                0 <= k < i && spec_at_or_below(#[trigger] pv[k], pfx);
                            assert(spec_at_or_below(pv[k], pfx));
                        }
                    }
                    if exists|k: int| 0 <= k < i + 1 && spec_at_or_below(#[trigger] pv[k], pfx) {
                        let k = choose|k: int|
                            0 <= k < i + 1 && spec_at_or_below(#[trigger] pv[k], pfx);
                        if k == i {
                            assert(is_path_prefix(pfx, cv));
                            assert(pfx.len() <= cv.len());
                        }
                    }
                }
            }
        } else {
            proof {
                assert forall|pfx: Seq<Seq<char>>| pfx.len() >= 1 implies (#[trigger] paths_contain(
                    out@,
                    pfx,
                ) <==> exists|k: int| 0 <= k < i + 1 && spec_at_or_below(#[trigger] pv[k], pfx)) by {
                    assert(!spec_at_or_below(pv[i as int], pfx));
                    if exists|k: int| 0 <= k < i + 1 && spec_at_or_below(#[trigger] pv[k], pfx) {
                        let k = choose|k: int|
                            0 <= k < i + 1 && spec_at_or_below(#[trigger] pv[k], pfx);
                        assert(k < i);
                    }
                }
            }
        }
        i = i + 1;
    }
    out
}

impl PhotoResultsLocationAccessor {
    /// Build the index over the given photos; only photos with no location
    /// path are left out.
    pub fn build(&mut self, photos: &Vec<PhotoItem>)
        ensures
            final(self).built_from(photo_views(photos@)),
    {
        let ghost pv = photo_views(photos@);
        let paths = collect_paths(photos);
        let mut items: Vec<LocationHierarchyItem> = Vec::new();
        let pn = paths.len();
        let mut a: usize = 0;
        while a < pn
            invariant
                0 <= a <= pn,
                pn == paths@.len(),
                pv == photo_views(photos@),
                forall|p: int| 0 <= p < pn ==> str_views((#[trigger] paths@[p])@).len() >= 1,
                items@.len() == a,
                forall|p: int|
                    0 <= p < a ==> str_views((#[trigger] items@[p]).path@) == str_views(
                        paths@[p]@,
                    ),
                forall|p: int|
                    0 <= p < a ==> photo_views((#[trigger] items@[p]).photos@) == photos_for_path(
                        pv,
                        str_views(items@[p].path@),
                    ),
                forall|p: int, q: int|
                    0 <= p < a && 0 <= q && q + 1 < (
                    #[trigger] items@[p]).sub_location_names@.len() ==> lex_lt(
                        (#[trigger] items@[p].sub_location_names@[q])@,
                        items@[p].sub_location_names@[q + 1]@,
                    ),
                forall|p: int, n: Seq<char>|
                    0 <= p < a ==> (#[trigger] names_contain(
                        (#[trigger] items@[p]).sub_location_names@,
                        n,
                    ) <==> photos_for_path(pv, str_views(items@[p].path@).push(n)).len() > 0),
            decreases pn - a,
        {
            let path = duplicate_strings(&paths[a]);
            let name = path[path.len() - 1].clone();
            let bucket = filter_photos_path(photos, &path);
            let children = collect_child_names(photos, &path);
            items.push(
                LocationHierarchyItem {
                    name,
                    description: String::new(),
                    path,
                    photos: bucket,
                    sub_location_names: children,
                },
            );
            a = a + 1;
        }
        self.items = items;
        proof {
            assert forall|pfx: Seq<Seq<char>>| pfx.len() >= 1 implies (photos_for_path(
                pv,
                pfx,
            ).len() > 0 <==> paths_contain(paths_of(self.items@), pfx)) by {
                lemma_photos_for_path_nonempty(pv, pfx);
                if paths_contain(paths@, pfx) {
                    let k = choose|k: int|
                        0 <= k < paths@.len() && str_views((#[trigger] paths@[k])@) == pfx;
                    assert(str_views(paths_of(self.items@)[k]@) == pfx);
                    assert(paths_contain(paths_of(self.items@), pfx));
                }
                if paths_contain(paths_of(self.items@), pfx) {
                    let k = choose|k: int|
                        0 <= k < paths_of(self.items@).len() && str_views(
                            (#[trigger] paths_of(self.items@)[k])@,
                        ) == pfx;
                    assert(str_views(paths@[k]@) == pfx);
                    assert(paths_contain(paths@, pfx));
                }
            }
        }
    }

    fn find_path_entry(&self, comps: &Vec<String>) -> (r: Option<usize>)
        ensures
            match r {
                Some(i) => spec_lookup_path(self.items@, str_views(comps@)) == Some(i as int),
                None => spec_lookup_path(self.items@, str_views(comps@)) is None,
            },
    {
        let n = self.items.len();
        let mut i: usize = 0;
        proof {
            assert(self.items@.skip(0) =~= self.items@);
        }
        while i < n
            invariant
                0 <= i <= n,
                n == self.items@.len(),
                spec_lookup_path(self.items@, str_views(comps@)) == match spec_lookup_path(
                    self.items@.skip(i as int),
                    str_views(comps@),
                ) {
                    Some(k) => Some(k + i),
                    None => None::<int>,
                },
            decreases n - i,
        {
            proof {
                assert(self.items@.skip(i as int)[0] == self.items@[i as int]);
                assert(self.items@.skip(i as int).drop_first() =~= self.items@.skip(i + 1));
            }
            if path_eq(&self.items[i].path, comps) {
                return Some(i);
            }
            i = i + 1;
        }
        None
    }

    /// The photos at or below a location path, or None for an empty path or
    /// one that no photo lies under.
    pub fn get_photos_for_location(&self, location_path: &str) -> (r: Option<Vec<PhotoItem>>)
        ensures
            ({
                let comps = query_components(location_path@);
                match r {
                    Some(v) => location_path@.len() > 0 && spec_lookup_path(self.items@, comps)
                        is Some && photo_views(v@) == photo_views(
                        self.items@[spec_lookup_path(self.items@, comps)->0].photos@,
                    ),
                    None => location_path@.len() == 0 || spec_lookup_path(self.items@, comps)
                        is None,
                }
            }),
    {
        if location_path.unicode_len() == 0 {
            return None;
        }
        let comps = split_and_trim_components(location_path);
        match self.find_path_entry(&comps) {
            Some(i) => {
                proof {
                    lemma_lookup_path_props(self.items@, str_views(comps@));
                }
                Some(duplicate_photos(&self.items[i].photos))
            },
            None => None,
        }
    }

    /// The immediate sub-location names at a path, ascending; an empty path
    /// yields the top-level names.
    pub fn get_sub_locations_for_location(&self, location_path: &str) -> (r: Vec<String>)
        ensures
            location_path@.len() == 0 ==> ((forall|i: int|
                0 <= i && i + 1 < r@.len() ==> lex_lt((#[trigger] r@[i])@, r@[i + 1]@)) && (forall|
                n: Seq<char>,
            |
                #[trigger] names_contain(r@, n) <==> paths_contain(
                    paths_of(self.items@),
                    seq![n],
                ))),
            location_path@.len() > 0 ==> match spec_lookup_path(
                self.items@,
                query_components(location_path@),
            ) {
                Some(i) => str_views(r@) == str_views(self.items@[i].sub_location_names@),
                None => r@.len() == 0,
            },
    {
        if location_path.unicode_len() == 0 {
            let n = self.items.len();
            let mut out: Vec<String> = Vec::new();
            let mut i: usize = 0;
            while i < n
                invariant
                    0 <= i <= n,
                    n == self.items@.len(),
                    forall|p: int|
                        0 <= p && p + 1 < out@.len() ==> lex_lt(
                            (#[trigger] out@[p])@,
                            out@[p + 1]@,
                        ),
                    forall|nm: Seq<char>|
                        #[trigger] names_contain(out@, nm) <==> exists|k: int|
                            0 <= k < i && str_views((#[trigger] self.items@[k]).path@) == seq![nm],
                decreases n - i,
            {
                let ghost prev = out@;
                let mut took = false;
                if self.items[i].path.len() == 1 {
                    let nm = self.items[i].path[0].clone();
                    insert_name_sorted(&mut out, nm);
                    took = true;
                    proof {
                        assert(str_views(self.items@[i as int].path@) =~= seq![
                            self.items@[i as int].path@[0]@,
                        ]);
                    }
                }
                proof {
                    assert forall|nm: Seq<char>| #[trigger] names_contain(out@, nm) <==> exists|
                        k: int,
                    | 0 <= k < i + 1 && str_views((#[trigger] self.items@[k]).path@) == seq![nm] by {
                        if names_contain(out@, nm) {
                            if took && nm == self.items@[i as int].path@[0]@ {
                                assert(str_views(self.items@[i as int].path@) == seq![nm]);
                            } else {
                                assert(names_contain(prev, nm));
                            }
                        }
                        if exists|k: int|
                            0 <= k < i + 1 && str_views((#[trigger] self.items@[k]).path@)
                                == seq![nm] {
                            let k = choose|k: int|
                                0 <= k < i + 1 && str_views((#[trigger] self.items@[k]).path@)
                                    == seq![nm];
                            if k < i {
                                assert(names_contain(prev, nm));
                            } else {
                                assert(str_views(self.items@[k].path@).len() == 1);
                                assert(self.items@[k].path@.len() == 1);
                                assert(str_views(self.items@[k].path@)[0] == nm);
                                assert(took);
                                assert(nm == self.items@[i as int].path@[0]@);
                            }
                        }
                    }
                }
                i = i + 1;
            }
            proof {
                assert forall|nm: Seq<char>| #[trigger] names_contain(out@, nm) <==> paths_contain(
                    paths_of(self.items@),
                    seq![nm],
                ) by {
                    if names_contain(out@, nm) {
                        let k = choose|k: int|
                            0 <= k < self.items@.len() && str_views(
                                (#[trigger] self.items@[k]).path@,
                            ) == seq![nm];
                        assert(str_views(paths_of(self.items@)[k]@) == seq![nm]);
                    }
                    if paths_contain(paths_of(self.items@), seq![nm]) {
                        let k = choose|k: int|
                            0 <= k < paths_of(self.items@).len() && str_views(
                                (#[trigger] paths_of(self.items@)[k])@,
                            ) == seq![nm];
                        assert(str_views(self.items@[k].path@) == seq![nm]);
                    }
                }
            }
            return out;
        }
        let comps = split_and_trim_components(location_path);
        match self.find_path_entry(&comps) {
            Some(i) => {
                proof {
                    lemma_lookup_path_props(self.items@, str_views(comps@));
                }
                duplicate_strings(&self.items[i].sub_location_names)
            },
            None => Vec::new(),
        }
    }
}

/// Every photo at a node of a built location index has that node's path as
/// a prefix of its own location components.
pub proof fn lemma_location_node_prefix(
    acc: &PhotoResultsLocationAccessor,
    photos: Seq<PhotoModel>,
    i: int,
    k: int,
)
    requires
        acc.built_from(photos),
        0 <= i < acc.items@.len(),
        0 <= k < photo_views(acc.items@[i].photos@).len(),
    ensures
        ({
            let p = photo_views(acc.items@[i].photos@)[k];
            &&& loc_eligible(p)
            &&& is_path_prefix(str_views(acc.items@[i].path@), photo_loc_components(p))
        }),
{
    let pfx = str_views(acc.items@[i].path@);
    let pred = |p: PhotoModel| spec_at_or_below(p, pfx);
    photos.lemma_filter_pred(pred, k);
}

} // verus!
