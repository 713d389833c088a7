//! The date index over a result set: photos grouped by year and by
//! year-and-month, with months listed in order of first appearance.
use vstd::prelude::*;

use crate::photos_handler::photo_item::{
    duplicate_photos, photo_views, DateTime, PhotoItem, PhotoModel,
};

verus! {

/// A year and a 0-based month.
#[derive(Clone, Copy, Debug, PartialEq, Eq, Structural)]
pub struct YearMonth {
    pub year: u32,
    pub month: u32,
}

impl YearMonth {
    pub fn new(year: u32, month: u32) -> (r: YearMonth)
        ensures
            r.year == year,
            r.month == month,
    {
        YearMonth { year, month }
    }
}

/// The year a time falls in, as the index keys it: the signed year
/// reinterpreted as unsigned, so a negative year wraps to a large key.
/// `lemma_date_keys_literal` gives the plain reading for the times the
/// library's date parsers produce.
pub open spec fn spec_year_key(t: DateTime) -> u32 {
    t.year as u32
}

/// The 0-based month of a time, as the index keys it: the month minus one,
/// clamped at zero should a month below 1 ever be constructed by hand.
pub open spec fn spec_month_key(t: DateTime) -> u32 {
    if t.month >= 1 {
        (t.month - 1) as u32
    } else {
        0
    }
}

/// For every time the library's date parsers produce — a month of at least
/// 1 and a non-negative year — the index keys are literally the year and
/// the 0-based month.
pub proof fn lemma_date_keys_literal(t: DateTime)
    requires
        t.month >= 1,
        t.year >= 0,
    ensures
        spec_year_key(t) == t.year as int,
        spec_month_key(t) == t.month - 1,
{
}

pub open spec fn spec_in_year(p: PhotoModel, y: u32) -> bool {
    match p.time_taken {
        Some(t) => spec_year_key(t) == y,
        None => false,
    }
}

pub open spec fn spec_in_year_month(p: PhotoModel, y: u32, m: u32) -> bool {
    match p.time_taken {
        Some(t) => spec_year_key(t) == y && spec_month_key(t) == m,
        None => false,
    }
}

/// The photos of a given year, in the result set's order.
pub open spec fn photos_for_year(photos: Seq<PhotoModel>, y: u32) -> Seq<PhotoModel> {
    photos.filter(|p: PhotoModel| spec_in_year(p, y))
}

/// The photos of a given year and 0-based month, in the result set's order.
pub open spec fn photos_for_year_month(photos: Seq<PhotoModel>, y: u32, m: u32) -> Seq<PhotoModel> {
    photos.filter(|p: PhotoModel| spec_in_year_month(p, y, m))
}

pub proof fn lemma_photos_for_year_snoc(s: Seq<PhotoModel>, p: PhotoModel, y: u32)
    ensures
        photos_for_year(s.push(p), y) == (if spec_in_year(p, y) {
            photos_for_year(s, y).push(p)
        } else {
            photos_for_year(s, y)
        }),
{
    let pred = |q: PhotoModel| spec_in_year(q, y);
    assert(s.push(p).drop_last() =~= s);
    assert(s.push(p).last() == p);
    assert(s.push(p).filter(pred) == if pred(p) {
        s.filter(pred).push(p)
    } else {
        s.filter(pred)
    }) by {
        reveal_with_fuel(Seq::filter, 2);
    }
}

pub proof fn lemma_photos_for_year_month_snoc(s: Seq<PhotoModel>, p: PhotoModel, y: u32, m: u32)
    ensures
        photos_for_year_month(s.push(p), y, m) == (if spec_in_year_month(p, y, m) {
            photos_for_year_month(s, y, m).push(p)
        } else {
            photos_for_year_month(s, y, m)
        }),
{
    let pred = |q: PhotoModel| spec_in_year_month(q, y, m);
    assert(s.push(p).drop_last() =~= s);
    assert(s.push(p).last() == p);
    assert(s.push(p).filter(pred) == if pred(p) {
        s.filter(pred).push(p)
    } else {
        s.filter(pred)
    }) by {
        reveal_with_fuel(Seq::filter, 2);
    }
}

/// The distinct 0-based months of year `y`, each at its first appearance.
pub open spec fn months_in_order(photos: Seq<PhotoModel>, y: u32) -> Seq<u32>
    decreases photos.len(),
{
    if photos.len() == 0 {
        Seq::<u32>::empty()
    } else {
        let rest = months_in_order(photos.drop_last(), y);
        let p = photos.last();
        if spec_in_year(p, y) && !rest.contains(spec_month_key(p.time_taken->0)) {
            rest.push(spec_month_key(p.time_taken->0))
        } else {
            rest
        }
    }
}

/// A month appears in the month list of year `y` exactly when that year and
/// month have at least one photo.
pub proof fn lemma_months_in_order_membership(photos: Seq<PhotoModel>, y: u32, m: u32)
    ensures
        months_in_order(photos, y).contains(m) <==> photos_for_year_month(photos, y, m).len() > 0,
    decreases photos.len(),
{
    let pred = |p: PhotoModel| spec_in_year_month(p, y, m);
    if photos.len() == 0 {
        assert(photos.filter(pred) =~= Seq::<PhotoModel>::empty());
    } else {
        let dl = photos.drop_last();
        let p = photos.last();
        lemma_months_in_order_membership(dl, y, m);
        let rest = months_in_order(dl, y);
        let months = months_in_order(photos, y);
        let dlf = dl.filter(pred);
        assert(photos.filter(pred) == if pred(p) {
            dlf.push(p)
        } else {
            dlf
        }) by {
            reveal_with_fuel(Seq::filter, 2);
        }
        if spec_in_year(p, y) {
            let mk = spec_month_key(p.time_taken->0);
            if !rest.contains(mk) {
                assert(months == rest.push(mk));
                if m == mk {
                    assert(pred(p));
                    assert(months[months.len() - 1] == mk);
                    assert(months.contains(m));
                    assert(photos.filter(pred).len() > 0);
                } else {
                    assert(!pred(p));
                    if months.contains(m) {
                        let k = choose|k: int| 0 <= k < months.len() && months[k] == m;
                        assert(k < rest.len());
                        assert(rest[k] == m);
                        assert(rest.contains(m));
                    }
                    if rest.contains(m) {
                        let k = choose|k: int| 0 <= k < rest.len() && rest[k] == m;
                        assert(months[k] == m);
                        assert(months.contains(m));
                    }
                }
            } else {
                assert(months == rest);
                if m == mk {
                    assert(months.contains(m));
                    assert(dlf.len() > 0);
                    assert(photos.filter(pred).len() > 0);
                } else {
                    assert(!pred(p));
                }
            }
        } else {
            assert(!pred(p));
            assert(months == rest);
        }
    }
}

/// One year of the index: its photos and its months in first-appearance order.
pub struct YearEntry {
    pub year: u32,
    pub photos: Vec<PhotoItem>,
    pub months: Vec<u32>,
}

/// One year-and-month bucket of the index.
pub struct MonthEntry {
    pub year: u32,
    pub month: u32,
    pub photos: Vec<PhotoItem>,
}

pub open spec fn years_contain(entries: Seq<YearEntry>, y: u32) -> bool {
    exists|i: int| 0 <= i < entries.len() && (#[trigger] entries[i]).year == y
}

pub open spec fn month_entries_contain(entries: Seq<MonthEntry>, y: u32, m: u32) -> bool {
    exists|i: int| 0 <= i < entries.len() && (#[trigger] entries[i]).year == y && entries[i].month == m
}

/// The date index over one result set.
pub struct PhotoResultsDateAccessor {
    pub years: Vec<YearEntry>,
    pub month_entries: Vec<MonthEntry>,
}

impl PhotoResultsDateAccessor {
    /// What it means for this index to be the date index of `photos`.
    pub open spec fn built_from(&self, photos: Seq<PhotoModel>) -> bool {
        &&& forall|i: int|
            0 <= i && i + 1 < self.years@.len() ==> (#[trigger] self.years@[i]).year
                < self.years@[i + 1].year
        &&& forall|i: int|
            0 <= i < self.years@.len() ==> photo_views((#[trigger] self.years@[i]).photos@)
                == photos_for_year(photos, self.years@[i].year)
        &&& forall|i: int|
            0 <= i < self.years@.len() ==> (#[trigger] self.years@[i]).months@ == months_in_order(
                photos,
                self.years@[i].year,
            )
        &&& forall|y: u32|
            photos_for_year(photos, y).len() > 0 <==> years_contain(self.years@, y)
        &&& forall|i: int|
            0 <= i < self.month_entries@.len() ==> photo_views(
                (#[trigger] self.month_entries@[i]).photos@,
            ) == photos_for_year_month(
                photos,
                self.month_entries@[i].year,
                self.month_entries@[i].month,
            )
        &&& forall|y: u32, m: u32|
            photos_for_year_month(photos, y, m).len() > 0 <==> month_entries_contain(
                self.month_entries@,
                y,
                m,
            )
    }

    pub fn new() -> (r: PhotoResultsDateAccessor)
        ensures
            r.years@.len() == 0,
            r.month_entries@.len() == 0,
            r.built_from(Seq::<PhotoModel>::empty()),
    {
        let r = PhotoResultsDateAccessor { years: Vec::new(), month_entries: Vec::new() };
        proof {
            assert forall|y: u32| !(photos_for_year(Seq::<PhotoModel>::empty(), y).len() > 0) by {
                assert(photos_for_year(Seq::<PhotoModel>::empty(), y) =~= Seq::<
                    PhotoModel,
                >::empty());
            }
            assert forall|y: u32, m: u32|
                !(photos_for_year_month(Seq::<PhotoModel>::empty(), y, m).len() > 0) by {
                assert(photos_for_year_month(Seq::<PhotoModel>::empty(), y, m) =~= Seq::<
                    PhotoModel,
                >::empty());
            }
        }
        r
    }
}

/// A photo of some year and month is a photo of that year.
pub proof fn lemma_year_month_subsumed(photos: Seq<PhotoModel>, y: u32, m: u32)
    requires
        photos_for_year_month(photos, y, m).len() > 0,
    ensures
        photos_for_year(photos, y).len() > 0,
    decreases photos.len(),
{
    let predym = |p: PhotoModel| spec_in_year_month(p, y, m);
    let predy = |p: PhotoModel| spec_in_year(p, y);
    if photos.len() == 0 {
        assert(photos.filter(predym) =~= Seq::<PhotoModel>::empty());
    } else {
        let dl = photos.drop_last();
        let p = photos.last();
        assert(photos.filter(predym) == if predym(p) {
            dl.filter(predym).push(p)
        } else {
            dl.filter(predym)
        }) by {
            reveal_with_fuel(Seq::filter, 2);
        }
        assert(photos.filter(predy) == if predy(p) {
            dl.filter(predy).push(p)
        } else {
            dl.filter(predy)
        }) by {
            reveal_with_fuel(Seq::filter, 2);
        }
        if predym(p) {
            assert(predy(p));
        } else {
            lemma_year_month_subsumed(dl, y, m);
        }
    }
}

fn year_key_of(t: &DateTime) -> (r: u32)
    ensures
        r == spec_year_key(*t),
{
    #[verifier::truncate]
    let y = t.year as u32;
    y
}

fn month_key_of(t: &DateTime) -> (r: u32)
    ensures
        r == spec_month_key(*t),
{
    if t.month >= 1 {
        t.month - 1
    } else {
        0
    }
}

fn vec_u32_contains(v: &Vec<u32>, x: u32) -> (r: bool)
    ensures
        r == v@.contains(x),
{
    let n = v.len();
    let mut i: usize = 0;
    while i < n
        invariant
            0 <= i <= n,
            n == v@.len(),
            forall|j: int| 0 <= j < i ==> v@[j] != x,
        decreases n - i,
    {
        if v[i] == x {
            return true;
        }
        i = i + 1;
    }
    false
}

fn lower_bound_u32(v: &Vec<u32>, x: u32) -> (j: usize)
    ensures
        j <= v@.len(),
        forall|p: int| 0 <= p < j ==> v@[p] < x,
        j < v@.len() ==> v@[j as int] >= x,
{
    let n = v.len();
    let mut j: usize = 0;
    while j < n
        invariant
            0 <= j <= n,
            n == v@.len(),
            forall|p: int| 0 <= p < j ==> v@[p] < x,
        decreases n - j,
    {
        if v[j] >= x {
            return j;
        }
        j = j + 1;
    }
    j
}

/// Insert into a strictly ascending list, keeping it so.
fn insert_u32_sorted(v: &mut Vec<u32>, x: u32)
    requires
        forall|i: int| 0 <= i && i + 1 < old(v)@.len() ==> #[trigger] old(v)@[i] < old(v)@[i + 1],
    ensures
        forall|i: int| 0 <= i && i + 1 < final(v)@.len() ==> #[trigger] final(v)@[i] < final(v)@[i + 1],
        forall|z: u32| #[trigger] final(v)@.contains(z) <==> (old(v)@.contains(z) || z == x),
{
    let ghost m = v@;
    let n = v.len();
    let j = lower_bound_u32(v, x);
    if j < n && v[j] == x {
        proof {
            assert(v@.contains(x));
            assert forall|z: u32| #[trigger] v@.contains(z) <==> (m.contains(z) || z == x) by {
                if z == x {
                    assert(v@.contains(z));
                }
            }
        }
        return ;
    }
    v.insert(j, x);
    proof {
        assert(v@ =~= m.take(j as int) + seq![x] + m.skip(j as int));
        assert forall|i: int| 0 <= i && i + 1 < v@.len() implies #[trigger] v@[i] < v@[i + 1] by {
            if i + 1 < j {
                assert(v@[i] == m[i]);
                assert(v@[i + 1] == m[i + 1]);
            } else if i + 1 == j {
                assert(v@[i] == m[i]);
                assert(v@[i + 1] == x);
            } else if i == j {
                assert(v@[i] == x);
                assert(v@[i + 1] == m[i]);
                assert(m[i] != x && m[i] >= x);
            } else {
                assert(v@[i] == m[i - 1]);
                assert(v@[i + 1] == m[i]);
            }
        }
        assert forall|z: u32| #[trigger] v@.contains(z) <==> (m.contains(z) || z == x) by {
            if v@.contains(z) {
                let k = choose|k: int| 0 <= k < v@.len() && v@[k] == z;
                if k < j {
                    assert(m[k] == z);
                    assert(m.contains(z));
                } else if k > j {
                    assert(m[k - 1] == z);
                    assert(m.contains(z));
                } else {
                    assert(z == x);
                }
            }
            if m.contains(z) {
                let k = choose|k: int| 0 <= k < m.len() && m[k] == z;
                if k < j {
                    assert(v@[k] == z);
                } else {
                    assert(v@[k + 1] == z);
                }
                assert(v@.contains(z));
            }
            if z == x {
                assert(v@[j as int] == x);
                assert(v@.contains(z));
            }
        }
    }
}

fn photo_in_year(p: &PhotoItem, y: u32) -> (r: bool)
    ensures
        r == spec_in_year(p@, y),
{
    match &p.time_taken {
        Some(t) => year_key_of(t) == y,
        None => false,
    }
}

fn photo_in_year_month(p: &PhotoItem, y: u32, m: u32) -> (r: bool)
    ensures
        r == spec_in_year_month(p@, y, m),
{
    match &p.time_taken {
        Some(t) => year_key_of(t) == y && month_key_of(t) == m,
        None => false,
    }
}

fn photo_month_key(p: &PhotoItem) -> (r: u32)
    requires
        p@.time_taken is Some,
    ensures
        r == spec_month_key(p@.time_taken->0),
{
    match &p.time_taken {
        Some(t) => month_key_of(t),
        None => 0,
    }
}

fn filter_photos_year(photos: &Vec<PhotoItem>, y: u32) -> (r: Vec<PhotoItem>)
    ensures
        photo_views(r@) == photos_for_year(photo_views(photos@), y),
{
    let ghost pv = photo_views(photos@);
    let n = photos.len();
    let mut out: Vec<PhotoItem> = Vec::new();
    let mut i: usize = 0;
    proof {
        assert(photos_for_year(pv.take(0), y) =~= Seq::<PhotoModel>::empty());
        assert(photo_views(out@) =~= photos_for_year(pv.take(0), y));
    }
    while i < n
        invariant
            0 <= i <= n,
            n == photos@.len(),
            pv == photo_views(photos@),
            photo_views(out@) == photos_for_year(pv.take(i as int), y),
        decreases n - i,
    {
        let ghost prev = photo_views(out@);
        proof {
            assert(pv.take(i + 1) =~= pv.take(i as int).push(pv[i as int]));
            assert(pv[i as int] == photos@[i as int]@);
            lemma_photos_for_year_snoc(pv.take(i as int), pv[i as int], y);
        }
        let matches_year = photo_in_year(&photos[i], y);
        if matches_year {
            out.push(photos[i].duplicate());
            proof {
                assert(photo_views(out@) =~= prev.push(pv[i as int]));
            }
        }
        i = i + 1;
    }
    proof {
        assert(pv.take(n as int) =~= pv);
    }
    out
}

fn filter_photos_year_month(photos: &Vec<PhotoItem>, y: u32, m: u32) -> (r: Vec<PhotoItem>)
    ensures
        photo_views(r@) == photos_for_year_month(photo_views(photos@), y, m),
{
    let ghost pv = photo_views(photos@);
    let n = photos.len();
    let mut out: Vec<PhotoItem> = Vec::new();
    let mut i: usize = 0;
    proof {
        assert(photos_for_year_month(pv.take(0), y, m) =~= Seq::<PhotoModel>::empty());
        assert(photo_views(out@) =~= photos_for_year_month(pv.take(0), y, m));
    }
    while i < n
        invariant
            0 <= i <= n,
            n == photos@.len(),
            pv == photo_views(photos@),
            photo_views(out@) == photos_for_year_month(pv.take(i as int), y, m),
        decreases n - i,
    {
        let ghost prev = photo_views(out@);
        proof {
            assert(pv.take(i + 1) =~= pv.take(i as int).push(pv[i as int]));
            assert(pv[i as int] == photos@[i as int]@);
            lemma_photos_for_year_month_snoc(pv.take(i as int), pv[i as int], y, m);
        }
        let matches_ym = photo_in_year_month(&photos[i], y, m);
        if matches_ym {
            out.push(photos[i].duplicate());
            proof {
                assert(photo_views(out@) =~= prev.push(pv[i as int]));
            }
        }
        i = i + 1;
    }
    proof {
        assert(pv.take(n as int) =~= pv);
    }
    out
}

fn months_for_year(photos: &Vec<PhotoItem>, y: u32) -> (r: Vec<u32>)
    ensures
        r@ == months_in_order(photo_views(photos@), y),
{
    let ghost pv = photo_views(photos@);
    let n = photos.len();
    let mut out: Vec<u32> = Vec::new();
    let mut i: usize = 0;
    proof {
        assert(out@ =~= months_in_order(pv.take(0), y));
    }
    while i < n
        invariant
            0 <= i <= n,
            n == photos@.len(),
            pv == photo_views(photos@),
            out@ == months_in_order(pv.take(i as int), y),
        decreases n - i,
    {
        proof {
            assert(pv.take(i + 1).drop_last() =~= pv.take(i as int));
            assert(pv.take(i + 1).last() == pv[i as int]);
            assert(pv[i as int] == photos@[i as int]@);
        }
        let in_year = photo_in_year(&photos[i], y);
        if in_year {
            let mk = photo_month_key(&photos[i]);
            if !vec_u32_contains(&out, mk) {
                out.push(mk);
            }
        }
        proof {
            assert(pv.take(i + 1).drop_last() =~= pv.take(i as int));
            assert(pv.take(i + 1).last() == pv[i as int]);
            assert(out@ =~= months_in_order(pv.take(i + 1), y));
        }
        i = i + 1;
    }
    proof {
        assert(pv.take(n as int) =~= pv);
    }
    out
}

pub open spec fn year_keys(entries: Seq<YearEntry>) -> Seq<u32> {
    Seq::new(entries.len(), |i: int| entries[i].year)
}

/// The first year entry with the given year, if any.
pub open spec fn spec_lookup_year(entries: Seq<YearEntry>, y: u32) -> Option<int>
    decreases entries.len(),
{
    if entries.len() == 0 {
        None
    } else if entries[0].year == y {
        Some(0)
    } else {
        match spec_lookup_year(entries.drop_first(), y) {
            Some(i) => Some(i + 1),
            None => None,
        }
    }
}

pub proof fn lemma_lookup_year_props(entries: Seq<YearEntry>, y: u32)
    ensures
        match spec_lookup_year(entries, y) {
            Some(i) => 0 <= i < entries.len() && entries[i].year == y,
            None => !years_contain(entries, y),
        },
    decreases entries.len(),
{
    if entries.len() > 0 {
        lemma_lookup_year_props(entries.drop_first(), y);
        if entries[0].year != y {
            match spec_lookup_year(entries.drop_first(), y) {
                Some(i) => {
                    assert(entries.drop_first()[i] == entries[i + 1]);
                },
                None => {
                    if years_contain(entries, y) {
                        let k = choose|k: int|
                            0 <= k < entries.len() && (#[trigger] entries[k]).year == y;
                        assert(entries.drop_first()[k - 1] == entries[k]);
                        assert(years_contain(entries.drop_first(), y));
                    }
                },
            }
        }
    }
}

/// The first month entry with the given year and month, if any.
pub open spec fn spec_lookup_month(entries: Seq<MonthEntry>, y: u32, m: u32) -> Option<int>
    decreases entries.len(),
{
    if entries.len() == 0 {
        None
    } else if entries[0].year == y && entries[0].month == m {
        Some(0)
    } else {
        match spec_lookup_month(entries.drop_first(), y, m) {
            Some(i) => Some(i + 1),
            None => None,
        }
    }
}

pub proof fn lemma_lookup_month_props(entries: Seq<MonthEntry>, y: u32, m: u32)
    ensures
        match spec_lookup_month(entries, y, m) {
            Some(i) => 0 <= i < entries.len() && entries[i].year == y && entries[i].month == m,
            None => !month_entries_contain(entries, y, m),
        },
    decreases entries.len(),
{
    if entries.len() > 0 {
        lemma_lookup_month_props(entries.drop_first(), y, m);
        if !(entries[0].year == y && entries[0].month == m) {
            match spec_lookup_month(entries.drop_first(), y, m) {
                Some(i) => {
                    assert(entries.drop_first()[i] == entries[i + 1]);
                },
                None => {
                    if month_entries_contain(entries, y, m) {
                        let k = choose|k: int|
                            0 <= k < entries.len() && (#[trigger] entries[k]).year == y
                                && entries[k].month == m;
                        assert(entries.drop_first()[k - 1] == entries[k]);
                        assert(month_entries_contain(entries.drop_first(), y, m));
                    }
                },
            }
        }
    }
}

impl PhotoResultsDateAccessor {
    /// Build the index over the given photos; photos without a time are left
    /// out.
    pub fn build(&mut self, photos: &Vec<PhotoItem>)
        ensures
            final(self).built_from(photo_views(photos@)),
    {
        let ghost pv = photo_views(photos@);
        let n = photos.len();
        // Pass 1: the distinct years, ascending.
        let mut year_list: Vec<u32> = Vec::new();
        let mut i: usize = 0;
        proof {
            assert forall|z: u32| !(photos_for_year(pv.take(0), z).len() > 0) by {
                assert(pv.take(0).filter(|p: PhotoModel| spec_in_year(p, z)) =~= Seq::<
                    PhotoModel,
                >::empty());
            }
        }
        while i < n
            invariant
                0 <= i <= n,
                n == photos@.len(),
                pv == photo_views(photos@),
                forall|p: int|
                    0 <= p && p + 1 < year_list@.len() ==> #[trigger] year_list@[p] < year_list@[p
                        + 1],
                forall|z: u32|
                    year_list@.contains(z) <==> photos_for_year(pv.take(i as int), z).len() > 0,
            decreases n - i,
        {
            proof {
                assert(pv.take(i + 1).drop_last() =~= pv.take(i as int));
                assert(pv.take(i + 1).last() == pv[i as int]);
                assert(pv[i as int] == photos@[i as int]@);
            }
            let ghost old_list = year_list@;
            let mut added: Option<u32> = None;
            let p_ref = &photos[i];
            match &p_ref.time_taken {
                Some(t) => {
                    let yk = year_key_of(t);
                    insert_u32_sorted(&mut year_list, yk);
                    added = Some(yk);
                },
                None => {},
            }
            proof {
                assert(pv.take(i + 1) =~= pv.take(i as int).push(pv[i as int]));
                assert forall|z: u32|
                    year_list@.contains(z) <==> photos_for_year(pv.take(i + 1), z).len() > 0 by {
                    lemma_photos_for_year_snoc(pv.take(i as int), pv[i as int], z);
                    match added {
                        Some(yk) => {
                            assert(year_list@.contains(z) <==> (old_list.contains(z) || z == yk));
                        },
                        None => {},
                    }
                }
            }
            i = i + 1;
        }
        proof {
            assert(pv.take(n as int) =~= pv);
        }
        // Pass 2: one entry per year.
        let mut years: Vec<YearEntry> = Vec::new();
        let yn = year_list.len();
        let mut a: usize = 0;
        while a < yn
            invariant
                0 <= a <= yn,
                yn == year_list@.len(),
                pv == photo_views(photos@),
                years@.len() == a,
                forall|p: int| 0 <= p < a ==> (#[trigger] years@[p]).year == year_list@[p],
                forall|p: int|
                    0 <= p < a ==> photo_views((#[trigger] years@[p]).photos@) == photos_for_year(
                        pv,
                        years@[p].year,
                    ),
                forall|p: int|
                    0 <= p < a ==> (#[trigger] years@[p]).months@ == months_in_order(
                        pv,
                        years@[p].year,
                    ),
            decreases yn - a,
        {
            let y = year_list[a];
            let bucket = filter_photos_year(photos, y);
            let months = months_for_year(photos, y);
            years.push(YearEntry { year: y, photos: bucket, months });
            a = a + 1;
        }
        // Pass 3: one entry per year and month.
        let mut month_entries: Vec<MonthEntry> = Vec::new();
        let mut a2: usize = 0;
        while a2 < yn
            invariant
                0 <= a2 <= yn,
                yn == years@.len(),
                pv == photo_views(photos@),
                forall|p: int|
                    0 <= p < yn ==> (#[trigger] years@[p]).months@ == months_in_order(
                        pv,
                        years@[p].year,
                    ),
                forall|p: int|
                    0 <= p < month_entries@.len() ==> photo_views(
                        (#[trigger] month_entries@[p]).photos@,
                    ) == photos_for_year_month(
                        pv,
                        month_entries@[p].year,
                        month_entries@[p].month,
                    ),
                forall|p: int|
                    0 <= p < month_entries@.len() ==> months_in_order(
                        pv,
                        (#[trigger] month_entries@[p]).year,
                    ).contains(month_entries@[p].month),
                forall|p: int, q: int|
                    0 <= p < a2 && 0 <= q < (#[trigger] years@[p]).months@.len()
                        ==> month_entries_contain(
                        month_entries@,
                        years@[p].year,
                        #[trigger] years@[p].months@[q],
                    ),
            decreases yn - a2,
        {
            let y = years[a2].year;
            let mn = years[a2].months.len();
            let mut b: usize = 0;
            while b < mn
                invariant
                    0 <= b <= mn,
                    0 <= a2 < yn,
                    yn == years@.len(),
                    mn == years@[a2 as int].months@.len(),
                    y == years@[a2 as int].year,
                    pv == photo_views(photos@),
                    forall|p: int|
                        0 <= p < yn ==> (#[trigger] years@[p]).months@ == months_in_order(
                            pv,
                            years@[p].year,
                        ),
                    forall|p: int|
                        0 <= p < month_entries@.len() ==> photo_views(
                            (#[trigger] month_entries@[p]).photos@,
                        ) == photos_for_year_month(
                            pv,
                            month_entries@[p].year,
                            month_entries@[p].month,
                        ),
                    forall|p: int|
                        0 <= p < month_entries@.len() ==> months_in_order(
                            pv,
                            (#[trigger] month_entries@[p]).year,
                        ).contains(month_entries@[p].month),
                    forall|p: int, q: int|
                        0 <= p < a2 && 0 <= q < (#[trigger] years@[p]).months@.len()
                            ==> month_entries_contain(
                            month_entries@,
                            years@[p].year,
                            #[trigger] years@[p].months@[q],
                        ),
                    forall|q: int|
                        0 <= q < b ==> month_entries_contain(
                            month_entries@,
                            y,
                            #[trigger] years@[a2 as int].months@[q],
                        ),
                decreases mn - b,
            {
                let m = years[a2].months[b];
                let ghost before = month_entries@;
                let bucket = filter_photos_year_month(photos, y, m);
                month_entries.push(MonthEntry { year: y, month: m, photos: bucket });
                proof {
                    assert(month_entries@.last().year == y && month_entries@.last().month == m);
                    assert(month_entries@[month_entries@.len() - 1].year == y);
                    assert forall|p: int, q: int|
                        0 <= p < a2 && 0 <= q < (#[trigger] years@[p]).months@.len()
                            implies month_entries_contain(
                        month_entries@,
                        years@[p].year,
                        #[trigger] years@[p].months@[q],
                    ) by {
                        assert(month_entries_contain(before, years@[p].year, years@[p].months@[q]));
                        let k = choose|k: int|
                            0 <= k < before.len() && (#[trigger] before[k]).year == years@[p].year
                                && before[k].month == years@[p].months@[q];
                        assert(month_entries@[k] == before[k]);
                    }
                    assert forall|q: int| 0 <= q < b + 1 implies month_entries_contain(
                        month_entries@,
                        y,
                        #[trigger] years@[a2 as int].months@[q],
                    ) by {
                        if q < b {
                            let k = choose|k: int|
                                0 <= k < before.len() && (#[trigger] before[k]).year == y
                                    && before[k].month == years@[a2 as int].months@[q];
                            assert(month_entries@[k] == before[k]);
                        } else {
                            assert(month_entries@[month_entries@.len() - 1].year == y
                                && month_entries@[month_entries@.len() - 1].month == m);
                        }
                    }
                }
                b = b + 1;
            }
            a2 = a2 + 1;
        }
        self.years = years;
        self.month_entries = month_entries;
        proof {
            assert forall|z: u32|
                photos_for_year(pv, z).len() > 0 <==> years_contain(self.years@, z) by {
                if photos_for_year(pv, z).len() > 0 {
                    assert(year_list@.contains(z));
                    let k = choose|k: int| 0 <= k < year_list@.len() && year_list@[k] == z;
                    assert(self.years@[k].year == z);
                }
                if years_contain(self.years@, z) {
                    let k = choose|k: int|
                        0 <= k < self.years@.len() && (#[trigger] self.years@[k]).year == z;
                    assert(year_list@[k] == z);
                    assert(year_list@.contains(z));
                }
            }
            assert forall|y: u32, m: u32|
                photos_for_year_month(pv, y, m).len() > 0 <==> month_entries_contain(
                    self.month_entries@,
                    y,
                    m,
                ) by {
                if photos_for_year_month(pv, y, m).len() > 0 {
                    lemma_year_month_subsumed(pv, y, m);
                    assert(year_list@.contains(y));
                    let k = choose|k: int| 0 <= k < year_list@.len() && year_list@[k] == y;
                    assert(self.years@[k].year == y);
                    lemma_months_in_order_membership(pv, y, m);
                    assert(self.years@[k].months@.contains(m));
                    let q = choose|q: int|
                        0 <= q < self.years@[k].months@.len() && self.years@[k].months@[q] == m;
                    assert(month_entries_contain(self.month_entries@, y, m));
                }
                if month_entries_contain(self.month_entries@, y, m) {
                    let k = choose|k: int|
                        0 <= k < self.month_entries@.len() && (#[trigger] self.month_entries@[k]).year
                            == y && self.month_entries@[k].month == m;
                    lemma_months_in_order_membership(pv, y, m);
                }
            }
        }
    }

    /// The years present, ascending.
    pub fn get_list_of_years(&self) -> (r: Vec<u32>)
        ensures
            r@ == year_keys(self.years@),
    {
        let n = self.years.len();
        let mut out: Vec<u32> = Vec::new();
        let mut i: usize = 0;
        while i < n
            invariant
                0 <= i <= n,
                n == self.years@.len(),
                out@.len() == i,
                forall|p: int| 0 <= p < i ==> out@[p] == (#[trigger] self.years@[p]).year,
            decreases n - i,
        {
            out.push(self.years[i].year);
            i = i + 1;
        }
        proof {
            assert(out@ =~= year_keys(self.years@));
        }
        out
    }

    fn find_year_entry(&self, year: u32) -> (r: Option<usize>)
        ensures
            match r {
                Some(i) => spec_lookup_year(self.years@, year) == Some(i as int),
                None => spec_lookup_year(self.years@, year) is None,
            },
    {
        let n = self.years.len();
        let mut i: usize = 0;
        proof {
            assert(self.years@.skip(0) =~= self.years@);
        }
        while i < n
            invariant
                0 <= i <= n,
                n == self.years@.len(),
                spec_lookup_year(self.years@, year) == match spec_lookup_year(
                    self.years@.skip(i as int),
                    year,
                ) {
                    Some(k) => Some(k + i),
                    None => None::<int>,
                },
            decreases n - i,
        {
            proof {
                assert(self.years@.skip(i as int)[0] == self.years@[i as int]);
                assert(self.years@.skip(i as int).drop_first() =~= self.years@.skip(i + 1));
            }
            if self.years[i].year == year {
                return Some(i);
            }
            i = i + 1;
        }
        None
    }

    /// The 0-based months of a year, in first-appearance order; an unknown
    /// year yields an empty list.
    pub fn get_list_of_months_for_year(&self, year: u32) -> (r: Vec<u32>)
        ensures
            match spec_lookup_year(self.years@, year) {
                Some(i) => r@ == self.years@[i].months@,
                None => r@.len() == 0,
            },
    {
        match self.find_year_entry(year) {
            Some(i) => {
                proof {
                    lemma_lookup_year_props(self.years@, year);
                }
                let months = &self.years[i].months;
                let mn = months.len();
                let mut out: Vec<u32> = Vec::new();
                let mut b: usize = 0;
                while b < mn
                    invariant
                        0 <= b <= mn,
                        mn == months@.len(),
                        out@ =~= months@.take(b as int),
                    decreases mn - b,
                {
                    out.push(months[b]);
                    proof {
                        assert(out@ =~= months@.take(b + 1));
                    }
                    b = b + 1;
                }
                proof {
                    assert(months@.take(mn as int) =~= months@);
                }
                out
            },
            None => Vec::new(),
        }
    }

    /// The photos of a year, in the result set's order; an unknown year
    /// yields an empty list.
    pub fn get_photos_for_year(&self, year: u32) -> (r: Vec<PhotoItem>)
        ensures
            match spec_lookup_year(self.years@, year) {
                Some(i) => photo_views(r@) == photo_views(self.years@[i].photos@),
                None => r@.len() == 0,
            },
    {
        match self.find_year_entry(year) {
            Some(i) => {
                proof {
                    lemma_lookup_year_props(self.years@, year);
                }
                duplicate_photos(&self.years[i].photos)
            },
            None => Vec::new(),
        }
    }

    fn find_month_entry(&self, year: u32, month: u32) -> (r: Option<usize>)
        ensures
            match r {
                Some(i) => spec_lookup_month(self.month_entries@, year, month) == Some(i as int),
                None => spec_lookup_month(self.month_entries@, year, month) is None,
            },
    {
        let n = self.month_entries.len();
        let mut i: usize = 0;
        proof {
            assert(self.month_entries@.skip(0) =~= self.month_entries@);
        }
        while i < n
            invariant
                0 <= i <= n,
                n == self.month_entries@.len(),
                spec_lookup_month(self.month_entries@, year, month) == match spec_lookup_month(
                    self.month_entries@.skip(i as int),
                    year,
                    month,
                ) {
                    Some(k) => Some(k + i),
                    None => None::<int>,
                },
            decreases n - i,
        {
            proof {
                assert(self.month_entries@.skip(i as int)[0] == self.month_entries@[i as int]);
                assert(self.month_entries@.skip(i as int).drop_first() =~= self.month_entries@.skip(
                    i + 1,
                ));
            }
            if self.month_entries[i].year == year && self.month_entries[i].month == month {
                return Some(i);
            }
            i = i + 1;
        }
        None
    }

    /// The photos of a year and 0-based month, in the result set's order; an
    /// unknown pair yields an empty list.
    pub fn get_photos_for_month_year(&self, year: u32, month: u32) -> (r: Vec<PhotoItem>)
        ensures
            match spec_lookup_month(self.month_entries@, year, month) {
                Some(i) => photo_views(r@) == photo_views(self.month_entries@[i].photos@),
                None => r@.len() == 0,
            },
    {
        match self.find_month_entry(year, month) {
            Some(i) => {
                proof {
                    lemma_lookup_month_props(self.month_entries@, year, month);
                }
                duplicate_photos(&self.month_entries[i].photos)
            },
            None => Vec::new(),
        }
    }
}

/// Every photo in a year-month bucket of a built date index falls in that
/// bucket's year and month.
pub proof fn lemma_date_bucket_member_matches(
    acc: &PhotoResultsDateAccessor,
    photos: Seq<PhotoModel>,
    i: int,
    k: int,
)
    requires
        acc.built_from(photos),
        0 <= i < acc.month_entries@.len(),
        0 <= k < photo_views(acc.month_entries@[i].photos@).len(),
    ensures
        ({
            let p = photo_views(acc.month_entries@[i].photos@)[k];
            &&& p.time_taken is Some
            &&& spec_year_key(p.time_taken->0) == acc.month_entries@[i].year
            &&& spec_month_key(p.time_taken->0) == acc.month_entries@[i].month
        }),
{
    let y = acc.month_entries@[i].year;
    let m = acc.month_entries@[i].month;
    let pred = |p: PhotoModel| spec_in_year_month(p, y, m);
    photos.lemma_filter_pred(pred, k);
    assert(pred(photos.filter(pred)[k]));
}

} // verus!
