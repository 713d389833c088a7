//! The catalogue builder: turn baked descriptor items into photos, read the
//! capture time out of the primary image's EXIF data, and keep the photo
//! list sorted by time.
use vstd::prelude::*;
use vstd::multiset::Multiset;
use vstd::seq_lib::group_to_multiset_ensures;

use crate::file_helpers::{combine_paths, remove_prefix_from_path, spec_combine_paths};
use crate::photos_handler::item_file::{spec_get_or_empty, Item};
use crate::photos_handler::photo_item::{
    lemma_opt_time_le_total, lemma_opt_time_le_trans, opt_time_le, opt_time_le_exec, photo_views,
    spec_basic_date_time, spec_exif_date_time, DateTime, ItemType, PermissionType, PhotoItem,
    PhotoModel, SourceType,
};
use crate::photos_handler::photo_query_engine::PhotoQueryEngine;
use crate::photos_handler::photo_representations::PhotoRep;
use crate::str_dict::assoc_contains;
use crate::text::{parse_u32, spec_parse_u32, spec_split_once, split_once_char, str_eq};

verus! {

// ---------------------------------------------------------------------------
// EXIF through the exif crate
// ---------------------------------------------------------------------------
/// The display string of the DateTimeDigitized field of an image's EXIF
/// data, or nothing when the bytes hold none that can be read.
pub uninterp spec fn spec_exif_datetime_digitized(b: Seq<u8>) -> Option<Seq<char>>;

pub open spec fn opt_string_view(r: Option<String>) -> Option<Seq<char>> {
    match r {
        Some(s) => Some(s@),
        None => None,
    }
}

/// Relies on the exif crate: Reader::read_from_container parses the EXIF
/// data of an image held in memory, Exif::get_field looks up the
/// DateTimeDigitized tag of the primary image, and Field::display_value
/// formats it; the result depends on the bytes alone.
#[verifier::external_body]
fn exif_datetime_digitized(data: &Vec<u8>) -> (r: Option<String>)
    ensures
        opt_string_view(r) == spec_exif_datetime_digitized(data@),
{
    let mut cur = std::io::Cursor::new(data.as_slice());
    match exif::Reader::new().read_from_container(&mut cur) {
        Ok(ex) => match ex.get_field(exif::Tag::DateTimeDigitized, exif::In::PRIMARY) {
            Some(field) => Some(field.display_value().to_string()),
            None => None,
        },
        Err(_) => None,
    }
}

// ---------------------------------------------------------------------------
// Item attributes
// ---------------------------------------------------------------------------
/// The base path an item's images are relative to: its `basePath` attribute
/// (`.` meaning the descriptor's directory) made relative to the catalogue
/// root, or the root itself.
pub open spec fn spec_item_base_path(
    m: Seq<(Seq<char>, Seq<char>)>,
    photos_base: Seq<char>,
    dir: Seq<char>,
) -> Seq<char> {
    if assoc_contains(m, "basePath"@) {
        let v0 = spec_get_or_empty(m, "basePath"@);
        let v1 = if v0 == "."@ {
            dir
        } else {
            v0
        };
        if v1.len() >= photos_base.len() && v1.take(photos_base.len() as int) == photos_base {
            v1.skip(photos_base.len() as int)
        } else {
            v1
        }
    } else {
        photos_base
    }
}

pub open spec fn spec_res_key(i: int) -> Seq<char> {
    if i == 0 {
        "res-0"@
    } else if i == 1 {
        "res-1"@
    } else if i == 2 {
        "res-2"@
    } else if i == 3 {
        "res-3"@
    } else if i == 4 {
        "res-4"@
    } else {
        "res-5"@
    }
}

pub open spec fn spec_res_img_key(i: int) -> Seq<char> {
    if i == 0 {
        "res-0-img"@
    } else if i == 1 {
        "res-1-img"@
    } else if i == 2 {
        "res-2-img"@
    } else if i == 3 {
        "res-3-img"@
    } else if i == 4 {
        "res-4-img"@
    } else {
        "res-5-img"@
    }
}

/// A `"W,H"` dimension string's value, or nothing when malformed.
pub open spec fn spec_parse_dims(s: Seq<char>) -> Option<(u16, u16)> {
    match spec_split_once(s, ',') {
        Some(p) => match (spec_parse_u32(p.0), spec_parse_u32(p.1)) {
            (Some(w), Some(h)) => if w <= 65535 && h <= 65535 {
                Some((w as u16, h as u16))
            } else {
                None
            },
            _ => None,
        },
        None => None,
    }
}

/// The representations an item declares, walking `res-0` up to `res-5`: a
/// missing `res-{i}` stops the walk, an empty `res-{i}-img` skips the level,
/// and missing or malformed dimensions are recorded as zero.
pub open spec fn spec_collect_reps(
    m: Seq<(Seq<char>, Seq<char>)>,
    item_base: Seq<char>,
    i: int,
) -> Seq<(Seq<char>, u16, u16)>
    decreases 6 - i,
{
    if i >= 6 {
        Seq::<(Seq<char>, u16, u16)>::empty()
    } else if !assoc_contains(m, spec_res_key(i)) {
        Seq::<(Seq<char>, u16, u16)>::empty()
    } else {
        let img = spec_get_or_empty(m, spec_res_img_key(i));
        if img.len() == 0 {
            spec_collect_reps(m, item_base, i + 1)
        } else {
            let rel = spec_combine_paths(item_base, img);
            let dims = spec_parse_dims(spec_get_or_empty(m, spec_res_key(i)));
            let w = match dims {
                Some(d) => d.0,
                None => 0u16,
            };
            let h = match dims {
                Some(d) => d.1,
                None => 0u16,
            };
            seq![(rel, w, h)] + spec_collect_reps(m, item_base, i + 1)
        }
    }
}

/// Whether the item names a primary image to probe: `res-0` and a non-empty
/// `res-0-img`.
pub open spec fn spec_primary_defined(m: Seq<(Seq<char>, Seq<char>)>) -> bool {
    assoc_contains(m, "res-0-img"@) && assoc_contains(m, "res-0"@) && spec_get_or_empty(
        m,
        "res-0-img"@,
    ).len() > 0
}

/// The full path of the item's primary image, when one is named.
pub open spec fn spec_primary_image_full_path(
    m: Seq<(Seq<char>, Seq<char>)>,
    photos_base: Seq<char>,
    dir: Seq<char>,
) -> Option<Seq<char>> {
    if spec_primary_defined(m) {
        Some(
            spec_combine_paths(
                photos_base,
                spec_combine_paths(
                    spec_item_base_path(m, photos_base, dir),
                    spec_get_or_empty(m, "res-0-img"@),
                ),
            ),
        )
    } else {
        None
    }
}

pub open spec fn spec_source_of(s: Seq<char>) -> SourceType {
    if s == "slr"@ {
        SourceType::SLR
    } else if s == "drone"@ {
        SourceType::Drone
    } else {
        SourceType::Unknown
    }
}

pub open spec fn spec_item_type_of(s: Seq<char>) -> ItemType {
    if s == "still"@ {
        ItemType::Still
    } else {
        ItemType::Unknown
    }
}

pub open spec fn spec_permission_of(s: Seq<char>) -> PermissionType {
    if s == "authBasic"@ {
        PermissionType::AuthorisedBasic
    } else if s == "authAdvanced"@ {
        PermissionType::AuthorisedAdvanced
    } else if s == "private"@ {
        PermissionType::Private
    } else {
        PermissionType::Public
    }
}

/// The provisional time from the item's `date` attribute, if it parses.
pub open spec fn spec_provisional_time(m: Seq<(Seq<char>, Seq<char>)>) -> Option<DateTime> {
    if assoc_contains(m, "date"@) {
        spec_basic_date_time(spec_get_or_empty(m, "date"@))
    } else {
        None
    }
}

/// The time a built photo carries: the primary image's parsed
/// DateTimeDigitized when one is there, else the provisional time.
pub open spec fn spec_item_time(
    m: Seq<(Seq<char>, Seq<char>)>,
    primary: Option<Seq<u8>>,
) -> Option<DateTime> {
    let prov = spec_provisional_time(m);
    if spec_primary_defined(m) {
        match primary {
            Some(bytes) => match spec_exif_datetime_digitized(bytes) {
                Some(s) => match spec_exif_date_time(s) {
                    Some(t) => Some(t),
                    None => prov,
                },
                None => prov,
            },
            None => prov,
        }
    } else {
        prov
    }
}

/// The photo one baked item yields, or nothing when the item names no
/// primary image, its primary image is missing on disk, or no
/// representation can be collected.
pub open spec fn spec_process_item(
    m: Seq<(Seq<char>, Seq<char>)>,
    photos_base: Seq<char>,
    dir: Seq<char>,
    primary: Option<Seq<u8>>,
) -> Option<PhotoModel> {
    if !assoc_contains(m, "res-0-img"@) {
        None
    } else if spec_primary_defined(m) && primary is None {
        None
    } else {
        let item_base = spec_item_base_path(m, photos_base, dir);
        let reps = spec_collect_reps(m, item_base, 0);
        if reps.len() == 0 {
            None
        } else {
            Some(
                PhotoModel {
                    reps,
                    time_taken: spec_item_time(m, primary),
                    source_type: spec_source_of(spec_get_or_empty(m, "sourceType"@)),
                    item_type: spec_item_type_of(spec_get_or_empty(m, "itemType"@)),
                    permission_type: spec_permission_of(spec_get_or_empty(m, "permission"@)),
                    rating: 0u8,
                    geo_location_path: spec_get_or_empty(m, "geoLocationPath"@),
                },
            )
        }
    }
}

fn parse_dims(s: &str) -> (r: Option<(u16, u16)>)
    ensures
        r == spec_parse_dims(s@),
{
    match split_once_char(s, ',') {
        Some(p) => match parse_u32(p.0.as_str()) {
            Some(w) => match parse_u32(p.1.as_str()) {
                Some(h) => if w <= 65535 && h <= 65535 {
                    Some((w as u16, h as u16))
                } else {
                    None
                },
                None => None,
            },
            None => None,
        },
        None => None,
    }
}

fn item_base_path(photos_base_path: &str, item_file_directory_path: &str, item: &Item) -> (r:
    String)
    requires
        item.wf(),
    ensures
        r@ == spec_item_base_path(item.values@, photos_base_path@, item_file_directory_path@),
{
    if item.has_value("basePath") {
        let mut item_photo_base_path = item.get_value("basePath");
        if str_eq(item_photo_base_path.as_str(), ".") {
            item_photo_base_path = item_file_directory_path.to_owned();
        }
        remove_prefix_from_path(&mut item_photo_base_path, photos_base_path);
        item_photo_base_path
    } else {
        photos_base_path.to_owned()
    }
}

/// The full path of the item's primary image, for the caller to probe.
pub fn primary_image_full_path(
    photos_base_path: &str,
    item_file_directory_path: &str,
    item: &Item,
) -> (r: Option<String>)
    requires
        item.wf(),
    ensures
        opt_string_view(r) == spec_primary_image_full_path(
            item.values@,
            photos_base_path@,
            item_file_directory_path@,
        ),
{
    if !item.has_value("res-0-img") || !item.has_value("res-0") {
        return None;
    }
    let img = item.get_value("res-0-img");
    if img.as_str().unicode_len() == 0 {
        return None;
    }
    let base = item_base_path(photos_base_path, item_file_directory_path, item);
    Some(combine_paths(photos_base_path, combine_paths(base.as_str(), img.as_str()).as_str()))
}

/// The photo catalogue: every photo found under the root, and the query
/// engine that serves filtered views of them.
pub struct PhotoCatalogue {
    pub items: Vec<PhotoItem>,
    pub query_engine: PhotoQueryEngine,
}

impl PhotoCatalogue {
    pub fn new() -> (r: PhotoCatalogue)
        ensures
            r.items@.len() == 0,
            r.query_engine.cache_is_empty(),
            r.query_engine.wf_for(photo_views(r.items@)),
    {
        PhotoCatalogue { items: Vec::new(), query_engine: PhotoQueryEngine::new() }
    }

    /// Turn one baked item into a photo and append it; `primary_image_bytes`
    /// is the content of the item's primary image, or None when that file
    /// cannot be read.
    pub fn process_item_file_item(
        &mut self,
        photos_base_path: &String,
        item_file_directory_path: &String,
        item: &Item,
        primary_image_bytes: Option<&Vec<u8>>,
    )
        requires
            item.wf(),
        ensures
            final(self).query_engine == old(self).query_engine,
            ({
                let pb = match primary_image_bytes {
                    Some(b) => Some(b@),
                    None => None::<Seq<u8>>,
                };
                match spec_process_item(
                    item.values@,
                    photos_base_path@,
                    item_file_directory_path@,
                    pb,
                ) {
                    Some(model) => photo_views(final(self).items@) == photo_views(
                        old(self).items@,
                    ).push(model),
                    None => final(self).items@ == old(self).items@,
                }
            }),
    {
        let ghost m = item.values@;
        let ghost pb = match primary_image_bytes {
            Some(b) => Some(b@),
            None => None::<Seq<u8>>,
        };
        if !item.has_value("res-0-img") {
            return ;
        }
        // the drop rule: a named primary image that cannot be read drops the item
        let primary_defined = item.has_value("res-0") && item.get_value(
            "res-0-img",
        ).as_str().unicode_len() > 0;
        proof {
            assert(primary_defined == spec_primary_defined(m));
        }
        let have_bytes = match primary_image_bytes {
            Some(_) => true,
            None => false,
        };
        if primary_defined && !have_bytes {
            return ;
        }
        let item_photo_base_path = item_base_path(
            photos_base_path.as_str(),
            item_file_directory_path.as_str(),
            item,
        );
        let ghost base_v = spec_item_base_path(m, photos_base_path@, item_file_directory_path@);
        let mut new_item = PhotoItem::new();
        if item.has_value("date") {
            let d = item.get_value("date");
            new_item.set_basic_date(&d);
        }
        let ghost prov = spec_provisional_time(m);
        proof {
            assert(new_item@.time_taken == prov);
        }
        let st = item.get_value("sourceType");
        new_item.source_type = if str_eq(st.as_str(), "slr") {
            SourceType::SLR
        } else if str_eq(st.as_str(), "drone") {
            SourceType::Drone
        } else {
            SourceType::Unknown
        };
        let it = item.get_value("itemType");
        new_item.item_type = if str_eq(it.as_str(), "still") {
            ItemType::Still
        } else {
            ItemType::Unknown
        };
        let pt = item.get_value("permission");
        new_item.permission_type = if str_eq(pt.as_str(), "authBasic") {
            PermissionType::AuthorisedBasic
        } else if str_eq(pt.as_str(), "authAdvanced") {
            PermissionType::AuthorisedAdvanced
        } else if str_eq(pt.as_str(), "private") {
            PermissionType::Private
        } else {
            PermissionType::Public
        };
        let geo_location_path = item.get_value("geoLocationPath");
        if geo_location_path.as_str().unicode_len() > 0 {
            new_item.geo_location_path = geo_location_path;
        }
        proof {
            assert(new_item@.geo_location_path == spec_get_or_empty(m, "geoLocationPath"@));
        }
        let mut i: usize = 0;
        let mut stopped = false;
        while i < 6 && !stopped
            invariant
                0 <= i <= 6,
                item.wf(),
                m == item.values@,
                base_v == item_photo_base_path@,
                prov == spec_provisional_time(m),
                stopped ==> !assoc_contains(m, spec_res_key(i as int)),
                stopped ==> spec_collect_reps(m, base_v, i as int) =~= Seq::<
                    (Seq<char>, u16, u16),
                >::empty(),
                spec_collect_reps(m, base_v, 0) == new_item@.reps + spec_collect_reps(
                    m,
                    base_v,
                    i as int,
                ),
                i == 0 ==> new_item@.time_taken == prov,
                i > 0 ==> new_item@.time_taken == spec_item_time(m, pb),
                new_item@.source_type == spec_source_of(spec_get_or_empty(m, "sourceType"@)),
                new_item@.item_type == spec_item_type_of(spec_get_or_empty(m, "itemType"@)),
                new_item@.permission_type == spec_permission_of(spec_get_or_empty(m, "permission"@)),
                new_item@.rating == 0u8,
                new_item@.geo_location_path == spec_get_or_empty(m, "geoLocationPath"@),
                primary_defined == spec_primary_defined(m),
                primary_defined ==> pb is Some,
                (match primary_image_bytes {
                    Some(b) => Some(b@),
                    None => None::<Seq<u8>>,
                }) == pb,
            decreases 6 - i + (if stopped { 0int } else { 1int }),
        {
            let res_key: &str = if i == 0 {
                "res-0"
            } else if i == 1 {
                "res-1"
            } else if i == 2 {
                "res-2"
            } else if i == 3 {
                "res-3"
            } else if i == 4 {
                "res-4"
            } else {
                "res-5"
            };
            let res_img_key: &str = if i == 0 {
                "res-0-img"
            } else if i == 1 {
                "res-1-img"
            } else if i == 2 {
                "res-2-img"
            } else if i == 3 {
                "res-3-img"
            } else if i == 4 {
                "res-4-img"
            } else {
                "res-5-img"
            };
            proof {
                assert(res_key@ == spec_res_key(i as int));
                assert(res_img_key@ == spec_res_img_key(i as int));
            }
            if !item.has_value(res_key) {
                stopped = true;
            } else {
                let res_image_value = item.get_value(res_img_key);
                if res_image_value.as_str().unicode_len() > 0 {
                    let relative_image_path = combine_paths(
                        item_photo_base_path.as_str(),
                        res_image_value.as_str(),
                    );
                    if i == 0 {
                        match primary_image_bytes {
                            Some(bytes) => {
                                match exif_datetime_digitized(bytes) {
                                    Some(s) => {
                                        new_item.set_info_from_exif(s.as_str());
                                    },
                                    None => {},
                                }
                            },
                            None => {},
                        }
                        proof {
                            assert(new_item@.time_taken == spec_item_time(m, pb));
                        }
                    }
                    let item_res_value = item.get_value(res_key);
                    let dims = parse_dims(item_res_value.as_str());
                    let w = match dims {
                        Some(d) => d.0,
                        None => 0u16,
                    };
                    let h = match dims {
                        Some(d) => d.1,
                        None => 0u16,
                    };
                    let ghost reps_before = new_item@.reps;
                    new_item.representations.add_representation(
                        PhotoRep::new(relative_image_path.as_str(), w, h),
                    );
                    proof {
                        let rel = spec_combine_paths(
                            base_v,
                            spec_get_or_empty(m, spec_res_img_key(i as int)),
                        );
                        assert(new_item@.reps =~= reps_before.push((rel, w, h)));
                        assert(spec_collect_reps(m, base_v, i as int) == seq![(rel, w, h)]
                            + spec_collect_reps(m, base_v, i + 1));
                        assert(new_item@.reps + spec_collect_reps(m, base_v, i + 1)
                            =~= reps_before + spec_collect_reps(m, base_v, i as int));
                    }
                } else {
                    if i == 0 {
                        proof {
                            assert(!spec_primary_defined(m));
                            assert(new_item@.time_taken == spec_item_time(m, pb));
                        }
                    }
                }
                i = i + 1;
            }
        }
        proof {
            if !stopped {
                assert(spec_collect_reps(m, base_v, 6) =~= Seq::<(Seq<char>, u16, u16)>::empty());
            }
            assert(new_item@.reps == spec_collect_reps(m, base_v, 0));
            if i == 0 {
                assert(!assoc_contains(m, spec_res_key(0)));
                assert(!spec_primary_defined(m));
                assert(new_item@.time_taken == spec_item_time(m, pb));
            }
        }
        if new_item.representations.len() == 0 {
            return ;
        }
        let ghost before = photo_views(self.items@);
        self.items.push(new_item);
        proof {
            assert(photo_views(self.items@) =~= before.push(
                spec_process_item(m, photos_base_path@, item_file_directory_path@, pb)->0,
            ));
        }
    }
}

/// Sorted ascending by capture time, photos without a time first.
pub open spec fn spec_sorted_by_time(s: Seq<PhotoItem>) -> bool {
    forall|p: int, q: int|
        0 <= p < q < s.len() ==> opt_time_le(
            (#[trigger] s[p])@.time_taken,
            (#[trigger] s[q])@.time_taken,
        )
}

/// Sort photos ascending by time, keeping exactly the same photos.
fn sort_photos_by_time(items: &mut Vec<PhotoItem>)
    ensures
        spec_sorted_by_time(final(items)@),
        final(items)@.to_multiset() == old(items)@.to_multiset(),
        final(items)@.len() == old(items)@.len(),
{
    broadcast use group_to_multiset_ensures;

    let ghost orig = items@;
    let mut out: Vec<PhotoItem> = Vec::new();
    proof {
        assert(out@.to_multiset().add(items@.to_multiset()) =~= orig.to_multiset());
    }
    while items.len() > 0
        invariant
            out@.to_multiset().add(items@.to_multiset()) == orig.to_multiset(),
            out@.len() + items@.len() == orig.len(),
            spec_sorted_by_time(out@),
            forall|p: int, q: int|
                0 <= p < out@.len() && 0 <= q < items@.len() ==> opt_time_le(
                    (#[trigger] out@[p])@.time_taken,
                    (#[trigger] items@[q])@.time_taken,
                ),
        decreases items@.len(),
    {
        let n = items.len();
        let mut m: usize = 0;
        let mut i: usize = 1;
        while i < n
            invariant
                0 <= m < i <= n,
                n == items@.len(),
                forall|j: int|
                    0 <= j < i ==> opt_time_le(
                        items@[m as int]@.time_taken,
                        (#[trigger] items@[j])@.time_taken,
                    ),
            decreases n - i,
        {
            if opt_time_le_exec(&items[i].time_taken, &items[m].time_taken) {
                proof {
                    assert forall|j: int| 0 <= j < i + 1 implies opt_time_le(
                        items@[i as int]@.time_taken,
                        (#[trigger] items@[j])@.time_taken,
                    ) by {
                        if j < i {
                            lemma_opt_time_le_trans(
                                items@[i as int]@.time_taken,
                                items@[m as int]@.time_taken,
                                items@[j]@.time_taken,
                            );
                        }
                    }
                }
                m = i;
            } else {
                proof {
                    lemma_opt_time_le_total(
                        items@[i as int]@.time_taken,
                        items@[m as int]@.time_taken,
                    );
                }
            }
            i = i + 1;
        }
        let ghost items_before = items@;
        let ghost out_before = out@;
        let x = items.remove(m);
        out.push(x);
        proof {
            vstd::seq_lib::to_multiset_remove::<PhotoItem>(items_before, m as int);
            vstd::seq_lib::to_multiset_build::<PhotoItem>(out_before, x);
            assert(items_before.remove(m as int).to_multiset() =~= items_before.to_multiset()
                .remove(items_before[m as int]));
            assert(out_before.push(x).to_multiset() =~= out_before.to_multiset().insert(x));
            assert(items_before.to_multiset().count(x) > 0) by {
                vstd::seq_lib::to_multiset_contains::<PhotoItem>(items_before, x);
                assert(items_before.contains(x)) by {
                    assert(items_before[m as int] == x);
                }
            }
            assert(out@.to_multiset().add(items@.to_multiset()) =~= orig.to_multiset());
            assert forall|p: int, q: int|
                0 <= p < out@.len() && 0 <= q < items@.len() implies opt_time_le(
                (#[trigger] out@[p])@.time_taken,
                (#[trigger] items@[q])@.time_taken,
            ) by {
                if q < m {
                    assert(items@[q] == items_before[q]);
                } else {
                    assert(items@[q] == items_before[q + 1]);
                }
                if p < out@.len() - 1 {
                    assert(out@[p] == out_before[p]);
                } else {
                    assert(out@[p] == x);
                }
            }
            assert forall|p: int, q: int| 0 <= p < q < out@.len() implies opt_time_le(
                (#[trigger] out@[p])@.time_taken,
                (#[trigger] out@[q])@.time_taken,
            ) by {
                if q < out@.len() - 1 {
                    assert(out@[p] == out_before[p]);
                    assert(out@[q] == out_before[q]);
                } else {
                    assert(out@[p] == out_before[p]);
                    assert(out@[q] == x);
                    assert(items_before[m as int] == x);
                }
            }
        }
    }
    proof {
        assert(items@.to_multiset() =~= Multiset::<PhotoItem>::empty()) by {
            assert(items@ =~= Seq::<PhotoItem>::empty());
        }
        assert(out@.to_multiset() =~= orig.to_multiset());
    }
    *items = out;
}

impl PhotoCatalogue {
    /// Sort the catalogue ascending by capture time; photos without a time
    /// come first.
    pub fn sort_items(&mut self)
        ensures
            spec_sorted_by_time(final(self).items@),
            final(self).items@.to_multiset() == old(self).items@.to_multiset(),
            final(self).items@.len() == old(self).items@.len(),
            final(self).query_engine == old(self).query_engine,
    {
        sort_photos_by_time(&mut self.items);
    }

    /// Answer a query over this catalogue through the engine and its cache.
    pub fn query(
        &mut self,
        query_params: crate::photos_handler::photo_query_engine::QueryParams,
        build_flags: u32,
    ) -> (r: crate::photos_handler::photo_results::PhotoResults)
        requires
            old(self).query_engine.wf_for(photo_views(old(self).items@)),
        ensures
            final(self).items@ == old(self).items@,
            final(self).query_engine.wf_for(photo_views(final(self).items@)),
            r.wf(),
            photo_views(r.results@)
                == crate::photos_handler::photo_query_engine::spec_query_results(
                photo_views(old(self).items@),
                query_params,
            ),
            build_flags & 1u32 != 0 ==> r.date_accessor_built,
            build_flags & 1u32 == 0 && build_flags & 2u32 != 0 ==> r.location_accessor_built,
    {
        let items = crate::photos_handler::photo_item::duplicate_photos(&self.items);
        self.query_engine.get_photo_results(&items, query_params, build_flags)
    }
}

} // verus!
