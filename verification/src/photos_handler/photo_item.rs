//! One photograph's metadata: its representations, its local capture time,
//! the source, kind and permission classifications, and its location path.
use vstd::prelude::*;

use crate::photos_handler::photo_representations::PhotoRepresentations;

verus! {

/// A local calendar time, held as plain fields; month and day are 1-based.
#[derive(Clone, Copy, Debug, PartialEq, Eq, Structural)]
pub struct DateTime {
    pub year: i32,
    pub month: u32,
    pub day: u32,
    pub hour: u32,
    pub minute: u32,
    pub second: u32,
}

/// Chronological order: lexicographic over the fields.
pub open spec fn dt_le(a: DateTime, b: DateTime) -> bool {
    if a.year != b.year {
        a.year < b.year
    } else if a.month != b.month {
        a.month < b.month
    } else if a.day != b.day {
        a.day < b.day
    } else if a.hour != b.hour {
        a.hour < b.hour
    } else if a.minute != b.minute {
        a.minute < b.minute
    } else {
        a.second <= b.second
    }
}

/// Order on optional times: an absent time sorts before any present one.
pub open spec fn opt_time_le(a: Option<DateTime>, b: Option<DateTime>) -> bool {
    match (a, b) {
        (Option::None, _) => true,
        (Option::Some(_), Option::None) => false,
        (Option::Some(x), Option::Some(y)) => dt_le(x, y),
    }
}

pub proof fn lemma_opt_time_le_total(a: Option<DateTime>, b: Option<DateTime>)
    ensures
        opt_time_le(a, b) || opt_time_le(b, a),
{
}

pub proof fn lemma_opt_time_le_trans(a: Option<DateTime>, b: Option<DateTime>, c: Option<DateTime>)
    requires
        opt_time_le(a, b),
        opt_time_le(b, c),
    ensures
        opt_time_le(a, c),
{
}

pub fn opt_time_le_exec(a: &Option<DateTime>, b: &Option<DateTime>) -> (r: bool)
    ensures
        r == opt_time_le(*a, *b),
{
    match (a, b) {
        (Option::None, _) => true,
        (Option::Some(_), Option::None) => false,
        (Option::Some(x), Option::Some(y)) => {
            if x.year != y.year {
                x.year < y.year
            } else if x.month != y.month {
                x.month < y.month
            } else if x.day != y.day {
                x.day < y.day
            } else if x.hour != y.hour {
                x.hour < y.hour
            } else if x.minute != y.minute {
                x.minute < y.minute
            } else {
                x.second <= y.second
            }
        },
    }
}

/// What kind of camera a photo came from; each variant has its own bit so a
/// query mask can select several at once.
#[derive(Clone, Copy, Debug, PartialEq, Eq, Structural)]
pub enum SourceType {
    Unknown,
    SLR,
    Phone,
    Compact,
    Drone,
}

impl SourceType {
    pub open spec fn spec_bit(self) -> u32 {
        match self {
            SourceType::Unknown => 0,
            SourceType::SLR => 1,
            SourceType::Phone => 2,
            SourceType::Compact => 4,
            SourceType::Drone => 8,
        }
    }

    pub fn bit(self) -> (r: u32)
        ensures
            r == self.spec_bit(),
    {
        match self {
            SourceType::Unknown => 0,
            SourceType::SLR => 1,
            SourceType::Phone => 2,
            SourceType::Compact => 4,
            SourceType::Drone => 8,
        }
    }
}

/// What kind of item a photo is, bit-valued like `SourceType`.
#[derive(Clone, Copy, Debug, PartialEq, Eq, Structural)]
pub enum ItemType {
    Unknown,
    Still,
    Movie,
    Panorama,
    Spherical360,
    Timelapse,
}

impl ItemType {
    pub open spec fn spec_bit(self) -> u32 {
        match self {
            ItemType::Unknown => 0,
            ItemType::Still => 1,
            ItemType::Movie => 2,
            ItemType::Panorama => 4,
            ItemType::Spherical360 => 8,
            ItemType::Timelapse => 16,
        }
    }

    pub fn bit(self) -> (r: u32)
        ensures
            r == self.spec_bit(),
    {
        match self {
            ItemType::Unknown => 0,
            ItemType::Still => 1,
            ItemType::Movie => 2,
            ItemType::Panorama => 4,
            ItemType::Spherical360 => 8,
            ItemType::Timelapse => 16,
        }
    }
}

/// Who may see a photo, ordered by increasing restriction.
#[derive(Clone, Copy, Debug, PartialEq, Eq, Structural)]
pub enum PermissionType {
    Public,
    AuthorisedBasic,
    AuthorisedAdvanced,
    Private,
}

impl PermissionType {
    /// The position of this permission in the clearance order.
    pub open spec fn spec_level(self) -> u32 {
        match self {
            PermissionType::Public => 0,
            PermissionType::AuthorisedBasic => 1,
            PermissionType::AuthorisedAdvanced => 2,
            PermissionType::Private => 3,
        }
    }

    pub fn level(self) -> (r: u32)
        ensures
            r == self.spec_level(),
    {
        match self {
            PermissionType::Public => 0,
            PermissionType::AuthorisedBasic => 1,
            PermissionType::AuthorisedAdvanced => 2,
            PermissionType::Private => 3,
        }
    }
}

// ---------------------------------------------------------------------------
// Date parsing through chrono
// ---------------------------------------------------------------------------
/// What chrono's `NaiveDate::parse_from_str` with format `%Y-%m-%d` yields
/// on a given string: year, month and day, or nothing when the string is not
/// a valid calendar date in that shape.
pub uninterp spec fn spec_parse_date(s: Seq<char>) -> Option<(i32, u32, u32)>;

/// What chrono's `NaiveDateTime::parse_from_str` with format
/// `%Y-%m-%d %H:%M:%S` yields: year, month, day, hour, minute and second.
pub uninterp spec fn spec_parse_datetime(s: Seq<char>) -> Option<(i32, u32, u32, u32, u32, u32)>;

/// Relies on chrono's NaiveDate::parse_from_str (format "%Y-%m-%d") and the
/// Datelike accessors; chrono documents month and day as starting from 1,
/// and a parsed date is a valid calendar date.
#[verifier::external_body]
fn parse_date_ymd(s: &str) -> (r: Option<(i32, u32, u32)>)
    ensures
        r == spec_parse_date(s@),
        match r {
            Some(d) => 1 <= d.1 <= 12 && 1 <= d.2 <= 31,
            None => true,
        },
{
    match chrono::NaiveDate::parse_from_str(s, "%Y-%m-%d") {
        Ok(d) => Some(
            (chrono::Datelike::year(&d), chrono::Datelike::month(&d), chrono::Datelike::day(&d)),
        ),
        Err(_) => None,
    }
}

/// Relies on chrono's NaiveDateTime::parse_from_str (format
/// "%Y-%m-%d %H:%M:%S") and the Datelike/Timelike accessors; chrono
/// documents month and day as starting from 1, hour below 24 and minute and
/// second below 60.
#[verifier::external_body]
fn parse_datetime_full(s: &str) -> (r: Option<(i32, u32, u32, u32, u32, u32)>)
    ensures
        r == spec_parse_datetime(s@),
        match r {
            Some(d) => 1 <= d.1 <= 12 && 1 <= d.2 <= 31 && d.3 < 24 && d.4 < 60 && d.5 < 60,
            None => true,
        },
{
    match chrono::NaiveDateTime::parse_from_str(s, "%Y-%m-%d %H:%M:%S") {
        Ok(d) => Some(
            (
                chrono::Datelike::year(&d),
                chrono::Datelike::month(&d),
                chrono::Datelike::day(&d),
                chrono::Timelike::hour(&d),
                chrono::Timelike::minute(&d),
                chrono::Timelike::second(&d),
            ),
        ),
        Err(_) => None,
    }
}

/// The provisional time a descriptor `date` value stands for: the parsed
/// day at 01:01:01, or nothing when the value does not parse.
pub open spec fn spec_basic_date_time(s: Seq<char>) -> Option<DateTime> {
    match spec_parse_date(s) {
        Some(d) => Some(
            DateTime { year: d.0, month: d.1, day: d.2, hour: 1, minute: 1, second: 1 },
        ),
        None => None,
    }
}

/// The time an EXIF datetime string stands for, or nothing when malformed.
pub open spec fn spec_exif_date_time(s: Seq<char>) -> Option<DateTime> {
    match spec_parse_datetime(s) {
        Some(d) => Some(
            DateTime { year: d.0, month: d.1, day: d.2, hour: d.3, minute: d.4, second: d.5 },
        ),
        None => None,
    }
}

/// One photograph of the catalogue.
pub struct PhotoItem {
    pub representations: PhotoRepresentations,
    pub time_taken: Option<DateTime>,
    pub source_type: SourceType,
    pub item_type: ItemType,
    pub permission_type: PermissionType,
    pub rating: u8,
    pub geo_location_path: String,
}

/// The plain-values model of one photograph.
pub struct PhotoModel {
    pub reps: Seq<(Seq<char>, u16, u16)>,
    pub time_taken: Option<DateTime>,
    pub source_type: SourceType,
    pub item_type: ItemType,
    pub permission_type: PermissionType,
    pub rating: u8,
    pub geo_location_path: Seq<char>,
}

impl View for PhotoItem {
    type V = PhotoModel;

    open spec fn view(&self) -> PhotoModel {
        PhotoModel {
            reps: self.representations@,
            time_taken: self.time_taken,
            source_type: self.source_type,
            item_type: self.item_type,
            permission_type: self.permission_type,
            rating: self.rating,
            geo_location_path: self.geo_location_path@,
        }
    }
}

impl PhotoItem {
    pub fn new() -> (r: PhotoItem)
        ensures
            r@.reps =~= Seq::<(Seq<char>, u16, u16)>::empty(),
            r@.time_taken is None,
            r@.source_type == SourceType::Unknown,
            r@.item_type == ItemType::Unknown,
            r@.permission_type == PermissionType::Public,
            r@.rating == 0u8,
            r@.geo_location_path =~= Seq::<char>::empty(),
    {
        PhotoItem {
            representations: PhotoRepresentations::new(),
            time_taken: None,
            source_type: SourceType::Unknown,
            item_type: ItemType::Unknown,
            permission_type: PermissionType::Public,
            rating: 0,
            geo_location_path: String::new(),
        }
    }

    /// Set the provisional time from a descriptor `date` value; a value that
    /// does not parse leaves the time alone.
    pub fn set_basic_date(&mut self, date: &String)
        ensures
            final(self)@ == (PhotoModel {
                time_taken: match spec_basic_date_time(date@) {
                    Some(t) => Some(t),
                    None => old(self)@.time_taken,
                },
                ..old(self)@
            }),
    {
        match parse_date_ymd(date.as_str()) {
            Some(d) => {
                self.time_taken = Some(
                    DateTime { year: d.0, month: d.1, day: d.2, hour: 1, minute: 1, second: 1 },
                );
            },
            None => {},
        }
    }

    /// Overwrite the time from an EXIF datetime string; a malformed string
    /// leaves the provisional time in place.
    pub fn set_info_from_exif(&mut self, datetime: &str)
        ensures
            final(self)@ == (PhotoModel {
                time_taken: match spec_exif_date_time(datetime@) {
                    Some(t) => Some(t),
                    None => old(self)@.time_taken,
                },
                ..old(self)@
            }),
    {
        match parse_datetime_full(datetime) {
            Some(d) => {
                self.time_taken = Some(
                    DateTime {
                        year: d.0,
                        month: d.1,
                        day: d.2,
                        hour: d.3,
                        minute: d.4,
                        second: d.5,
                    },
                );
            },
            None => {},
        }
    }

    /// An equal copy of the photo.
    pub fn duplicate(&self) -> (r: PhotoItem)
        ensures
            r@ == self@,
    {
        PhotoItem {
            representations: self.representations.duplicate(),
            time_taken: self.time_taken,
            source_type: self.source_type,
            item_type: self.item_type,
            permission_type: self.permission_type,
            rating: self.rating,
            geo_location_path: self.geo_location_path.clone(),
        }
    }
}

/// The models of a sequence of photos.
pub open spec fn photo_views(s: Seq<PhotoItem>) -> Seq<PhotoModel> {
    Seq::new(s.len(), |i: int| s[i]@)
}

/// An equal copy of a photo list.
pub fn duplicate_photos(v: &Vec<PhotoItem>) -> (r: Vec<PhotoItem>)
    ensures
        photo_views(r@) == photo_views(v@),
{
    let n = v.len();
    let mut r: Vec<PhotoItem> = Vec::new();
    let mut i: usize = 0;
    while i < n
        invariant
            0 <= i <= n,
            n == v@.len(),
            r@.len() == i,
            forall|p: int| 0 <= p < i ==> (#[trigger] r@[p])@ == v@[p]@,
        decreases n - i,
    {
        r.push(v[i].duplicate());
        i = i + 1;
    }
    proof {
        assert(photo_views(r@) =~= photo_views(v@));
    }
    r
}

} // verus!
