//! One query's result set: the matching photos and the two lazily built
//! indices over them.
use vstd::prelude::*;

use crate::photos_handler::photo_item::{duplicate_photos, photo_views, PhotoItem};
use crate::photos_handler::photo_results_date_accessor::PhotoResultsDateAccessor;
use crate::photos_handler::photo_results_location_accessor::PhotoResultsLocationAccessor;

verus! {

/// The photos one query matched, with a date index and a location index,
/// each built at most once, on demand.
pub struct PhotoResults {
    pub have_results: bool,
    pub results: Vec<PhotoItem>,
    pub date_accessor_built: bool,
    pub date_accessor: PhotoResultsDateAccessor,
    pub location_accessor_built: bool,
    pub location_accessor: PhotoResultsLocationAccessor,
}

impl PhotoResults {
    /// A built index always indexes exactly this result set's photos.
    pub open spec fn wf(&self) -> bool {
        &&& self.date_accessor_built ==> self.date_accessor.built_from(photo_views(self.results@))
        &&& self.location_accessor_built ==> self.location_accessor.built_from(
            photo_views(self.results@),
        )
    }

    pub fn new() -> (r: PhotoResults)
        ensures
            r.results@.len() == 0,
            !r.have_results,
            !r.date_accessor_built,
            !r.location_accessor_built,
            r.wf(),
    {
        PhotoResults {
            have_results: false,
            results: Vec::new(),
            date_accessor_built: false,
            date_accessor: PhotoResultsDateAccessor::new(),
            location_accessor_built: false,
            location_accessor: PhotoResultsLocationAccessor::new(),
        }
    }

    /// The photos of this result set.
    pub fn photos(&self) -> (r: &Vec<PhotoItem>)
        ensures
            r@ == self.results@,
    {
        &self.results
    }

    /// Build the date index if it has not been built yet.
    pub fn check_date_accessor_is_built(&mut self)
        requires
            old(self).wf(),
        ensures
            final(self).wf(),
            final(self).date_accessor_built,
            final(self).results@ == old(self).results@,
            final(self).have_results == old(self).have_results,
            final(self).location_accessor_built == old(self).location_accessor_built,
            final(self).location_accessor == old(self).location_accessor,
            old(self).date_accessor_built ==> *final(self) == *old(self),
    {
        if self.date_accessor_built {
            return ;
        }
        let photos = duplicate_photos(&self.results);
        self.date_accessor.build(&photos);
        self.date_accessor_built = true;
    }

    /// Build the location index if it has not been built yet.
    pub fn check_location_accessor_is_built(&mut self)
        requires
            old(self).wf(),
        ensures
            final(self).wf(),
            final(self).location_accessor_built,
            final(self).results@ == old(self).results@,
            final(self).have_results == old(self).have_results,
            final(self).date_accessor_built == old(self).date_accessor_built,
            final(self).date_accessor == old(self).date_accessor,
            old(self).location_accessor_built ==> *final(self) == *old(self),
    {
        if self.location_accessor_built {
            return ;
        }
        let photos = duplicate_photos(&self.results);
        self.location_accessor.build(&photos);
        self.location_accessor_built = true;
    }

    /// A copy of this result set's photos, with fresh unbuilt indices.
    pub fn duplicate(&self) -> (r: PhotoResults)
        ensures
            photo_views(r.results@) == photo_views(self.results@),
            r.have_results == self.have_results,
            !r.date_accessor_built,
            !r.location_accessor_built,
            r.wf(),
    {
        PhotoResults {
            have_results: self.have_results,
            results: duplicate_photos(&self.results),
            date_accessor_built: false,
            date_accessor: PhotoResultsDateAccessor::new(),
            location_accessor_built: false,
            location_accessor: PhotoResultsLocationAccessor::new(),
        }
    }
}

} // verus!
