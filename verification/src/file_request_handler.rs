//! The static-file site handler's configuration; serving the files is the
//! caller's I/O.
use vstd::prelude::*;

use crate::configuration::SiteConfig;
use crate::str_dict::assoc_get_or_empty;

verus! {

pub struct FileRequestHandler {
    pub base_path: String,
    pub allow_directory_listing: bool,
}

impl FileRequestHandler {
    pub fn new() -> (r: FileRequestHandler)
        ensures
            r.base_path@.len() == 0,
            !r.allow_directory_listing,
    {
        FileRequestHandler { base_path: String::new(), allow_directory_listing: false }
    }

    /// Take the base path from the site's configuration; configuring
    /// succeeds when one is set.
    pub fn configure(&mut self, site_config: &SiteConfig) -> (r: bool)
        requires
            site_config.wf(),
        ensures
            final(self).base_path@ == assoc_get_or_empty(site_config.params@, "basePath"@),
            final(self).allow_directory_listing == old(self).allow_directory_listing,
            r == (assoc_get_or_empty(site_config.params@, "basePath"@).len() > 0),
    {
        self.base_path = site_config.get_param("basePath");
        self.base_path.as_str().unicode_len() > 0
    }
}

} // verus!
