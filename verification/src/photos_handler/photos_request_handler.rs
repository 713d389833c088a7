//! The photos site handler's state: its paths, its flags and its catalogue.
//! Serving requests over the network is the caller's I/O.
use vstd::prelude::*;

use crate::photos_handler::photo_catalogue::PhotoCatalogue;

verus! {

pub struct PhotosRequestHandler {
    pub photos_base_path: String,
    pub main_web_content_path: String,
    pub lazy_photo_loading_enabled: bool,
    pub html_base_href: String,
    pub relative_path: String,
    pub photo_catalogue: PhotoCatalogue,
}

impl PhotosRequestHandler {
    pub fn new() -> (r: PhotosRequestHandler)
        ensures
            r.photos_base_path@.len() == 0,
            r.main_web_content_path@.len() == 0,
            r.lazy_photo_loading_enabled,
            r.html_base_href@.len() == 0,
            r.relative_path@.len() == 0,
            r.photo_catalogue.items@.len() == 0,
            r.photo_catalogue.query_engine.cache_is_empty(),
    {
        PhotosRequestHandler {
            photos_base_path: String::new(),
            main_web_content_path: String::new(),
            lazy_photo_loading_enabled: true,
            html_base_href: String::new(),
            relative_path: String::new(),
            photo_catalogue: PhotoCatalogue::new(),
        }
    }
}

} // verus!
