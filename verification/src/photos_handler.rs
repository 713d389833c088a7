//! The photo-catalogue core: descriptor parsing, the catalogue builder, the
//! query engine and the two derived accessors.
pub mod item_file;
pub mod photo_catalogue;
pub mod photo_item;
pub mod photo_query_engine;
pub mod photo_representations;
pub mod photo_results;
pub mod photos_common;
pub mod photos_html_helpers;
pub mod photos_request_handler;
pub mod photo_results_date_accessor;
pub mod photo_results_location_accessor;
