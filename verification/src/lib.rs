//! A verified photo-catalogue query and indexing engine, with the parsing
//! and text-building logic of the web server that hosts it.
pub mod configuration;
pub mod file_helpers;
pub mod file_request_handler;
pub mod photos_handler;
pub mod str_dict;
pub mod string_helpers;
pub mod sub_request_handler;
pub mod text;
pub mod uri_helpers;
pub mod web_request;
pub mod web_response_advanced;
pub mod web_response_generator;
