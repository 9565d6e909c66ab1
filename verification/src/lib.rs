//! The request-to-resource engine of a static file server: it maps a URL path
//! and the request's headers to the files that may answer it, and decides,
//! from what the file system reports of them, the response to send.
pub mod available_encodings;
pub mod config;
pub mod container;
pub mod content_type;
pub mod laws;
pub mod path;
pub mod range;
pub mod response_paths;
pub mod responses;
pub mod service;
pub mod text;
