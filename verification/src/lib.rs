//! A verified core for an HTTP request sink: every inbound request is
//! recorded as a file whose name encodes the capture time, the HTTP method
//! and the request path, and a companion reader lists and re-parses those
//! records for inspection.

pub mod assoc;
pub mod config;
pub mod db;
pub mod info;
pub mod keycodec;
pub mod method;
pub mod request;
pub mod sections;
pub mod templates;
pub mod text;
pub mod timestamp;
pub mod utils;
