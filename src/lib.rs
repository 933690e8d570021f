//! Resolution of named HTTP requests whose URLs depend on the values of other
//! named requests. Values are taken from JSON responses by dotted paths and
//! memoized by name; responses are stored by URL, so that requests that come
//! out the same are sent once.
//!
//! The engine does no I/O: it says which request has to be sent next, and the
//! caller hands the response body back before asking again.

pub mod json;
pub mod value_name;
pub mod url;
pub mod query;
pub mod request;
