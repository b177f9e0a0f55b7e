//! Read-only query core of a proxy-history server: record models, row
//! decoding, pagination semantics, connection admission control, and a
//! store adapter over a SQLite database.

pub mod admission;
pub mod decode;
pub mod models;
pub mod paging;
pub mod store;
