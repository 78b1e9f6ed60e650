//! Resolution and response rules of a static file server that serves
//! objects of a remote store with single-page-application fallback.
//!
//! The library holds the decisions: which object key a request path
//! resolves to, how long a resolution or a signed URL may be served from
//! memory, which headers travel in either direction, and which status an
//! error becomes. Talking to the store and to clients is the caller's part.

pub mod text;
pub mod resolver;
pub mod path;
pub mod mime;
pub mod headers;
pub mod proxy;
pub mod cache;
pub mod resolution;
pub mod presign;
pub mod passthrough;
