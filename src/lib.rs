//! Request-dispatch engine of a small static-file and script HTTP server: request parsing,
//! path resolution with containment checks, content types, the script environment, and the
//! per-connection decisions from request bytes to response bytes.
pub mod text;
pub mod request;
pub mod content_type;
pub mod path;
pub mod response;
pub mod script;
pub mod handler;
pub mod reader;
