//! Keyword gate for language-API requests: decides whether a request is
//! answered with a fixed reply or forwarded to the backend.
pub mod text;
pub mod counting;
pub mod pattern;
pub mod procl;
