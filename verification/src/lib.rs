//! Resolution and caching backend for a document compiler.
//!
//! A [`sandbox::Sandbox`] owns the process-wide state: a font catalog, the
//! standard-library handle, a cache of resolved files and the raw storage of
//! unpacked package archives.  A [`sandbox::WithSource`] pairs one main source
//! text and one timestamp with the sandbox for the duration of a single
//! compilation request and answers the compiler's resolution queries.
pub mod archive;
pub mod bytes;
pub mod dates;
pub mod fonts;
pub mod ids;
pub mod outcome;
pub mod sandbox;
pub mod store;
pub mod text;
