//! Diagnostic reporting and source-position tracking for a compiler
//! front end.
//!
//! The crate models byte positions and spans inside one source file,
//! resolves byte offsets to line/column locations through an indexed
//! [`FileMap`](filemap::FileMap), describes diagnostics as
//! [`Report`](report::Report) values, and renders a report into a
//! deterministic sequence of styled text segments ready for a terminal.

pub mod filemap;
pub mod pos;
pub mod print;
pub mod report;
pub mod textops;
