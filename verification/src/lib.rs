use vstd::prelude::*;

pub mod bytes;
pub mod cache;
pub mod lines;
pub mod paths;
pub mod resolve;
pub mod rewrite;
pub mod scan;
pub mod traverse;

verus! {

/// The kinds of failure the archiver distinguishes: listing or creating
/// files, decoding a line as text, parsing a captured URL, fetching it,
/// and persisting the fetched bytes.
#[derive(Clone, Copy, Debug, PartialEq, Eq, Structural)]
pub enum ArchiveError {
    FileSystem,
    Decode,
    UrlParse,
    Network,
    Write,
}

} // verus!
