use vstd::prelude::*;

use crate::ArchiveError;

verus! {

// The content directory is claimed through exclusive file creation: for each
// cache path, exactly one creation attempt ever succeeds; every other
// attempt, concurrent or later, sees that the path already exists and skips
// the download. These functions model that discipline over the set of cache
// paths present on disk, and `after_create` is the decision taken on each
// reported outcome.

/// The set of cache paths present after one claim of `path`.
pub open spec fn fs_after_claim(existing: Set<Seq<u8>>, path: Seq<u8>) -> Set<Seq<u8>> {
    existing.insert(path)
}

/// Whether a claim of `path` wins the slot, so that its claimant must
/// download the content: exactly when the path is not yet present.
pub open spec fn claim_downloads(existing: Set<Seq<u8>>, path: Seq<u8>) -> bool {
    !existing.contains(path)
}

/// What the filesystem reports for one exclusive create of a cache path.
#[derive(Clone, Copy, Debug, PartialEq, Eq, Structural)]
pub enum CreateOutcome {
    Created,
    AlreadyExists,
    Failed,
}

/// What the archiver does next with one cache entry.
#[derive(Clone, Copy, Debug, PartialEq, Eq, Structural)]
pub enum CacheAction {
    Download,
    Skip,
}

/// Decides what follows one exclusive create: a newly created file is
/// downloaded into; a path that already exists is a cache hit and is
/// skipped without error; any other failure is a filesystem error.
pub fn after_create(outcome: CreateOutcome) -> (r: Result<CacheAction, ArchiveError>)
    ensures
        outcome is Created ==> r is Ok && r->Ok_0 is Download,
        outcome is AlreadyExists ==> r is Ok && r->Ok_0 is Skip,
        outcome is Failed ==> r is Err && r->Err_0 == ArchiveError::FileSystem,
{
    match outcome {
        CreateOutcome::Created => Ok(CacheAction::Download),
        CreateOutcome::AlreadyExists => Ok(CacheAction::Skip),
        CreateOutcome::Failed => Err(ArchiveError::FileSystem),
    }
}

/// Law: resolving the same URL twice fetches at most once and creates at
/// most one cache file. Both runs compute the same cache path and the same
/// replacement fragment (`resolve` returns functions of the URL alone); the
/// first claim of the path downloads exactly when the path is absent, and
/// after it the path is present, so the second claim never downloads and
/// leaves the set of cache files unchanged.
pub proof fn lemma_resolver_idempotent(existing: Set<Seq<u8>>, raw: Seq<u8>)
    ensures
        ({
            let p = crate::resolve::spec_cache_path(raw);
            &&& claim_downloads(existing, p) == !existing.contains(p)
            &&& !claim_downloads(fs_after_claim(existing, p), p)
            &&& fs_after_claim(fs_after_claim(existing, p), p) == fs_after_claim(existing, p)
        }),
{
    let p = crate::resolve::spec_cache_path(raw);
    assert(fs_after_claim(fs_after_claim(existing, p), p) =~= fs_after_claim(existing, p));
}

/// Law: two URLs with the same cache key claim the same cache path, so at
/// most one of them downloads: once either claim is in place, a claim for
/// the other URL's path finds it present.
pub proof fn lemma_shared_key_single_fetch(existing: Set<Seq<u8>>, raw1: Seq<u8>, raw2: Seq<u8>)
    requires
        crate::resolve::spec_base_of(raw1) == crate::resolve::spec_base_of(raw2),
    ensures
        crate::resolve::spec_cache_path(raw1) == crate::resolve::spec_cache_path(raw2),
        !claim_downloads(
            fs_after_claim(existing, crate::resolve::spec_cache_path(raw1)),
            crate::resolve::spec_cache_path(raw2),
        ),
{
}

} // verus!
