//! Where each kind of file stands under the storage root.
//!
//! ```text
//! <root>/repositories/<name>/_uploads/<session id>
//! <root>/repositories/<name>/_refs/<reference>
//! <root>/blobs/sha256/<first two hex digits>/<hex hash>
//! ```

use vstd::prelude::*;
use crate::digest::{algorithm, is_hash};

verus! {

/// Directory of a repository.
pub open spec fn repository_path(base: Seq<char>, name: Seq<char>) -> Seq<char> {
    base + "/repositories/"@ + name
}

/// File that holds the bytes of an upload session so far.
pub open spec fn upload_path(base: Seq<char>, name: Seq<char>, id: Seq<char>) -> Seq<char> {
    repository_path(base, name) + "/_uploads/"@ + id
}

/// Directory of a repository's references.
pub open spec fn references_path(base: Seq<char>, name: Seq<char>) -> Seq<char> {
    repository_path(base, name) + "/_refs/"@
}

/// File of one reference; its content is the digest it points at.
pub open spec fn reference_path(base: Seq<char>, name: Seq<char>, reference: Seq<char>) -> Seq<char> {
    references_path(base, name) + reference
}

/// File of the blob whose hash part is `hash`, bucketed by its first two digits.
pub open spec fn blob_path(base: Seq<char>, hash: Seq<char>) -> Seq<char> {
    base + "/blobs/"@ + algorithm() + "/"@ + hash.subrange(0, 2) + "/"@ + hash
}

/// No file of a repository stands where a blob does.
pub proof fn lemma_repository_file_is_not_blob(
    base: Seq<char>,
    name: Seq<char>,
    rest: Seq<char>,
    hash: Seq<char>,
)
    ensures
        repository_path(base, name) + rest != blob_path(base, hash),
{
    reveal_strlit("/repositories/");
    reveal_strlit("/blobs/");
    let p = repository_path(base, name) + rest;
    let b = blob_path(base, hash);
    let k: int = base.len() as int + 1;
    assert(p[k] == 'r');
    assert(b[k] == 'b');
}

/// Distinct hashes have distinct blob files.
pub proof fn lemma_blob_path_injective(base: Seq<char>, h1: Seq<char>, h2: Seq<char>)
    requires
        is_hash(h1),
        is_hash(h2),
        blob_path(base, h1) == blob_path(base, h2),
    ensures
        h1 == h2,
{
    let b = blob_path(base, h1);
    assert(b.subrange(b.len() - 64, b.len() as int) =~= h1);
    assert(blob_path(base, h2).subrange(b.len() - 64, b.len() as int) =~= h2);
}

} // verus!
