//! Properties that hold across several storage operations, stated over the
//! effects that the operations' contracts give.

use vstd::prelude::*;
use vstd::utf8::encode_utf8;
use crate::db::{text_of, FilesystemDB};
use crate::digest::{algorithm, digest_of, format_digest, hash_part, is_digest};
use crate::layout::{lemma_repository_file_is_not_blob, references_path, repository_path};
use crate::tree::{lists_exactly, names_under};

verus! {

/// Formatting the hash part of any well-formed digest gives back that digest, and
/// its algorithm is `sha256`.
pub proof fn law_digest_round_trip(d: Seq<char>)
    requires
        is_digest(d),
    ensures
        format_digest(hash_part(d)) == d,
        d.subrange(0, 6) == algorithm(),
{
    assert(d =~= d.subrange(0, 7) + d.subrange(7, 71));
    assert(format_digest(hash_part(d)) =~= d);
    assert(d.subrange(0, 6) =~= d.subrange(0, 7).subrange(0, 6));
}

proof fn lemma_session_holds_prefix(
    states: Seq<Map<Seq<char>, Seq<u8>>>,
    path: Seq<char>,
    chunks: Seq<Seq<u8>>,
    i: int,
)
    requires
        0 <= i <= chunks.len(),
        states.len() == chunks.len() + 1,
        states[0].contains_key(path),
        states[0][path] == Seq::<u8>::empty(),
        forall|j: int|
            0 <= j < chunks.len() ==> #[trigger] states[j + 1] == states[j].insert(
                path,
                states[j][path] + chunks[j],
            ),
    ensures
        states[i].contains_key(path),
        states[i][path] == chunks.take(i).flatten(),
    decreases i,
{
    if i == 0 {
        assert(chunks.take(0) =~= Seq::<Seq<u8>>::empty());
    } else {
        lemma_session_holds_prefix(states, path, chunks, i - 1);
        assert(chunks.take(i) =~= chunks.take(i - 1).push(chunks[i - 1]));
        chunks.take(i - 1).lemma_flatten_push(chunks[i - 1]);
        assert(states[i] == states[i - 1].insert(path, states[i - 1][path] + chunks[i - 1]));
    }
}

/// Chunks appended one after another to a freshly created session leave their
/// concatenation in it, in order: that is the content a commit hashes and publishes.
pub proof fn law_chunks_concatenate(
    db: FilesystemDB,
    states: Seq<Map<Seq<char>, Seq<u8>>>,
    name: Seq<char>,
    id: Seq<char>,
    chunks: Seq<Seq<u8>>,
)
    requires
        states.len() == chunks.len() + 1,
        states[0] == db@.insert(db.upload_file(name, id), Seq::<u8>::empty()),
        forall|i: int|
            0 <= i < chunks.len() ==> #[trigger] states[i + 1] == states[i].insert(
                db.upload_file(name, id),
                states[i][db.upload_file(name, id)] + chunks[i],
            ),
    ensures
        states.last().contains_key(db.upload_file(name, id)),
        states.last()[db.upload_file(name, id)] == chunks.flatten(),
{
    lemma_session_holds_prefix(states, db.upload_file(name, id), chunks, chunks.len() as int);
    assert(chunks.take(chunks.len() as int) =~= chunks);
}

/// A commit whose digest is not that of the session's content publishes nothing:
/// a blob that was absent under the claimed or the computed digest stays absent,
/// and the session is gone.
pub proof fn law_mismatch_publishes_nothing(
    before: FilesystemDB,
    after: FilesystemDB,
    name: Seq<char>,
    id: Seq<char>,
    given: Seq<char>,
)
    requires
        before@.contains_key(before.upload_file(name, id)),
        digest_of(before@[before.upload_file(name, id)]) != given,
        after@ == before@.remove(before.upload_file(name, id)),
    ensures
        !before@.contains_key(before.blob_file(given)) ==> !after@.contains_key(before.blob_file(given)),
        ({
            let computed = digest_of(before@[before.upload_file(name, id)]);
            !before@.contains_key(before.blob_file(computed)) ==> !after@.contains_key(
                before.blob_file(computed),
            )
        }),
        !after@.contains_key(before.upload_file(name, id)),
{
}

/// Once a session is committed or aborted its file is gone, so a later append to it
/// fails as one to a session that never existed.
pub proof fn law_closed_session_is_gone(
    before: FilesystemDB,
    after: FilesystemDB,
    name: Seq<char>,
    id: Seq<char>,
    digest: Seq<char>,
)
    requires
        after@ == before@.remove(before.upload_file(name, id)) || after@ == before@.remove(
            before.upload_file(name, id),
        ).insert(before.blob_file(digest), before@[before.upload_file(name, id)]),
    ensures
        !after@.contains_key(before.upload_file(name, id)),
{
    let base = before.base();
    let h = hash_part(digest);
    assert(before.upload_file(name, id) == repository_path(base, name) + ("/_uploads/"@ + id));
    lemma_repository_file_is_not_blob(base, name, "/_uploads/"@ + id, h);
}

/// Right after a reference is pointed at digest `d`, it reads back as `d`, and the
/// blob that `d` names is untouched.
pub proof fn law_reference_reads_back(
    before: FilesystemDB,
    after: FilesystemDB,
    name: Seq<char>,
    reference: Seq<char>,
    d: Seq<char>,
)
    requires
        after.base() == before.base(),
        after@ == before@.insert(before.reference_file(name, reference), encode_utf8(d)),
    ensures
        after@.contains_key(after.reference_file(name, reference)),
        text_of(after@[after.reference_file(name, reference)]) == Some(d),
        after@.contains_key(after.blob_file(d)) == before@.contains_key(before.blob_file(d)),
        before@.contains_key(before.blob_file(d)) ==> after@[after.blob_file(d)] == before@[before.blob_file(
            d,
        )],
{
    let base = before.base();
    vstd::utf8::encode_utf8_valid_utf8(d);
    vstd::utf8::encode_utf8_decode_utf8(d);
    assert(before.reference_file(name, reference) == repository_path(base, name) + ("/_refs/"@
        + reference));
    lemma_repository_file_is_not_blob(base, name, "/_refs/"@ + reference, hash_part(d));
}

/// A repository with no references lists none; after one reference is set, it
/// lists exactly that one.
pub proof fn law_first_reference_is_listed(
    before: FilesystemDB,
    after: FilesystemDB,
    name: Seq<char>,
    reference: Seq<char>,
    v: Seq<u8>,
)
    requires
        after.base() == before.base(),
        names_under(before@, references_path(before.base(), name)) == Set::<Seq<char>>::empty(),
        after@ == before@.insert(before.reference_file(name, reference), v),
    ensures
        names_under(after@, references_path(after.base(), name)) == set![reference],
        forall|list: Seq<String>|
            lists_exactly(list, names_under(after@, references_path(after.base(), name))) ==> list.len()
                == 1 && list[0]@ == reference,
{
    let p = references_path(before.base(), name);
    let names = names_under(after@, p);
    assert forall|n: Seq<char>| names.contains(n) <==> n == reference by {
        if n != reference {
            if after@.contains_key(p + n) {
                assert(p + n != p + reference) by {
                    if p + n == p + reference {
                        assert(n =~= (p + n).subrange(p.len() as int, (p + n).len() as int));
                        assert(reference =~= (p + reference).subrange(
                            p.len() as int,
                            (p + reference).len() as int,
                        ));
                    }
                }
                assert(names_under(before@, p).contains(n));
            }
        }
    }
    assert(names =~= set![reference]);
    assert forall|list: Seq<String>| lists_exactly(list, names) implies list.len() == 1 && list[0]@
        == reference by {
        assert(names.contains(reference));
        let a = choose|a: int| 0 <= a < list.len() && #[trigger] list[a]@ == reference;
        if list.len() > 1 {
            let b: int = if a == 0 { 1 } else { 0 };
            assert(names.contains(list[b]@));
            if a < b {
                assert(list[a]@ != list[b]@);
            } else {
                assert(list[b]@ != list[a]@);
            }
        }
        assert(names.contains(list[0]@));
        assert(list[0]@ == reference);
    }
}

} // verus!
