//! The storage engine: blobs, upload sessions, manifests and references over a
//! tree of files under a configured root.

use vstd::prelude::*;
use vstd::slice::slice_to_vec;
use vstd::string::{StrSliceExecFns, StringSliceAdditionalSpecFns};
use vstd::utf8::{decode_utf8, valid_utf8};
use crate::digest::{
    algorithm, compute, digest_of, format_digest_text, hash_part, hex_lower, is_digest,
    is_hash, is_hash_text, lemma_format_is_digest, lemma_hex_lower_is_hash, sha256_hex, sha256_hex_of_str,
    sha256_of,
};
use crate::layout::{
    blob_path, lemma_blob_path_injective, lemma_repository_file_is_not_blob, reference_path,
    references_path, repository_path, upload_path,
};
use crate::tree::{is_prefix, lists_exactly, names_under, strip_prefix, FileTree};

verus! {

/// What a storage operation can fail with.
#[derive(Debug, Clone, PartialEq, Eq)]
pub enum DBError {
    /// A stored file could not be read as text.
    FilesystemError { path: String },
    /// No upload session with this id.
    UploadNotExists { id: String },
    /// Every id drawn for a new upload session was already in use; `id` is the last.
    UploadIdTaken { id: String },
    /// No blob with this digest.
    BlobNotExists { digest: String },
    /// The string is not a well-formed digest.
    InvalidDigest(String),
    /// The uploaded content hashes to `computed`, not to the `given` digest.
    DigestsDontMatch { given: String, computed: String },
}

pub type DBResult<T> = Result<T, DBError>;

/// How many random ids a new upload session draws before it gives up.
pub const UPLOAD_ID_ATTEMPTS: usize = 8;

/// Where the store keeps its files.
#[derive(Debug, Clone)]
pub struct FilesystemDBConfig {
    base_path: String,
}

impl FilesystemDBConfig {
    /// The root directory.
    pub closed spec fn base(&self) -> Seq<char> {
        self.base_path@
    }
}

impl Default for FilesystemDBConfig {
    fn default() -> (r: Self)
        ensures
            r.base() == ".local/share/registry-rs"@,
    {
        FilesystemDBConfig { base_path: ".local/share/registry-rs".to_owned() }
    }
}

/// Every blob file holds content whose hash is the one its path names.
pub open spec fn blobs_verified(base: Seq<char>, files: Map<Seq<char>, Seq<u8>>) -> bool {
    forall|h: Seq<char>|
        is_hash(h) && #[trigger] files.contains_key(blob_path(base, h)) ==> hex_lower(
            sha256_of(files[blob_path(base, h)]),
        ) == h
}

/// The text that bytes hold, when they are valid UTF-8.
pub open spec fn text_of(b: Seq<u8>) -> Option<Seq<char>> {
    if valid_utf8(b) {
        Some(decode_utf8(b))
    } else {
        None
    }
}

/// The last index of an inclusive byte range over `total` bytes; 0 when there are none.
pub open spec fn range_end(total: int) -> int {
    if total == 0 {
        0
    } else {
        total - 1
    }
}

/// Relies on `std::str::from_utf8`: it succeeds exactly on valid UTF-8, and the
/// `str` it returns is made of those same bytes.
#[verifier::external_body]
fn utf8_text(v: &[u8]) -> (r: Option<&str>)
    ensures
        match r {
            Some(s) => valid_utf8(v@) && s.spec_bytes() == v@,
            None => !valid_utf8(v@),
        },
{
    std::str::from_utf8(v).ok()
}

/// Relies on `uuid::Uuid::new_v4` for a fresh random id, written by its `Display`
/// impl in the hyphenated form of 36 characters.
#[verifier::external_body]
fn new_upload_id() -> (r: String)
    ensures
        r@.len() == 36,
{
    uuid::Uuid::new_v4().to_string()
}

proof fn lemma_remove_keeps_blobs(base: Seq<char>, m: Map<Seq<char>, Seq<u8>>, k: Seq<char>)
    requires
        blobs_verified(base, m),
    ensures
        blobs_verified(base, m.remove(k)),
{
    assert forall|h: Seq<char>|
        is_hash(h) && #[trigger] m.remove(k).contains_key(blob_path(base, h)) implies hex_lower(
        sha256_of(m.remove(k)[blob_path(base, h)]),
    ) == h by {
        assert(m.contains_key(blob_path(base, h)));
    }
}

proof fn lemma_repository_write_keeps_blobs(
    base: Seq<char>,
    m: Map<Seq<char>, Seq<u8>>,
    name: Seq<char>,
    rest: Seq<char>,
    v: Seq<u8>,
)
    requires
        blobs_verified(base, m),
    ensures
        blobs_verified(base, m.insert(repository_path(base, name) + rest, v)),
{
    let k = repository_path(base, name) + rest;
    assert forall|h: Seq<char>|
        is_hash(h) && #[trigger] m.insert(k, v).contains_key(blob_path(base, h)) implies hex_lower(
        sha256_of(m.insert(k, v)[blob_path(base, h)]),
    ) == h by {
        lemma_repository_file_is_not_blob(base, name, rest, h);
        assert(m.contains_key(blob_path(base, h)));
    }
}

proof fn lemma_blob_write_keeps_blobs(
    base: Seq<char>,
    m: Map<Seq<char>, Seq<u8>>,
    hash: Seq<char>,
    v: Seq<u8>,
)
    requires
        blobs_verified(base, m),
        is_hash(hash),
        hex_lower(sha256_of(v)) == hash,
    ensures
        blobs_verified(base, m.insert(blob_path(base, hash), v)),
{
    let k = blob_path(base, hash);
    assert forall|h: Seq<char>|
        is_hash(h) && #[trigger] m.insert(k, v).contains_key(blob_path(base, h)) implies hex_lower(
        sha256_of(m.insert(k, v)[blob_path(base, h)]),
    ) == h by {
        if blob_path(base, h) == k {
            lemma_blob_path_injective(base, h, hash);
        }
    }
}

/// The storage engine: a configured root and the files under it.
pub struct FilesystemDB {
    config: FilesystemDBConfig,
    files: FileTree,
}

impl View for FilesystemDB {
    type V = Map<Seq<char>, Seq<u8>>;

    /// The files under the root, by path.
    closed spec fn view(&self) -> Map<Seq<char>, Seq<u8>> {
        self.files@
    }
}

impl Default for FilesystemDB {
    fn default() -> (r: Self)
        ensures
            r.wf(),
            r.base() == ".local/share/registry-rs"@,
            r@ == Map::<Seq<char>, Seq<u8>>::empty(),
    {
        FilesystemDB::new(FilesystemDBConfig::default())
    }
}

impl FilesystemDB {
    /// The root directory.
    pub closed spec fn base(&self) -> Seq<char> {
        self.config.base()
    }

    /// The tree's own invariant.
    pub closed spec fn tree_wf(&self) -> bool {
        self.files.wf()
    }

    /// The store's invariant: a well-formed tree whose blobs all match their digests.
    pub open spec fn wf(&self) -> bool {
        &&& self.tree_wf()
        &&& blobs_verified(self.base(), self@)
    }

    /// File of the blob named by digest string `d`.
    pub open spec fn blob_file(&self, d: Seq<char>) -> Seq<char> {
        blob_path(self.base(), hash_part(d))
    }

    /// File of a reference.
    pub open spec fn reference_file(&self, name: Seq<char>, reference: Seq<char>) -> Seq<char> {
        reference_path(self.base(), name, reference)
    }

    /// File of an upload session.
    pub open spec fn upload_file(&self, name: Seq<char>, id: Seq<char>) -> Seq<char> {
        upload_path(self.base(), name, id)
    }

    /// An empty store under the configured root.
    pub fn new(config: FilesystemDBConfig) -> (r: Self)
        ensures
            r.wf(),
            r.base() == config.base(),
            r@ == Map::<Seq<char>, Seq<u8>>::empty(),
    {
        FilesystemDB { config, files: FileTree::new() }
    }

    /// The files under the root.
    pub fn files(&self) -> (r: &FileTree)
        requires
            self.wf(),
        ensures
            r.wf(),
            r@ == self@,
    {
        &self.files
    }

    /// Splits a digest string into its algorithm and its hash part.
    pub fn extract_digest(&self, digest: &str) -> (r: DBResult<(String, String)>)
        ensures
            is_digest(digest@) ==> (r matches Ok((algo, hash)) && algo@ == seq!['s', 'h', 'a', '2', '5', '6']
                && hash@ == hash_part(digest@)),
            !is_digest(digest@) ==> (r matches Err(DBError::InvalidDigest(d)) && d@ == digest@),
    {
        proof {
            reveal_strlit("sha256:");
            reveal_strlit("sha256");
        }
        match strip_prefix(digest, "sha256:") {
            Some(hash) => {
                if is_hash_text(hash.as_str()) {
                    assert(digest@.subrange(0, 7) =~= "sha256:"@);
                    assert("sha256:"@ =~= algorithm() + seq![':']);
                    assert(digest@.subrange(7, 71) =~= hash@);
                    assert("sha256"@ =~= seq!['s', 'h', 'a', '2', '5', '6']);
                    Ok(("sha256".to_owned(), hash))
                } else {
                    assert(!is_digest(digest@)) by {
                        if is_digest(digest@) {
                            assert(digest@.subrange(7, 71) =~= hash@);
                        }
                    }
                    Err(DBError::InvalidDigest(digest.to_owned()))
                }
            },
            None => {
                assert(!is_digest(digest@)) by {
                    if is_digest(digest@) {
                        assert(digest@.subrange(0, 7) =~= "sha256:"@);
                    }
                }
                Err(DBError::InvalidDigest(digest.to_owned()))
            },
        }
    }

    /// Directory of a repository.
    pub fn get_repository_path(&self, name: &str) -> (r: String)
        ensures
            r@ == repository_path(self.base(), name@),
    {
        let mut p = self.config.base_path.clone();
        p.append("/repositories/");
        p.append(name);
        p
    }

    /// File of an upload session.
    pub fn get_upload_path(&self, name: &str, id: &str) -> (r: String)
        ensures
            r@ == upload_path(self.base(), name@, id@),
    {
        let mut p = self.get_repository_path(name);
        p.append("/_uploads/");
        p.append(id);
        p
    }

    /// Directory of a repository's references.
    pub fn get_references_path(&self, name: &str) -> (r: String)
        ensures
            r@ == references_path(self.base(), name@),
    {
        let mut p = self.get_repository_path(name);
        p.append("/_refs/");
        p
    }

    /// File of one reference.
    pub fn get_reference_path(&self, name: &str, reference: &str) -> (r: String)
        ensures
            r@ == reference_path(self.base(), name@, reference@),
    {
        let mut p = self.get_references_path(name);
        p.append(reference);
        p
    }

    fn hash_blob_path(&self, hash: &str) -> (r: String)
        requires
            is_hash(hash@),
        ensures
            r@ == blob_path(self.base(), hash@),
    {
        proof {
            reveal_strlit("sha256");
        }
        let bucket = hash.substring_char(0, 2);
        let mut p = self.config.base_path.clone();
        p.append("/blobs/");
        p.append("sha256");
        p.append("/");
        p.append(bucket);
        p.append("/");
        p.append(hash);
        assert("sha256"@ =~= seq!['s', 'h', 'a', '2', '5', '6']);
        p
    }

    /// File of the blob that a digest string names.
    pub fn get_blob_path(&self, digest: &str) -> (r: DBResult<String>)
        ensures
            is_digest(digest@) ==> (r matches Ok(p) && p@ == self.blob_file(digest@)),
            !is_digest(digest@) ==> (r matches Err(DBError::InvalidDigest(d)) && d@ == digest@),
    {
        match self.extract_digest(digest) {
            Ok((_algo, hash)) => Ok(self.hash_blob_path(hash.as_str())),
            Err(e) => Err(e),
        }
    }

    /// Size and file of a stored blob.
    pub fn get_blob(&self, digest: &str) -> (r: DBResult<(u64, String)>)
        requires
            self.wf(),
        ensures
            !is_digest(digest@) ==> (r matches Err(DBError::InvalidDigest(d)) && d@ == digest@),
            is_digest(digest@) && !self@.contains_key(self.blob_file(digest@)) ==> (r matches Err(
                DBError::BlobNotExists { digest: d },
            ) && d@ == digest@),
            is_digest(digest@) && self@.contains_key(self.blob_file(digest@)) ==> (r matches Ok(
                (size, path),
            ) && size == self@[self.blob_file(digest@)].len() && path@ == self.blob_file(digest@)),
    {
        let path = match self.get_blob_path(digest) {
            Ok(p) => p,
            Err(e) => return Err(e),
        };
        match self.files.get(path.as_str()) {
            Some(content) => Ok((content.len() as u64, path)),
            None => Err(DBError::BlobNotExists { digest: digest.to_owned() }),
        }
    }

    /// Opens an upload session under `id`: an empty file at its upload path.
    pub fn create_upload_with_id(&mut self, name: &str, id: &str)
        requires
            old(self).wf(),
        ensures
            final(self).wf(),
            final(self).base() == old(self).base(),
            final(self)@ == old(self)@.insert(old(self).upload_file(name@, id@), Seq::<u8>::empty()),
    {
        let path = self.get_upload_path(name, id);
        proof {
            assert(path@ == repository_path(self.base(), name@) + ("/_uploads/"@ + id@));
            lemma_repository_write_keeps_blobs(self.base(), self@, name@, "/_uploads/"@ + id@, Seq::empty());
        }
        self.files.insert(path, Vec::new());
    }

    /// Opens an upload session under a fresh random id, which it returns. An id
    /// whose upload file already exists is drawn again, up to
    /// `UPLOAD_ID_ATTEMPTS` draws in all; when every draw is taken, nothing changes
    /// and the last id drawn is reported.
    pub fn create_upload(&mut self, name: &str) -> (r: DBResult<String>)
        requires
            old(self).wf(),
        ensures
            final(self).wf(),
            final(self).base() == old(self).base(),
            match r {
                Ok(id) => {
                    &&& id@.len() == 36
                    &&& !old(self)@.contains_key(old(self).upload_file(name@, id@))
                    &&& final(self)@ == old(self)@.insert(
                        old(self).upload_file(name@, id@),
                        Seq::<u8>::empty(),
                    )
                },
                Err(e) => {
                    &&& e matches DBError::UploadIdTaken { id } && id@.len() == 36
                        && old(self)@.contains_key(old(self).upload_file(name@, id@))
                    &&& final(self)@ == old(self)@
                },
            },
    {
        let mut draws: usize = 0;
        loop
            invariant
                self.wf(),
                self.base() == old(self).base(),
                self@ == old(self)@,
                draws < UPLOAD_ID_ATTEMPTS,
            decreases UPLOAD_ID_ATTEMPTS - draws,
        {
            let id = new_upload_id();
            let path = self.get_upload_path(name, id.as_str());
            if !self.files.contains(path.as_str()) {
                self.create_upload_with_id(name, id.as_str());
                return Ok(id);
            }
            draws = draws + 1;
            if draws == UPLOAD_ID_ATTEMPTS {
                return Err(DBError::UploadIdTaken { id });
            }
        }
    }

    /// Ends an upload session without publishing anything.
    pub fn delete_upload(&mut self, name: &str, id: &str) -> (r: DBResult<()>)
        requires
            old(self).wf(),
        ensures
            final(self).wf(),
            final(self).base() == old(self).base(),
            final(self)@ == old(self)@.remove(old(self).upload_file(name@, id@)),
            old(self)@.contains_key(old(self).upload_file(name@, id@)) ==> r is Ok,
            !old(self)@.contains_key(old(self).upload_file(name@, id@)) ==> (r matches Err(
                DBError::UploadNotExists { id: i },
            ) && i@ == id@),
    {
        let path = self.get_upload_path(name, id);
        proof {
            lemma_remove_keeps_blobs(self.base(), self@, path@);
        }
        match self.files.remove(path.as_str()) {
            Some(_) => Ok(()),
            None => Err(DBError::UploadNotExists { id: id.to_owned() }),
        }
    }

    /// Adds `data` at the end of an upload session. Returns the inclusive byte range
    /// that the session's content now ends with: from its former length to its new
    /// length less one (`0-0` while it is empty).
    pub fn write_upload(&mut self, name: &str, upload_id: &str, data: &[u8]) -> (r: DBResult<
        (usize, usize),
    >)
        requires
            old(self).wf(),
        ensures
            final(self).wf(),
            final(self).base() == old(self).base(),
            !old(self)@.contains_key(old(self).upload_file(name@, upload_id@)) ==> {
                &&& r matches Err(DBError::UploadNotExists { id }) && id@ == upload_id@
                &&& final(self)@ == old(self)@
            },
            old(self)@.contains_key(old(self).upload_file(name@, upload_id@)) ==> {
                let path = old(self).upload_file(name@, upload_id@);
                let before = old(self)@[path].len();
                &&& final(self)@ == old(self)@.insert(path, old(self)@[path] + data@)
                &&& r matches Ok((start, end))
                &&& start == before
                &&& end == range_end(before + data@.len() as int)
            },
    {
        let path = self.get_upload_path(name, upload_id);
        let start = match self.files.get(path.as_str()) {
            Some(content) => content.len(),
            None => return Err(DBError::UploadNotExists { id: upload_id.to_owned() }),
        };
        proof {
            assert(path@ == repository_path(self.base(), name@) + ("/_uploads/"@ + upload_id@));
            lemma_repository_write_keeps_blobs(
                self.base(),
                self@,
                name@,
                "/_uploads/"@ + upload_id@,
                self@[path@] + data@,
            );
        }
        self.files.append(path.as_str(), data);
        let total = match self.files.get(path.as_str()) {
            Some(content) => content.len(),
            None => 0,
        };
        let end = if total == 0 {
            0
        } else {
            total - 1
        };
        Ok((start, end))
    }

    /// Publishes an upload session as a blob when its content hashes to `digest`.
    /// On a mismatch the session is discarded and nothing is published.
    pub fn commit_upload(&mut self, name: &str, id: &str, digest: &str) -> (r: DBResult<()>)
        requires
            old(self).wf(),
        ensures
            final(self).wf(),
            final(self).base() == old(self).base(),
            !is_digest(digest@) ==> {
                &&& r matches Err(DBError::InvalidDigest(d)) && d@ == digest@
                &&& final(self)@ == old(self)@
            },
            is_digest(digest@) && !old(self)@.contains_key(old(self).upload_file(name@, id@)) ==> {
                &&& r matches Err(DBError::UploadNotExists { id: i }) && i@ == id@
                &&& final(self)@ == old(self)@
            },
            is_digest(digest@) && old(self)@.contains_key(old(self).upload_file(name@, id@)) ==> {
                let path = old(self).upload_file(name@, id@);
                let content = old(self)@[path];
                if digest_of(content) == digest@ {
                    &&& r is Ok
                    &&& final(self)@ == old(self)@.remove(path).insert(old(self).blob_file(digest@), content)
                } else {
                    &&& r matches Err(DBError::DigestsDontMatch { given, computed })
                    &&& given@ == digest@
                    &&& computed@ == digest_of(content)
                    &&& final(self)@ == old(self)@.remove(path)
                }
            },
    {
        let upload_path = self.get_upload_path(name, id);
        let layers_path = match self.get_blob_path(digest) {
            Ok(p) => p,
            Err(e) => return Err(e),
        };
        let local_digest = match self.files.get(upload_path.as_str()) {
            Some(content) => compute(content.as_slice()),
            None => return Err(DBError::UploadNotExists { id: id.to_owned() }),
        };
        let given = digest.to_owned();
        proof {
            lemma_remove_keeps_blobs(self.base(), self@, upload_path@);
        }
        if !(local_digest == given) {
            self.files.remove(upload_path.as_str());
            Err(DBError::DigestsDontMatch { given, computed: local_digest })
        } else {
            let taken = self.files.remove(upload_path.as_str());
            match taken {
                Some(content) => {
                    proof {
                        lemma_blob_write_keeps_blobs(self.base(), self@, hash_part(digest@), content@);
                    }
                    self.files.insert(layers_path, content);
                },
                None => {},
            }
            Ok(())
        }
    }

    /// Stores a manifest as a blob under its own digest, which it returns.
    pub fn create_manifest(&mut self, name: &str, reference: &str, manifest: &str) -> (r: String)
        requires
            old(self).wf(),
        ensures
            final(self).wf(),
            final(self).base() == old(self).base(),
            r@ == digest_of(manifest.spec_bytes()),
            is_digest(r@),
            final(self)@ == old(self)@.insert(old(self).blob_file(r@), manifest.spec_bytes()),
    {
        let hash = sha256_hex_of_str(manifest);
        proof {
            lemma_hex_lower_is_hash(sha256_of(manifest.spec_bytes()));
            lemma_format_is_digest(hash@);
        }
        let digest = format_digest_text(hash.as_str());
        let path = self.hash_blob_path(hash.as_str());
        let content = slice_to_vec(manifest.as_bytes());
        proof {
            lemma_blob_write_keeps_blobs(self.base(), self@, hash@, content@);
        }
        self.files.insert(path, content);
        digest
    }

    /// Points a reference at a digest, replacing what it pointed at. Returns the
    /// reference's file.
    pub fn put_reference(&mut self, name: &str, reference: &str, digest: &str) -> (r: String)
        requires
            old(self).wf(),
        ensures
            final(self).wf(),
            final(self).base() == old(self).base(),
            r@ == old(self).reference_file(name@, reference@),
            final(self)@ == old(self)@.insert(r@, digest.spec_bytes()),
    {
        let ref_path = self.get_reference_path(name, reference);
        let content = slice_to_vec(digest.as_bytes());
        proof {
            assert(ref_path@ == repository_path(self.base(), name@) + ("/_refs/"@ + reference@));
            lemma_repository_write_keeps_blobs(
                self.base(),
                self@,
                name@,
                "/_refs/"@ + reference@,
                content@,
            );
        }
        self.files.insert(ref_path.clone(), content);
        ref_path
    }

    /// Resolves a reference to the manifest it points at: its size, its digest and
    /// its content. `None` when the reference does not exist.
    pub fn get_manifest(&self, name: &str, reference: &str) -> (r: DBResult<
        Option<(u64, String, Vec<u8>)>,
    >)
        requires
            self.wf(),
        ensures
            ({
                let rf = self.reference_file(name@, reference@);
                if !self@.contains_key(rf) {
                    r matches Ok(None)
                } else {
                    match text_of(self@[rf]) {
                        None => r matches Err(DBError::FilesystemError { path }) && path@ == rf,
                        Some(d) => if !is_digest(d) {
                            r matches Err(DBError::InvalidDigest(x)) && x@ == d
                        } else if !self@.contains_key(self.blob_file(d)) {
                            r matches Err(DBError::BlobNotExists { digest: x }) && x@ == d
                        } else {
                            r matches Ok(Some((size, digest, content)))
                                && digest@ == d
                                && content@ == self@[self.blob_file(d)]
                                && size == content@.len()
                        },
                    }
                }
            }),
    {
        let reference_path = self.get_reference_path(name, reference);
        let target = match self.files.get(reference_path.as_str()) {
            Some(bytes) => bytes,
            None => return Ok(None),
        };
        let digest = match utf8_text(target.as_slice()) {
            Some(d) => d,
            None => return Err(DBError::FilesystemError { path: reference_path }),
        };
        proof {
            vstd::utf8::encode_utf8_decode_utf8(digest@);
        }
        let (size, path) = match self.get_blob(digest) {
            Ok(found) => found,
            Err(e) => return Err(e),
        };
        match self.files.get(path.as_str()) {
            Some(content) => {
                let content = content.clone();
                assert(content@ =~= self@[path@]);
                Ok(Some((size, digest.to_owned(), content)))
            },
            None => Err(DBError::BlobNotExists { digest: digest.to_owned() }),
        }
    }

    /// Names of a repository's references, each once; `None` when it has none.
    pub fn get_references(&self, name: &str) -> (r: Option<Vec<String>>)
        requires
            self.wf(),
        ensures
            ({
                let names = names_under(self@, references_path(self.base(), name@));
                match r {
                    None => names == Set::<Seq<char>>::empty(),
                    Some(v) => names != Set::<Seq<char>>::empty() && lists_exactly(v@, names),
                }
            }),
    {
        let repository_path = self.get_references_path(name);
        let references = self.files.names_under(repository_path.as_str());
        if references.len() == 0 {
            let ghost names = names_under(self@, repository_path@);
            assert(names =~= Set::<Seq<char>>::empty()) by {
                assert forall|n: Seq<char>| !names.contains(n) by {
                    if names.contains(n) {
                        let a = choose|a: int| 0 <= a < references@.len() && #[trigger] references@[a]@ == n;
                    }
                }
            }
            None
        } else {
            assert(names_under(self@, repository_path@).contains(references@[0]@));
            Some(references)
        }
    }

    /// Takes back a file found under the root, as when the store is reopened. A
    /// file that stands where a blob does is kept only if its content hashes to
    /// the digest its path names; a file of a repository is kept as it is; any
    /// other file is left out. Returns whether the file was kept.
    pub fn restore_file(&mut self, path: String, content: Vec<u8>) -> (r: bool)
        requires
            old(self).wf(),
        ensures
            final(self).wf(),
            final(self).base() == old(self).base(),
            r == (path@ == blob_path(old(self).base(), hex_lower(sha256_of(content@))) || is_prefix(
                old(self).base() + "/repositories/"@,
                path@,
            )),
            r ==> final(self)@ == old(self)@.insert(path@, content@),
            !r ==> final(self)@ == old(self)@,
    {
        let hash = sha256_hex(content.as_slice());
        proof {
            lemma_hex_lower_is_hash(sha256_of(content@));
        }
        let blob = self.hash_blob_path(hash.as_str());
        if blob == path {
            proof {
                lemma_blob_write_keeps_blobs(self.base(), self@, hash@, content@);
            }
            self.files.insert(path, content);
            return true;
        }
        let mut repositories = self.config.base_path.clone();
        repositories.append("/repositories/");
        match strip_prefix(path.as_str(), repositories.as_str()) {
            Some(rest) => {
                proof {
                    assert(path@ == repository_path(self.base(), Seq::empty()) + rest@) by {
                        assert(repository_path(self.base(), Seq::empty()) =~= repositories@);
                    }
                    lemma_repository_write_keeps_blobs(self.base(), self@, Seq::empty(), rest@, content@);
                }
                self.files.insert(path, content);
                true
            },
            None => false,
        }
    }
}

} // verus!
