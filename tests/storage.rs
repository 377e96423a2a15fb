use registry_rs::db::{DBError, FilesystemDB, FilesystemDBConfig};
use registry_rs::digest::{compute, format_digest_text, is_hash_text};
use registry_rs::params::QueryParams;
use registry_rs::tree::{strip_prefix, FileTree};

const HELLO: &str = "sha256:2cf24dba5fb0a30e26e83b2ac5b9e29e1b161e5c1fa7425e73043362938b9824";
const ABC: &str = "sha256:ba7816bf8f01cfea414140de5dae2223b00361a396177a9cb410ff61f20015ad";
const XYZ: &str = "sha256:3608bca1e44ea6c4d268eb6db02260269892c0b42b86bbf1e77a6fa16c3c9282";
const EMPTY: &str = "sha256:e3b0c44298fc1c149afbf4c8996fb92427ae41e4649b934ca495991b7852b855";
const HELLO_WORLD: &str =
    "sha256:b94d27b9934d3e08a52e52d7da7dabfac484efe37a5380ee9088f7ace2efcde9";
const MANIFEST: &str = "{\"schemaVersion\":2}";
const MANIFEST_DIGEST: &str =
    "sha256:bafebd36189ad3688b7b3915ea55d461e0bfcfbdde11e54b0a123999fb6be50f";
const ROOT: &str = ".local/share/registry-rs";

fn blob_content(db: &FilesystemDB, digest: &str) -> Vec<u8> {
    let (_size, path) = db.get_blob(digest).unwrap();
    db.files().get(&path).unwrap().clone()
}

#[test]
fn compute_formats_sha256_of_bytes() {
    assert_eq!(compute(b"hello"), HELLO);
    assert_eq!(compute(b"abc"), ABC);
    assert_eq!(compute(b""), EMPTY);
}

#[test]
fn format_digest_text_prefixes_algorithm() {
    assert_eq!(format_digest_text("00"), "sha256:00");
}

#[test]
fn is_hash_text_accepts_only_64_lower_hex() {
    assert!(is_hash_text(&HELLO[7..]));
    assert!(!is_hash_text(&HELLO[8..]));
    assert!(!is_hash_text(&HELLO[7..].to_uppercase()));
    assert!(!is_hash_text(&format!("{}g", &HELLO[8..])));
}

#[test]
fn digest_parse_of_computed_digest_round_trips() {
    let db = FilesystemDB::default();
    let digest = compute(b"hello world");
    let (algo, hash) = db.extract_digest(&digest).unwrap();
    assert_eq!(algo, "sha256");
    assert_eq!(hash, &HELLO_WORLD[7..]);
    assert_eq!(format_digest_text(&hash), digest);
}

#[test]
fn extract_digest_rejects_malformed_strings() {
    let db = FilesystemDB::default();
    for bad in [
        "",
        "sha256",
        "2cf24dba5fb0a30e26e83b2ac5b9e29e1b161e5c1fa7425e73043362938b9824",
        "sha256:2cf24dba",
        "sha512:2cf24dba5fb0a30e26e83b2ac5b9e29e1b161e5c1fa7425e73043362938b9824",
        "sha256:2CF24DBA5FB0A30E26E83B2AC5B9E29E1B161E5C1FA7425E73043362938B9824",
        "sha256:2cf24dba5fb0a30e26e83b2ac5b9e29e1b161e5c1fa7425e73043362938b98240",
    ] {
        assert_eq!(db.extract_digest(bad), Err(DBError::InvalidDigest(bad.to_string())));
    }
}

#[test]
fn default_config_roots_the_store() {
    let db = FilesystemDB::new(FilesystemDBConfig::default());
    assert_eq!(db.get_repository_path("lib/app"), format!("{ROOT}/repositories/lib/app"));
}

#[test]
fn path_layout() {
    let db = FilesystemDB::default();
    assert_eq!(
        db.get_upload_path("lib/app", "id1"),
        format!("{ROOT}/repositories/lib/app/_uploads/id1")
    );
    assert_eq!(db.get_references_path("lib/app"), format!("{ROOT}/repositories/lib/app/_refs/"));
    assert_eq!(
        db.get_reference_path("lib/app", "latest"),
        format!("{ROOT}/repositories/lib/app/_refs/latest")
    );
    assert_eq!(
        db.get_blob_path(HELLO).unwrap(),
        format!("{ROOT}/blobs/sha256/2c/{}", &HELLO[7..])
    );
}

#[test]
fn blob_path_of_malformed_digest_fails() {
    let db = FilesystemDB::default();
    assert_eq!(db.get_blob_path("hello"), Err(DBError::InvalidDigest("hello".to_string())));
}

#[test]
fn upload_hello_then_get() {
    let mut db = FilesystemDB::default();
    let id = db.create_upload("lib/app").unwrap();
    assert_eq!(id.len(), 36);
    assert_eq!(db.write_upload("lib/app", &id, b"hello"), Ok((0, 4)));
    assert_eq!(db.commit_upload("lib/app", &id, HELLO), Ok(()));
    let (size, path) = db.get_blob(HELLO).unwrap();
    assert_eq!(size, 5);
    assert_eq!(path, format!("{ROOT}/blobs/sha256/2c/{}", &HELLO[7..]));
    assert_eq!(db.files().get(&path).unwrap().as_slice(), b"hello");
    assert!(!db.files().contains(&db.get_upload_path("lib/app", &id)));
}

#[test]
fn upload_with_wrong_digest_publishes_nothing() {
    let mut db = FilesystemDB::default();
    let id = db.create_upload("lib/app").unwrap();
    assert_eq!(db.write_upload("lib/app", &id, b"abc"), Ok((0, 2)));
    assert_eq!(
        db.commit_upload("lib/app", &id, XYZ),
        Err(DBError::DigestsDontMatch { given: XYZ.to_string(), computed: ABC.to_string() })
    );
    assert_eq!(db.get_blob(ABC), Err(DBError::BlobNotExists { digest: ABC.to_string() }));
    assert_eq!(db.get_blob(XYZ), Err(DBError::BlobNotExists { digest: XYZ.to_string() }));
    assert!(!db.files().contains(&db.get_upload_path("lib/app", &id)));
}

#[test]
fn chunks_are_concatenated_in_order() {
    let mut db = FilesystemDB::default();
    let id = db.create_upload("lib/app").unwrap();
    assert_eq!(db.write_upload("lib/app", &id, b"hel"), Ok((0, 2)));
    assert_eq!(db.write_upload("lib/app", &id, b"lo wor"), Ok((3, 8)));
    assert_eq!(db.write_upload("lib/app", &id, b"ld"), Ok((9, 10)));
    assert_eq!(db.commit_upload("lib/app", &id, HELLO_WORLD), Ok(()));
    assert_eq!(blob_content(&db, HELLO_WORLD), b"hello world".to_vec());
    assert_eq!(db.get_blob(HELLO_WORLD).unwrap().0, 11);
}

#[test]
fn empty_append_to_empty_session_reports_zero_range() {
    let mut db = FilesystemDB::default();
    db.create_upload_with_id("lib/app", "s");
    assert_eq!(db.write_upload("lib/app", "s", b""), Ok((0, 0)));
    assert_eq!(db.commit_upload("lib/app", "s", EMPTY), Ok(()));
    assert_eq!(db.get_blob(EMPTY).unwrap().0, 0);
}

#[test]
fn append_to_unknown_session_fails() {
    let mut db = FilesystemDB::default();
    assert_eq!(
        db.write_upload("lib/app", "nope", b"abc"),
        Err(DBError::UploadNotExists { id: "nope".to_string() })
    );
}

#[test]
fn append_after_commit_fails() {
    let mut db = FilesystemDB::default();
    db.create_upload_with_id("lib/app", "s");
    db.write_upload("lib/app", "s", b"hello").unwrap();
    db.commit_upload("lib/app", "s", HELLO).unwrap();
    assert_eq!(
        db.write_upload("lib/app", "s", b"more"),
        Err(DBError::UploadNotExists { id: "s".to_string() })
    );
}

#[test]
fn append_after_failed_commit_fails() {
    let mut db = FilesystemDB::default();
    db.create_upload_with_id("lib/app", "s");
    db.write_upload("lib/app", "s", b"abc").unwrap();
    assert!(db.commit_upload("lib/app", "s", XYZ).is_err());
    assert_eq!(
        db.write_upload("lib/app", "s", b"more"),
        Err(DBError::UploadNotExists { id: "s".to_string() })
    );
}

#[test]
fn append_after_abort_fails() {
    let mut db = FilesystemDB::default();
    db.create_upload_with_id("lib/app", "s");
    assert_eq!(db.delete_upload("lib/app", "s"), Ok(()));
    assert_eq!(
        db.write_upload("lib/app", "s", b"x"),
        Err(DBError::UploadNotExists { id: "s".to_string() })
    );
    assert_eq!(
        db.delete_upload("lib/app", "s"),
        Err(DBError::UploadNotExists { id: "s".to_string() })
    );
}

#[test]
fn commit_with_malformed_digest_keeps_session() {
    let mut db = FilesystemDB::default();
    db.create_upload_with_id("lib/app", "s");
    db.write_upload("lib/app", "s", b"abc").unwrap();
    assert_eq!(
        db.commit_upload("lib/app", "s", "sha256:abc"),
        Err(DBError::InvalidDigest("sha256:abc".to_string()))
    );
    assert_eq!(db.write_upload("lib/app", "s", b"d"), Ok((3, 3)));
}

#[test]
fn commit_of_unknown_session_fails() {
    let mut db = FilesystemDB::default();
    assert_eq!(
        db.commit_upload("lib/app", "nope", HELLO),
        Err(DBError::UploadNotExists { id: "nope".to_string() })
    );
}

#[test]
fn get_blob_of_malformed_digest_fails() {
    let db = FilesystemDB::default();
    assert_eq!(db.get_blob("nope"), Err(DBError::InvalidDigest("nope".to_string())));
}

#[test]
fn create_manifest_stores_under_own_digest() {
    let mut db = FilesystemDB::default();
    let digest = db.create_manifest("repo", "latest", MANIFEST);
    assert_eq!(digest, MANIFEST_DIGEST);
    assert_eq!(blob_content(&db, &digest), MANIFEST.as_bytes().to_vec());
    assert_eq!(db.create_manifest("repo", "other", MANIFEST), MANIFEST_DIGEST);
}

#[test]
fn set_reference_then_resolve() {
    let mut db = FilesystemDB::default();
    let digest = db.create_manifest("repo", "latest", MANIFEST);
    let path = db.put_reference("repo", "latest", &digest);
    assert_eq!(path, format!("{ROOT}/repositories/repo/_refs/latest"));
    let (size, resolved, content) = db.get_manifest("repo", "latest").unwrap().unwrap();
    assert_eq!(size, MANIFEST.len() as u64);
    assert_eq!(resolved, MANIFEST_DIGEST);
    assert_eq!(content, MANIFEST.as_bytes().to_vec());
}

#[test]
fn reference_is_last_write_wins() {
    let mut db = FilesystemDB::default();
    let first = db.create_manifest("repo", "latest", MANIFEST);
    let second = db.create_manifest("repo", "latest", "{}");
    db.put_reference("repo", "latest", &first);
    db.put_reference("repo", "latest", &second);
    let (size, resolved, content) = db.get_manifest("repo", "latest").unwrap().unwrap();
    assert_eq!((size, resolved, content), (2, second, b"{}".to_vec()));
}

#[test]
fn resolve_of_missing_reference_is_none() {
    let db = FilesystemDB::default();
    assert_eq!(db.get_manifest("repo", "latest"), Ok(None));
}

#[test]
fn resolve_to_missing_blob_fails() {
    let mut db = FilesystemDB::default();
    db.put_reference("repo", "latest", HELLO);
    assert_eq!(
        db.get_manifest("repo", "latest"),
        Err(DBError::BlobNotExists { digest: HELLO.to_string() })
    );
}

#[test]
fn resolve_to_malformed_digest_fails() {
    let mut db = FilesystemDB::default();
    db.put_reference("repo", "latest", "garbage");
    assert_eq!(
        db.get_manifest("repo", "latest"),
        Err(DBError::InvalidDigest("garbage".to_string()))
    );
}

#[test]
fn resolve_of_non_text_reference_fails() {
    let mut db = FilesystemDB::default();
    let path = db.get_reference_path("repo", "latest");
    assert!(db.restore_file(path.clone(), vec![0xff, 0xfe]));
    assert_eq!(db.get_manifest("repo", "latest"), Err(DBError::FilesystemError { path }));
}

#[test]
fn list_references_of_unknown_repository_is_none() {
    let db = FilesystemDB::default();
    assert_eq!(db.get_references("repo"), None);
}

#[test]
fn list_references_after_one_set() {
    let mut db = FilesystemDB::default();
    db.put_reference("repo", "latest", HELLO);
    assert_eq!(db.get_references("repo"), Some(vec!["latest".to_string()]));
    assert_eq!(db.get_references("other"), None);
}

#[test]
fn list_references_lists_each_once() {
    let mut db = FilesystemDB::default();
    db.put_reference("repo", "v1", HELLO);
    db.put_reference("repo", "v2", ABC);
    db.put_reference("repo", "v1", ABC);
    let mut names = db.get_references("repo").unwrap();
    names.sort();
    assert_eq!(names, vec!["v1".to_string(), "v2".to_string()]);
}

#[test]
fn restore_keeps_verified_blobs_and_repository_files() {
    let mut db = FilesystemDB::default();
    let blob = db.get_blob_path(ABC).unwrap();
    assert!(db.restore_file(blob.clone(), b"abc".to_vec()));
    assert_eq!(db.get_blob(ABC), Ok((3, blob)));
    let forged = db.get_blob_path(XYZ).unwrap();
    assert!(!db.restore_file(forged, b"abc".to_vec()));
    assert_eq!(db.get_blob(XYZ), Err(DBError::BlobNotExists { digest: XYZ.to_string() }));
    let upload = db.get_upload_path("lib/app", "s");
    assert!(db.restore_file(upload, b"ab".to_vec()));
    assert_eq!(db.write_upload("lib/app", "s", b"c"), Ok((2, 2)));
    assert!(!db.restore_file("elsewhere/file".to_string(), b"x".to_vec()));
}

#[test]
fn file_tree_operations() {
    let mut t = FileTree::new();
    assert_eq!(t.get("a"), None);
    t.insert("a/x".to_string(), vec![1]);
    t.insert("a/y".to_string(), vec![2]);
    t.insert("b/z".to_string(), vec![3]);
    t.append("a/x", &[4, 5]);
    assert_eq!(t.get("a/x"), Some(&vec![1, 4, 5]));
    assert_eq!(t.remove("a/y"), Some(vec![2]));
    assert_eq!(t.remove("a/y"), None);
    assert_eq!(t.names_under("a/"), vec!["x".to_string()]);
    assert!(t.contains("b/z"));
    assert!(!t.contains("b/"));
}

#[test]
fn strip_prefix_splits() {
    assert_eq!(strip_prefix("abc", "ab"), Some("c".to_string()));
    assert_eq!(strip_prefix("abc", "abc"), Some(String::new()));
    assert_eq!(strip_prefix("abc", "b"), None);
    assert_eq!(strip_prefix("a", "abc"), None);
}

#[test]
fn query_params_carry_digest() {
    let q = QueryParams::new(HELLO.to_string());
    assert_eq!(q.digest(), HELLO);
}

#[test]
fn create_upload_opens_fresh_empty_sessions() {
    let mut db = FilesystemDB::default();
    let first = db.create_upload("lib/app").unwrap();
    let second = db.create_upload("lib/app").unwrap();
    assert_ne!(first, second);
    assert_eq!(second.len(), 36);
    for id in [&first, &second] {
        let path = db.get_upload_path("lib/app", id);
        assert_eq!(db.files().get(&path), Some(&Vec::new()));
    }
}
