use cmgr_artifact_server::build_id::{
    digest_to_build_id, is_artifact_tarball, salted_build_id, BuildEvent, EventKind,
};
use cmgr_artifact_server::checksum::TarballChecksum;
use cmgr_artifact_server::options::{option_value, parse_backend_option, BackendCreationError, OptionParsingError};
use cmgr_artifact_server::text::{find_char, to_filename_str, trim_leading_slashes};

fn hex(bytes: &[u8]) -> String {
    bytes.iter().map(|b| format!("{:02x}", b)).collect()
}

#[test]
fn salted_id_is_sha256_hex_of_raw_colon_salt() {
    let id = salted_build_id("b1", "S");
    assert_eq!(id, "03d8dd55762f71b8bdd7ab3fe82e3a44b31a42d2cfdea00befaa1e2492f42976");
    assert_eq!(id.len(), 64);
}

#[test]
fn salted_tarball_keeps_file_name_but_salts_id() {
    let id = is_artifact_tarball("/artifacts/b1.tar.gz", Some("S"));
    assert_eq!(
        id.as_deref(),
        Some("03d8dd55762f71b8bdd7ab3fe82e3a44b31a42d2cfdea00befaa1e2492f42976")
    );
}

#[test]
fn digest_to_build_id_is_lowercase_hex() {
    assert_eq!(digest_to_build_id(&vec![0x00, 0x0f, 0xa0, 0xff]), "000fa0ff");
    assert_eq!(digest_to_build_id(&vec![]), "");
}

#[test]
fn raw_ids_strip_one_suffix() {
    assert_eq!(is_artifact_tarball("/a/b1.tar.gz", None).as_deref(), Some("b1"));
    assert_eq!(is_artifact_tarball("b2.tar.gz", None).as_deref(), Some("b2"));
    assert_eq!(is_artifact_tarball("/a/x.tar.gz.tar.gz", None).as_deref(), Some("x.tar.gz"));
}

#[test]
fn non_tarballs_have_no_id() {
    assert_eq!(is_artifact_tarball("/a/readme.txt", None), None);
    assert_eq!(is_artifact_tarball("/a/b1.tar", None), None);
    assert_eq!(is_artifact_tarball("/a/.tar.gz", None), None);
    assert_eq!(is_artifact_tarball("/a/b1.tar.gz/..", None), None);
    assert_eq!(is_artifact_tarball("", Some("S")), None);
}

#[test]
fn file_names_of_paths() {
    assert_eq!(to_filename_str("/a/b/c.tar.gz"), Some("c.tar.gz"));
    assert_eq!(to_filename_str("c"), Some("c"));
    assert_eq!(to_filename_str("/a/b/"), Some("b"));
    assert_eq!(to_filename_str("/"), None);
    assert_eq!(to_filename_str(""), None);
    assert_eq!(to_filename_str("/a/.."), None);
    assert_eq!(to_filename_str("/a/."), None);
}

#[test]
fn leading_slashes_trimmed() {
    assert_eq!(trim_leading_slashes("//a/b"), "a/b");
    assert_eq!(trim_leading_slashes("a/"), "a/");
    assert_eq!(trim_leading_slashes("/"), "");
}

#[test]
fn find_char_first_occurrence() {
    assert_eq!(find_char("a=b=c", '='), Some(1));
    assert_eq!(find_char("abc", '='), None);
}

#[test]
fn backend_option_splits_at_first_equals() {
    assert_eq!(
        parse_backend_option("bucket=my-bucket"),
        Ok(("bucket".to_string(), "my-bucket".to_string()))
    );
    assert_eq!(
        parse_backend_option("k=v=w"),
        Ok(("k".to_string(), "v=w".to_string()))
    );
    assert_eq!(parse_backend_option("=x"), Ok((String::new(), "x".to_string())));
    assert_eq!(parse_backend_option("k="), Ok(("k".to_string(), String::new())));
}

#[test]
fn backend_option_without_equals_is_rejected() {
    assert_eq!(parse_backend_option("novalue"), Err(OptionParsingError));
    assert!(OptionParsingError.message().contains("key=value"));
    assert!(BackendCreationError.message().contains("required options"));
}

#[test]
fn option_lookup_takes_last_value() {
    let opts = vec![
        ("a".to_string(), "1".to_string()),
        ("b".to_string(), "2".to_string()),
        ("a".to_string(), "3".to_string()),
    ];
    assert_eq!(option_value(&opts, "a").map(|s| s.as_str()), Some("3"));
    assert_eq!(option_value(&opts, "b").map(|s| s.as_str()), Some("2"));
    assert_eq!(option_value(&opts, "c"), None);
}

#[test]
fn build_event_accessors() {
    let e = BuildEvent::new(EventKind::Update, "b1".to_string());
    assert_eq!(e.kind(), EventKind::Update);
    assert_eq!(e.build_id(), "b1");
    assert!(matches!(e, BuildEvent::Update(_)));
}

#[test]
fn checksum_of_empty_input() {
    let sum = TarballChecksum::new().finish();
    assert_eq!(
        hex(&sum),
        "786a02f742015903c6c6fd852552d272912f4740e15847618a86e217f71f5419d25e1031afee585313896444934eb04b903a685b1448b755d56f701afe9be2ce"
    );
}

#[test]
fn checksum_is_blake2b_512_of_all_chunks() {
    let mut c = TarballChecksum::new();
    c.update(b"hello ");
    c.update(b"world");
    let sum = c.finish();
    assert_eq!(sum.len(), 64);
    assert_eq!(
        hex(&sum),
        "021ced8799296ceca557832ab941a50b4a11f83478cf141f51f933f653ab9fbcc05a037cddbed06e309bf334942c4e58cdf1a46e237911ccd7fcf9787cbc7fd0"
    );
}
