use cmgr_artifact_server::build_id::BuildEvent;
use cmgr_artifact_server::remote::{RemoteAction, SentinelCheck};
use cmgr_artifact_server::s3::{
    batch_delete_keys, normalize_path_prefix, PreflightStep, WalkedEntry, S3,
};
use cmgr_artifact_server::selfhosted::{is_attachment, route_request, Route, Selfhosted};

fn opts(v: &[(&str, &str)]) -> Vec<(String, String)> {
    v.iter().map(|(k, v)| (k.to_string(), v.to_string())).collect()
}

fn strings(v: &[&str]) -> Vec<String> {
    v.iter().map(|s| s.to_string()).collect()
}

fn describe(actions: &[RemoteAction]) -> Vec<String> {
    actions
        .iter()
        .map(|a| match a {
            RemoteAction::DeleteDir(id) => format!("delete {}", id),
            RemoteAction::Upload(id) => format!("upload {}", id),
            RemoteAction::Invalidate(id) => format!("invalidate {}", id),
        })
        .collect()
}

fn s3_with_cdn() -> S3 {
    S3::new(&opts(&[("bucket", "bk"), ("path-prefix", "p"), ("cloudfront-distribution", "D1")])).unwrap()
}

#[test]
fn path_prefix_normalization() {
    assert_eq!(normalize_path_prefix(""), "");
    assert_eq!(normalize_path_prefix("/"), "");
    assert_eq!(normalize_path_prefix("/a"), "a/");
    assert_eq!(normalize_path_prefix("a/"), "a/");
    assert_eq!(normalize_path_prefix("a"), "a/");
    assert_eq!(normalize_path_prefix("//x/y"), "x/y/");
}

#[test]
fn root_prefix_gives_keys_without_leading_slash() {
    let s3 = S3::new(&opts(&[("bucket", "bk"), ("path-prefix", "/")])).unwrap();
    assert_eq!(s3.path_prefix(), "");
    assert_eq!(s3.object_key("b1", "foo.bin"), "b1/foo.bin");
    assert_eq!(s3.invalidation_path("b1"), "/b1*");
}

#[test]
fn s3_requires_bucket() {
    assert!(S3::new(&opts(&[("path-prefix", "p")])).is_err());
}

#[test]
fn s3_options() {
    let s3 = s3_with_cdn();
    assert_eq!(s3.bucket(), "bk");
    assert_eq!(s3.path_prefix(), "p/");
    assert_eq!(s3.cloudfront_distribution().map(|s| s.as_str()), Some("D1"));
    let plain = S3::new(&opts(&[("bucket", "bk")])).unwrap();
    assert_eq!(plain.path_prefix(), "");
    assert_eq!(plain.cloudfront_distribution(), None);
}

#[test]
fn s3_keys() {
    let s3 = s3_with_cdn();
    assert_eq!(s3.bucket_dir_prefix("b1"), "p/b1/");
    assert_eq!(s3.object_key("b1", "sub/foo.bin"), "p/b1/sub/foo.bin");
    assert_eq!(s3.checksum_key("b1"), "p/b1/.__checksum");
    assert_eq!(s3.invalidation_path("b1"), "/p/b1*");
    assert_eq!(s3.preflight_key(), "p/iam_test");
}

#[test]
fn listed_build_ids() {
    let s3 = s3_with_cdn();
    assert_eq!(s3.listed_build_id("p/b1/").as_deref(), Some("b1"));
    assert_eq!(s3.listed_build_id("q/b1/"), None);
}

#[test]
fn upload_plan_skips_non_files() {
    let s3 = s3_with_cdn();
    let entries = vec![
        WalkedEntry { relative_path: "foo.bin".to_string(), is_file: true },
        WalkedEntry { relative_path: "sub".to_string(), is_file: false },
        WalkedEntry { relative_path: "sub/x".to_string(), is_file: true },
        WalkedEntry { relative_path: ".__checksum".to_string(), is_file: true },
    ];
    let keys: Vec<String> = s3.upload_plan("b1", &entries).into_iter().map(|u| u.key).collect();
    assert_eq!(keys, vec!["p/b1/foo.bin", "p/b1/sub/x", "p/b1/.__checksum"]);
}

#[test]
fn empty_listing_skips_batch_delete() {
    assert_eq!(batch_delete_keys(vec![]), None);
    assert_eq!(batch_delete_keys(strings(&["p/b1/a"])), Some(strings(&["p/b1/a"])));
}

#[test]
fn event_plans_with_cdn() {
    let s3 = s3_with_cdn();
    assert_eq!(describe(&s3.event_plan(&BuildEvent::Create("b1".into()))), vec!["upload b1"]);
    assert_eq!(
        describe(&s3.event_plan(&BuildEvent::Update("b1".into()))),
        vec!["delete b1", "upload b1", "invalidate b1"]
    );
    assert_eq!(
        describe(&s3.event_plan(&BuildEvent::Delete("b2".into()))),
        vec!["delete b2", "invalidate b2"]
    );
}

#[test]
fn event_plans_without_cdn() {
    let s3 = S3::new(&opts(&[("bucket", "bk")])).unwrap();
    assert_eq!(
        describe(&s3.event_plan(&BuildEvent::Update("b1".into()))),
        vec!["delete b1", "upload b1"]
    );
    assert_eq!(describe(&s3.event_plan(&BuildEvent::Delete("b1".into()))), vec!["delete b1"]);
}

#[test]
fn builds_to_compare_are_local_and_remote() {
    let r = S3::builds_to_compare(&strings(&["b1", "b2", "b3"]), &strings(&["b3", "b1", "b9"]));
    assert_eq!(r, strings(&["b1", "b3"]));
}

#[test]
fn synchronize_plan() {
    let s3 = s3_with_cdn();
    let checks = vec![
        SentinelCheck { build_id: "b1".into(), remote: Some(vec![1]), local: vec![1] },
        SentinelCheck { build_id: "b2".into(), remote: Some(vec![7]), local: vec![2] },
        SentinelCheck { build_id: "b4".into(), remote: None, local: vec![4] },
    ];
    let plan = s3.plan_synchronize(
        &strings(&["b1", "b2", "b3", "b4"]),
        &strings(&["b1", "b2", "b4", "old"]),
        &checks,
    );
    assert_eq!(
        describe(&plan),
        vec![
            "delete b2", "upload b2", "invalidate b2",
            "upload b3",
            "delete b4", "upload b4", "invalidate b4",
            "delete old", "invalidate old",
        ]
    );
}

#[test]
fn second_synchronize_does_nothing() {
    let s3 = s3_with_cdn();
    let checks = vec![SentinelCheck { build_id: "b1".into(), remote: Some(vec![1]), local: vec![1] }];
    let plan = s3.plan_synchronize(&strings(&["b1"]), &strings(&["b1"]), &checks);
    assert!(plan.is_empty());
}

#[test]
fn preflight_with_cdn() {
    let s3 = s3_with_cdn();
    let steps: Vec<String> = s3
        .preflight_plan()
        .iter()
        .map(|s| match s {
            PreflightStep::ListObjects => "list".to_string(),
            PreflightStep::PutObject { key, body } => format!("put {} {}", key, body),
            PreflightStep::GetObject { key, expected } => format!("get {} {}", key, expected),
            PreflightStep::DeleteObject { key } => format!("delete {}", key),
            PreflightStep::Invalidate { path } => format!("invalidate {}", path),
        })
        .collect();
    assert_eq!(
        steps,
        vec![
            "list",
            "put p/iam_test test contents",
            "get p/iam_test test contents",
            "delete p/iam_test",
            "invalidate /p/iam_test",
        ]
    );
    let plain = S3::new(&opts(&[("bucket", "bk")])).unwrap();
    assert_eq!(plain.preflight_plan().len(), 4);
}

#[test]
fn local_http_routes() {
    assert_eq!(route_request("/health"), Route::Health);
    assert_eq!(route_request("/b1/.__checksum"), Route::Hidden);
    assert_eq!(route_request("/b1/foo.bin"), Route::Static);
    assert_eq!(route_request("/healthz"), Route::Static);
    assert!(is_attachment(200));
    assert!(!is_attachment(404));
    assert!(!is_attachment(304));
}

#[test]
fn selfhosted_address() {
    let s = Selfhosted::new(&vec![]).unwrap();
    assert_eq!(s.address(), "0.0.0.0:4201");
    let s = Selfhosted::new(&opts(&[("address", "127.0.0.1:80")])).unwrap();
    assert_eq!(s.address(), "127.0.0.1:80");
}

#[test]
fn fresh_start_uploads_every_build() {
    let s3 = s3_with_cdn();
    let plan = s3.plan_synchronize(&strings(&["b1", "b2"]), &vec![], &vec![]);
    assert_eq!(describe(&plan), vec!["upload b1", "upload b2"]);
    let keys: Vec<String> = s3
        .upload_plan(
            "b1",
            &vec![
                WalkedEntry { relative_path: "foo.bin".to_string(), is_file: true },
                WalkedEntry { relative_path: ".__checksum".to_string(), is_file: true },
            ],
        )
        .into_iter()
        .map(|u| u.key)
        .collect();
    assert_eq!(keys, vec!["p/b1/foo.bin", "p/b1/.__checksum"]);
}

#[test]
fn update_event_replaces_and_invalidates_build_path() {
    let s3 = s3_with_cdn();
    let plan = s3.event_plan(&BuildEvent::Update("b1".into()));
    assert_eq!(describe(&plan), vec!["delete b1", "upload b1", "invalidate b1"]);
    assert_eq!(s3.bucket_dir_prefix("b1"), "p/b1/");
    assert_eq!(s3.invalidation_path("b1"), "/p/b1*");
}

#[test]
fn delete_event_removes_and_invalidates_build_path() {
    let s3 = s3_with_cdn();
    let plan = s3.event_plan(&BuildEvent::Delete("b2".into()));
    assert_eq!(describe(&plan), vec!["delete b2", "invalidate b2"]);
    assert_eq!(s3.bucket_dir_prefix("b2"), "p/b2/");
    assert_eq!(s3.invalidation_path("b2"), "/p/b2*");
}

#[test]
fn create_then_delete_plans() {
    let s3 = s3_with_cdn();
    let mut plan = s3.event_plan(&BuildEvent::Create("b5".into()));
    plan.extend(s3.event_plan(&BuildEvent::Delete("b5".into())));
    assert_eq!(describe(&plan), vec!["upload b5", "delete b5", "invalidate b5"]);
}
