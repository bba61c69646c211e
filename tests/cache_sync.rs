use cmgr_artifact_server::cache::{collect_tarballs, plan_cache_sync, CacheAction, CacheListing, Tarball};
use cmgr_artifact_server::checksum::TarballChecksum;
use cmgr_artifact_server::watcher::{plan_watch_event, FsChange};
use cmgr_artifact_server::build_id::BuildEvent;

fn paths(v: &[&str]) -> Vec<String> {
    v.iter().map(|s| s.to_string()).collect()
}

fn describe(actions: &[CacheAction]) -> Vec<String> {
    actions
        .iter()
        .map(|a| match a {
            CacheAction::RemoveFile(n) => format!("rmfile {}", n),
            CacheAction::Extract { build_id, path } => format!("extract {} {}", build_id, path),
            CacheAction::RemoveDir(n) => format!("rmdir {}", n),
        })
        .collect()
}

fn dir(name: &str, sentinel: Option<Vec<u8>>) -> CacheListing {
    CacheListing { name: name.to_string(), is_dir: true, sentinel }
}

fn file(name: &str) -> CacheListing {
    CacheListing { name: name.to_string(), is_dir: false, sentinel: None }
}

#[test]
fn collect_ignores_non_tarballs() {
    let ts = collect_tarballs(&paths(&["/a/b1.tar.gz", "/a/notes.txt", "/a/b2.tar.gz", "/a/b3.tgz"]), None);
    let ids: Vec<&str> = ts.iter().map(|t| t.build_id.as_str()).collect();
    assert_eq!(ids, vec!["b1", "b2"]);
    assert_eq!(ts[1].path, "/a/b2.tar.gz");
}

#[test]
fn collect_keeps_first_of_repeated_id() {
    let ts = collect_tarballs(&paths(&["/a/b1.tar.gz", "/b/b1.tar.gz"]), None);
    assert_eq!(ts.len(), 1);
    assert_eq!(ts[0].path, "/a/b1.tar.gz");
}

#[test]
fn collect_salted_ids() {
    let ts = collect_tarballs(&paths(&["/a/b1.tar.gz"]), Some("S"));
    assert_eq!(ts[0].build_id, "03d8dd55762f71b8bdd7ab3fe82e3a44b31a42d2cfdea00befaa1e2492f42976");
    assert_eq!(ts[0].path, "/a/b1.tar.gz");
}

#[test]
fn fresh_start_extracts_every_tarball() {
    let ts = collect_tarballs(&paths(&["/a/b1.tar.gz", "/a/b2.tar.gz"]), None);
    let sums = vec![vec![1u8; 64], vec![2u8; 64]];
    let plan = plan_cache_sync(&ts, &sums, &vec![]);
    assert_eq!(describe(&plan), vec!["extract b1 /a/b1.tar.gz", "extract b2 /a/b2.tar.gz"]);
}

#[test]
fn fresh_entries_are_kept() {
    let ts = collect_tarballs(&paths(&["/a/b1.tar.gz", "/a/b2.tar.gz"]), None);
    let sums = vec![vec![1u8; 64], vec![2u8; 64]];
    let listing = vec![dir("b1", Some(vec![1u8; 64])), dir("b2", Some(vec![9u8; 64]))];
    let plan = plan_cache_sync(&ts, &sums, &listing);
    assert_eq!(describe(&plan), vec!["extract b2 /a/b2.tar.gz"]);
}

#[test]
fn second_sync_does_nothing() {
    let ts = collect_tarballs(&paths(&["/a/b1.tar.gz", "/a/b2.tar.gz"]), None);
    let sums = vec![vec![1u8; 64], vec![2u8; 64]];
    let listing = vec![dir("b2", Some(vec![2u8; 64])), dir("b1", Some(vec![1u8; 64]))];
    assert!(plan_cache_sync(&ts, &sums, &listing).is_empty());
}

#[test]
fn missing_sentinel_is_reextracted() {
    let ts = collect_tarballs(&paths(&["/a/b1.tar.gz"]), None);
    let plan = plan_cache_sync(&ts, &vec![vec![1u8; 64]], &vec![dir("b1", None)]);
    assert_eq!(describe(&plan), vec!["extract b1 /a/b1.tar.gz"]);
}

#[test]
fn stale_cache_on_restart_is_removed() {
    let ts = collect_tarballs(&paths(&["/a/b1.tar.gz"]), None);
    let listing = vec![dir("b1", Some(vec![1u8; 64])), dir("b3", Some(vec![3u8; 64]))];
    let plan = plan_cache_sync(&ts, &vec![vec![1u8; 64]], &listing);
    assert_eq!(describe(&plan), vec!["rmdir b3"]);
}

#[test]
fn stray_file_is_removed() {
    let ts = collect_tarballs(&paths(&["/a/b1.tar.gz"]), None);
    let listing = vec![file("junk"), dir("b1", Some(vec![1u8; 64])), file("b1x")];
    let plan = plan_cache_sync(&ts, &vec![vec![1u8; 64]], &listing);
    assert_eq!(describe(&plan), vec!["rmfile junk", "rmfile b1x"]);
}

#[test]
fn stray_file_named_like_a_build_is_replaced() {
    let ts = collect_tarballs(&paths(&["/a/b1.tar.gz"]), None);
    let plan = plan_cache_sync(&ts, &vec![vec![1u8; 64]], &vec![file("b1")]);
    assert_eq!(describe(&plan), vec!["rmfile b1", "extract b1 /a/b1.tar.gz"]);
}

#[test]
fn empty_tarball_entry_is_fresh_with_empty_digest() {
    let empty_sum = TarballChecksum::new().finish();
    let ts = vec![Tarball { build_id: "e".to_string(), path: "/a/e.tar.gz".to_string() }];
    let listing = vec![dir("e", Some(empty_sum.clone()))];
    assert!(plan_cache_sync(&ts, &vec![empty_sum], &listing).is_empty());
}

fn watch(change: FsChange, p: &[&str], salt: Option<&str>) -> Vec<String> {
    plan_watch_event(change, &paths(p), salt)
        .iter()
        .map(|s| {
            let cache = match s.cache_action() {
                CacheAction::Extract { build_id, path } => format!("extract {} {}", build_id, path),
                CacheAction::RemoveDir(n) => format!("rmdir {}", n),
                CacheAction::RemoveFile(n) => format!("rmfile {}", n),
            };
            let ev = match &s.event {
                BuildEvent::Create(id) => format!("create {}", id),
                BuildEvent::Update(id) => format!("update {}", id),
                BuildEvent::Delete(id) => format!("delete {}", id),
            };
            format!("{}; {}", cache, ev)
        })
        .collect()
}

#[test]
fn created_tarball_is_extracted_then_announced() {
    assert_eq!(
        watch(FsChange::Created, &["/a/b1.tar.gz"], None),
        vec!["extract b1 /a/b1.tar.gz; create b1"]
    );
}

#[test]
fn update_event_reextracts() {
    assert_eq!(
        watch(FsChange::Modified, &["/a/b1.tar.gz"], None),
        vec!["extract b1 /a/b1.tar.gz; update b1"]
    );
}

#[test]
fn delete_event_removes_entry() {
    assert_eq!(watch(FsChange::Removed, &["/a/b2.tar.gz"], None), vec!["rmdir b2; delete b2"]);
}

#[test]
fn non_tarball_change_is_ignored() {
    assert!(watch(FsChange::Created, &["/a/readme.md"], None).is_empty());
    assert!(watch(FsChange::Other, &["/a/b1.tar.gz"], None).is_empty());
}

#[test]
fn watch_keeps_path_order() {
    assert_eq!(
        watch(FsChange::Modified, &["/a/b2.tar.gz", "/a/x.txt", "/a/b1.tar.gz", "/a/b2.tar.gz"], None),
        vec![
            "extract b2 /a/b2.tar.gz; update b2",
            "extract b1 /a/b1.tar.gz; update b1",
            "extract b2 /a/b2.tar.gz; update b2",
        ]
    );
}

#[test]
fn watch_uses_salted_ids() {
    assert_eq!(
        watch(FsChange::Created, &["/a/b1.tar.gz"], Some("S")),
        vec!["extract 03d8dd55762f71b8bdd7ab3fe82e3a44b31a42d2cfdea00befaa1e2492f42976 /a/b1.tar.gz; create 03d8dd55762f71b8bdd7ab3fe82e3a44b31a42d2cfdea00befaa1e2492f42976"]
    );
}

#[test]
fn created_then_removed_tarball_plans() {
    let mut steps = watch(FsChange::Created, &["/a/b5.tar.gz"], None);
    steps.extend(watch(FsChange::Removed, &["/a/b5.tar.gz"], None));
    assert_eq!(steps, vec!["extract b5 /a/b5.tar.gz; create b5", "rmdir b5; delete b5"]);
}
