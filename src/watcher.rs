//! Watcher decisions: what a debounced change to the artifact directory does
//! to the cache and which build events it emits.

use crate::build_id::{
    artifact_build_id, is_artifact_tarball, opt_view, tarball_suffix, BuildEvent, EventKind,
};
use crate::cache::{apply_cache_steps, collected, CacheAction, CacheNode, CacheStep};
use crate::text::{file_name_of, has_suffix, strings_view};
use vstd::prelude::*;

verus! {

/// Window, in seconds, within which raw events on one path coalesce.
pub const DEBOUNCE_SECONDS: u64 = 2;

/// Capacity of the channel that carries build events to the backend; a full
/// channel blocks the watcher.
pub const EVENT_BUS_CAPACITY: usize = 32;

/// Kind of a debounced filesystem change.
#[derive(PartialEq, Eq, Structural, Clone, Copy, Debug)]
pub enum FsChange {
    Created,
    Modified,
    Removed,
    Other,
}

/// The build event a change gives rise to, if any.
pub open spec fn change_kind(c: FsChange) -> Option<EventKind> {
    match c {
        FsChange::Created => Some(EventKind::Create),
        FsChange::Modified => Some(EventKind::Update),
        FsChange::Removed => Some(EventKind::Delete),
        FsChange::Other => None,
    }
}

/// What the watcher does for one tarball path: update the cache, then emit `event`.
#[derive(Debug)]
pub struct WatchStep {
    pub event: BuildEvent,
    /// The tarball the change concerns.
    pub tarball: String,
}

impl View for WatchStep {
    type V = (EventKind, Seq<char>, Seq<char>);

    open spec fn view(&self) -> (EventKind, Seq<char>, Seq<char>) {
        (self.event@.0, self.event@.1, self.tarball@)
    }
}

/// The models of a sequence of watch steps.
pub open spec fn watch_steps_view(steps: Seq<WatchStep>) -> Seq<(EventKind, Seq<char>, Seq<char>)> {
    steps.map_values(|s: WatchStep| s@)
}

/// The step for a change of kind `c` to `path`; none unless the change is a
/// create, modify or remove of an artifact tarball.
pub open spec fn watch_step(c: FsChange, path: Seq<char>, salt: Option<Seq<char>>) -> Option<
    (EventKind, Seq<char>, Seq<char>),
> {
    match change_kind(c) {
        Some(k) => match artifact_build_id(path, salt) {
            Some(id) => Some((k, id, path)),
            None => None,
        },
        None => None,
    }
}

/// Steps for a change to each of `paths`, in order.
pub open spec fn watch_steps(c: FsChange, paths: Seq<Seq<char>>, salt: Option<Seq<char>>) -> Seq<
    (EventKind, Seq<char>, Seq<char>),
>
    decreases paths.len(),
{
    if paths.len() == 0 {
        Seq::empty()
    } else {
        let rest = watch_steps(c, paths.drop_last(), salt);
        match watch_step(c, paths.last(), salt) {
            Some(s) => rest.push(s),
            None => rest,
        }
    }
}

/// The cache update a step performs: extract for a create or update, remove
/// the entry for a delete.
pub open spec fn cache_step_for(w: (EventKind, Seq<char>, Seq<char>)) -> CacheStep {
    match w.0 {
        EventKind::Delete => CacheStep::RemoveDir(w.1),
        _ => CacheStep::Extract(w.1, w.2),
    }
}

impl WatchStep {
    /// The cache update to perform before the event is emitted.
    pub fn cache_action(&self) -> (r: CacheAction)
        ensures
            r@ == cache_step_for(self@),
    {
        let id = self.event.build_id().clone();
        match self.event.kind() {
            EventKind::Delete => CacheAction::RemoveDir(id),
            _ => CacheAction::Extract { build_id: id, path: self.tarball.clone() },
        }
    }
}

/// Decides what a debounced change of kind `change` to each of `paths` does:
/// for every path that is an artifact tarball, one step carrying its build
/// id, in the order of `paths`; other paths and other kinds of change do nothing.
pub fn plan_watch_event(change: FsChange, paths: &Vec<String>, digest_salt: Option<&str>) -> (r: Vec<
    WatchStep,
>)
    ensures
        watch_steps_view(r@) == watch_steps(change, strings_view(paths@), opt_view(digest_salt)),
{
    let ghost pv = strings_view(paths@);
    let ghost salt = opt_view(digest_salt);
    let kind = match change {
        FsChange::Created => Some(EventKind::Create),
        FsChange::Modified => Some(EventKind::Update),
        FsChange::Removed => Some(EventKind::Delete),
        FsChange::Other => None,
    };
    let mut out: Vec<WatchStep> = Vec::new();
    let mut i: usize = 0;
    while i < paths.len()
        invariant
            0 <= i <= paths@.len(),
            pv == strings_view(paths@),
            salt == opt_view(digest_salt),
            kind == change_kind(change),
            watch_steps_view(out@) == watch_steps(change, pv.take(i as int), salt),
        decreases paths@.len() - i,
    {
        proof {
            assert(pv.take(i + 1).drop_last() =~= pv.take(i as int));
        }
        match kind {
            Some(k) => match is_artifact_tarball(paths[i].as_str(), digest_salt) {
                Some(id) => {
                    out.push(WatchStep { event: BuildEvent::new(k, id), tarball: paths[i].clone() });
                },
                None => {},
            },
            None => {},
        }
        assert(watch_steps_view(out@) =~= watch_steps(change, pv.take(i + 1), salt));
        i += 1;
    }
    assert(pv.take(paths@.len() as int) =~= pv);
    out
}

/// Steps about build `b`.
pub open spec fn about_build(b: Seq<char>) -> spec_fn((EventKind, Seq<char>, Seq<char>)) -> bool {
    |s: (EventKind, Seq<char>, Seq<char>)| s.1 == b
}

/// Paths whose tarball has build id `b`.
pub open spec fn tarball_of_build(b: Seq<char>, salt: Option<Seq<char>>) -> spec_fn(Seq<char>) -> bool {
    |p: Seq<char>| artifact_build_id(p, salt) == Some(b)
}

/// Per-build ordering: the steps about one build are the steps for that
/// build's paths alone, in the order the paths were delivered.
pub proof fn lemma_watch_order_per_build(c: FsChange, paths: Seq<Seq<char>>, salt: Option<Seq<char>>, b: Seq<char>)
    ensures
        watch_steps(c, paths, salt).filter(about_build(b)) == watch_steps(
            c,
            paths.filter(tarball_of_build(b, salt)),
            salt,
        ),
    decreases paths.len(),
{
    reveal(Seq::filter);
    if paths.len() == 0 {
        assert(paths.filter(tarball_of_build(b, salt)) =~= paths);
    } else {
        let rest = paths.drop_last();
        let p = paths.last();
        lemma_watch_order_per_build(c, rest, salt, b);
        let fr = rest.filter(tarball_of_build(b, salt));
        let wr = watch_steps(c, rest, salt);
        if artifact_build_id(p, salt) == Some(b) {
            assert(fr.push(p).drop_last() =~= fr);
            assert(paths.filter(tarball_of_build(b, salt)) == fr.push(p));
        } else {
            assert(paths.filter(tarball_of_build(b, salt)) == fr);
        }
        match watch_step(c, p, salt) {
            Some(st) => {
                assert(wr.push(st).drop_last() =~= wr);
                assert(watch_steps(c, paths, salt) == wr.push(st));
            },
            None => {
                assert(watch_steps(c, paths, salt) == wr);
            },
        }
    }
}

/// A file that is not a `.tar.gz` tarball changes neither what the watcher
/// does nor which tarballs reconciliation sees.
pub proof fn lemma_non_tarball_ignored(c: FsChange, paths: Seq<Seq<char>>, p: Seq<char>, salt: Option<Seq<char>>)
    requires
        match file_name_of(p) {
            Some(n) => !has_suffix(n, tarball_suffix()),
            None => true,
        },
    ensures
        watch_steps(c, paths.push(p), salt) == watch_steps(c, paths, salt),
        collected(paths.push(p), salt) == collected(paths, salt),
{
    assert(paths.push(p).drop_last() =~= paths);
}

/// A tarball created and then removed leaves the cache as though neither
/// change occurred.
pub proof fn lemma_create_then_delete_cache(
    id: Seq<char>,
    created: Seq<char>,
    removed: Seq<char>,
    m: Map<Seq<char>, CacheNode>,
    table: Map<Seq<char>, Seq<u8>>,
)
    requires
        !m.contains_key(id),
    ensures
        apply_cache_steps(
            seq![
                cache_step_for((EventKind::Create, id, created)),
                cache_step_for((EventKind::Delete, id, removed)),
            ],
            m,
            table,
        ) == m,
{
    let s = seq![cache_step_for((EventKind::Create, id, created)), cache_step_for((EventKind::Delete, id, removed))];
    assert(s.drop_last() =~= seq![CacheStep::Extract(id, created)]);
    assert(s.drop_last().drop_last() =~= Seq::<CacheStep>::empty());
    assert(apply_cache_steps(s.drop_last().drop_last(), m, table) == m);
    assert(apply_cache_steps(s.drop_last(), m, table) == m.insert(id, CacheNode::Dir(Some(table[id]))));
    assert(m.insert(id, CacheNode::Dir(Some(table[id]))).remove(id) =~= m);
}

} // verus!
