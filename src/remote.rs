//! Bucket reconciliation: the actions the object-store backend takes per
//! event and at startup, and a model of the bucket under which they are shown
//! to converge.
//!
//! The bucket is modelled per build id: a key is present when the bucket holds
//! a directory for that build, and maps to `true` when that directory's
//! sentinel matches the local cache entry's.

use crate::build_id::{BuildEvent, EventKind};
use crate::s3::S3;
use crate::text::{bytes_equal, contains_string, strings_view};
use vstd::prelude::*;

verus! {

/// Model of one store action.
pub enum RemoteStep {
    DeleteDir(Seq<char>),
    Upload(Seq<char>),
    Invalidate(Seq<char>),
}

/// One action against the store, for one build id.
#[derive(Debug)]
pub enum RemoteAction {
    /// Delete every object under the build's directory.
    DeleteDir(String),
    /// Upload the build's cache entry.
    Upload(String),
    /// Invalidate the build's paths in the CDN.
    Invalidate(String),
}

impl View for RemoteAction {
    type V = RemoteStep;

    open spec fn view(&self) -> RemoteStep {
        match self {
            RemoteAction::DeleteDir(id) => RemoteStep::DeleteDir(id@),
            RemoteAction::Upload(id) => RemoteStep::Upload(id@),
            RemoteAction::Invalidate(id) => RemoteStep::Invalidate(id@),
        }
    }
}

/// The models of a sequence of actions.
pub open spec fn steps_of(actions: Seq<RemoteAction>) -> Seq<RemoteStep> {
    actions.map_values(|a: RemoteAction| a@)
}

/// Sentinels of one build found both locally and in the bucket.
#[derive(Debug)]
pub struct SentinelCheck {
    pub build_id: String,
    /// The bucket's sentinel object, `None` when it is missing.
    pub remote: Option<Vec<u8>>,
    /// The local cache entry's sentinel.
    pub local: Vec<u8>,
}

impl View for SentinelCheck {
    type V = (Seq<char>, Option<Seq<u8>>, Seq<u8>);

    open spec fn view(&self) -> (Seq<char>, Option<Seq<u8>>, Seq<u8>) {
        (
            self.build_id@,
            match &self.remote {
                Some(b) => Some(b@),
                None => None,
            },
            self.local@,
        )
    }
}

/// The models of a sequence of sentinel checks.
pub open spec fn checks_view(checks: Seq<SentinelCheck>) -> Seq<(Seq<char>, Option<Seq<u8>>, Seq<u8>)> {
    checks.map_values(|c: SentinelCheck| c@)
}

/// Some check of `id` found the bucket's sentinel equal to the local one.
pub open spec fn is_current(checks: Seq<(Seq<char>, Option<Seq<u8>>, Seq<u8>)>, id: Seq<char>) -> bool {
    exists|i: int| 0 <= i < checks.len() && checks[i].0 == id && checks[i].1 == Some(checks[i].2)
}

/// Effect of one action on the bucket model.
pub open spec fn apply_remote_step(step: RemoteStep, m: Map<Seq<char>, bool>) -> Map<Seq<char>, bool> {
    match step {
        RemoteStep::DeleteDir(id) => m.remove(id),
        RemoteStep::Upload(id) => m.insert(id, true),
        RemoteStep::Invalidate(_) => m,
    }
}

/// Effect of a sequence of actions, in order.
pub open spec fn apply_remote_steps(steps: Seq<RemoteStep>, m: Map<Seq<char>, bool>) -> Map<Seq<char>, bool>
    decreases steps.len(),
{
    if steps.len() == 0 {
        m
    } else {
        apply_remote_step(steps.last(), apply_remote_steps(steps.drop_last(), m))
    }
}

/// An invalidation of `id` when a CDN is configured, else nothing.
pub open spec fn invalidation(id: Seq<char>, cdn: bool) -> Seq<RemoteStep> {
    if cdn {
        seq![RemoteStep::Invalidate(id)]
    } else {
        Seq::empty()
    }
}

/// Actions for one build event.
pub open spec fn event_steps(event: (EventKind, Seq<char>), cdn: bool) -> Seq<RemoteStep> {
    let id = event.1;
    match event.0 {
        EventKind::Create => seq![RemoteStep::Upload(id)],
        EventKind::Update => seq![RemoteStep::DeleteDir(id), RemoteStep::Upload(id)] + invalidation(id, cdn),
        EventKind::Delete => seq![RemoteStep::DeleteDir(id)] + invalidation(id, cdn),
    }
}

/// Startup actions for one local build.
pub open spec fn local_block(
    id: Seq<char>,
    remote: Seq<Seq<char>>,
    checks: Seq<(Seq<char>, Option<Seq<u8>>, Seq<u8>)>,
    cdn: bool,
) -> Seq<RemoteStep> {
    if remote.contains(id) {
        if is_current(checks, id) {
            Seq::empty()
        } else {
            seq![RemoteStep::DeleteDir(id), RemoteStep::Upload(id)] + invalidation(id, cdn)
        }
    } else {
        seq![RemoteStep::Upload(id)]
    }
}

/// Startup actions for the local builds, in order.
pub open spec fn local_steps(
    local: Seq<Seq<char>>,
    remote: Seq<Seq<char>>,
    checks: Seq<(Seq<char>, Option<Seq<u8>>, Seq<u8>)>,
    cdn: bool,
) -> Seq<RemoteStep>
    decreases local.len(),
{
    if local.len() == 0 {
        Seq::empty()
    } else {
        local_steps(local.drop_last(), remote, checks, cdn) + local_block(local.last(), remote, checks, cdn)
    }
}

/// Startup actions for one build listed in the bucket.
pub open spec fn orphan_block(id: Seq<char>, local: Seq<Seq<char>>, cdn: bool) -> Seq<RemoteStep> {
    if local.contains(id) {
        Seq::empty()
    } else {
        seq![RemoteStep::DeleteDir(id)] + invalidation(id, cdn)
    }
}

/// Startup actions for the builds listed in the bucket, in order.
pub open spec fn orphan_steps(remote: Seq<Seq<char>>, local: Seq<Seq<char>>, cdn: bool) -> Seq<RemoteStep>
    decreases remote.len(),
{
    if remote.len() == 0 {
        Seq::empty()
    } else {
        orphan_steps(remote.drop_last(), local, cdn) + orphan_block(remote.last(), local, cdn)
    }
}

/// All startup reconciliation actions: local builds first, then orphans.
pub open spec fn sync_steps(
    local: Seq<Seq<char>>,
    remote: Seq<Seq<char>>,
    checks: Seq<(Seq<char>, Option<Seq<u8>>, Seq<u8>)>,
    cdn: bool,
) -> Seq<RemoteStep> {
    local_steps(local, remote, checks, cdn) + orphan_steps(remote, local, cdn)
}

/// The bucket model described by a listing and the sentinel checks.
pub open spec fn remote_model(
    remote: Seq<Seq<char>>,
    checks: Seq<(Seq<char>, Option<Seq<u8>>, Seq<u8>)>,
) -> Map<Seq<char>, bool> {
    Map::new(|id: Seq<char>| remote.contains(id), |id: Seq<char>| is_current(checks, id))
}

/// The bucket model that mirrors the local builds exactly.
pub open spec fn converged_remote(local: Seq<Seq<char>>) -> Map<Seq<char>, bool> {
    Map::new(|id: Seq<char>| local.contains(id), |id: Seq<char>| true)
}

/// Whether some check of `id` found matching sentinels.
pub fn has_current_sentinel(checks: &Vec<SentinelCheck>, id: &String) -> (r: bool)
    ensures
        r == is_current(checks_view(checks@), id@),
{
    let mut i: usize = 0;
    while i < checks.len()
        invariant
            0 <= i <= checks@.len(),
            forall|j: int|
                0 <= j < i ==> !(#[trigger] checks_view(checks@)[j].0 == id@ && checks_view(checks@)[j].1
                    == Some(checks_view(checks@)[j].2)),
        decreases checks@.len() - i,
    {
        let c = &checks[i];
        if c.build_id == *id {
            match &c.remote {
                Some(b) => {
                    if bytes_equal(b, &c.local) {
                        assert(checks_view(checks@)[i as int].0 == id@);
                        return true;
                    }
                },
                None => {},
            }
        }
        i += 1;
    }
    false
}

/// Applying `a` then `b` is applying their concatenation.
pub proof fn lemma_apply_remote_concat(a: Seq<RemoteStep>, b: Seq<RemoteStep>, m: Map<Seq<char>, bool>)
    ensures
        apply_remote_steps(a + b, m) == apply_remote_steps(b, apply_remote_steps(a, m)),
    decreases b.len(),
{
    if b.len() == 0 {
        assert(a + b =~= a);
    } else {
        assert((a + b).drop_last() =~= a + b.drop_last());
        lemma_apply_remote_concat(a, b.drop_last(), m);
    }
}

/// An invalidation leaves the bucket model as it is.
proof fn lemma_invalidation_inert(s: Seq<RemoteStep>, id: Seq<char>, cdn: bool, m: Map<Seq<char>, bool>)
    ensures
        apply_remote_steps(s + invalidation(id, cdn), m) == apply_remote_steps(s, m),
{
    lemma_apply_remote_concat(s, invalidation(id, cdn), m);
    let t = invalidation(id, cdn);
    let m1 = apply_remote_steps(s, m);
    if cdn {
        assert(t.drop_last() =~= Seq::<RemoteStep>::empty());
        assert(apply_remote_steps(t.drop_last(), m1) == m1);
    } else {
        assert(t =~= Seq::<RemoteStep>::empty());
    }
}

/// Deleting then uploading a build leaves it present and current.
proof fn lemma_replace_effect(id: Seq<char>, cdn: bool, m: Map<Seq<char>, bool>)
    ensures
        apply_remote_steps(seq![RemoteStep::DeleteDir(id), RemoteStep::Upload(id)] + invalidation(id, cdn), m)
            == m.insert(id, true),
{
    let s = seq![RemoteStep::DeleteDir(id), RemoteStep::Upload(id)];
    lemma_invalidation_inert(s, id, cdn, m);
    assert(s.drop_last() =~= seq![RemoteStep::DeleteDir(id)]);
    assert(s.drop_last().drop_last() =~= Seq::<RemoteStep>::empty());
    assert(apply_remote_steps(s.drop_last().drop_last(), m) == m);
    assert(apply_remote_steps(s.drop_last(), m) == m.remove(id));
    assert(m.remove(id).insert(id, true) =~= m.insert(id, true));
}

/// Deleting a build removes it.
proof fn lemma_delete_effect(id: Seq<char>, cdn: bool, m: Map<Seq<char>, bool>)
    ensures
        apply_remote_steps(seq![RemoteStep::DeleteDir(id)] + invalidation(id, cdn), m) == m.remove(id),
{
    let s = seq![RemoteStep::DeleteDir(id)];
    lemma_invalidation_inert(s, id, cdn, m);
    assert(s.drop_last() =~= Seq::<RemoteStep>::empty());
    assert(apply_remote_steps(s.drop_last(), m) == m);
}

/// Uploading a build makes it present and current.
proof fn lemma_upload_effect(id: Seq<char>, m: Map<Seq<char>, bool>)
    ensures
        apply_remote_steps(seq![RemoteStep::Upload(id)], m) == m.insert(id, true),
{
    let s = seq![RemoteStep::Upload(id)];
    assert(s.drop_last() =~= Seq::<RemoteStep>::empty());
    assert(apply_remote_steps(s.drop_last(), m) == m);
}

/// Per build, the object-store state machine: a create or an update leaves the
/// build present with the local contents, a delete leaves it absent, and no
/// other build is touched.
pub proof fn lemma_event_effect(event: (EventKind, Seq<char>), cdn: bool, m: Map<Seq<char>, bool>)
    ensures
        apply_remote_steps(event_steps(event, cdn), m) == (match event.0 {
            EventKind::Delete => m.remove(event.1),
            _ => m.insert(event.1, true),
        }),
{
    match event.0 {
        EventKind::Create => lemma_upload_effect(event.1, m),
        EventKind::Update => lemma_replace_effect(event.1, cdn, m),
        EventKind::Delete => lemma_delete_effect(event.1, cdn, m),
    }
}

/// A create followed by a delete of a build the bucket does not hold leaves
/// the bucket as though neither event occurred.
pub proof fn lemma_create_then_delete_remote(id: Seq<char>, cdn: bool, m: Map<Seq<char>, bool>)
    requires
        !m.contains_key(id),
    ensures
        apply_remote_steps(
            event_steps((EventKind::Create, id), cdn) + event_steps((EventKind::Delete, id), cdn),
            m,
        ) == m,
{
    lemma_apply_remote_concat(event_steps((EventKind::Create, id), cdn), event_steps((EventKind::Delete, id), cdn), m);
    lemma_event_effect((EventKind::Create, id), cdn, m);
    lemma_event_effect((EventKind::Delete, id), cdn, m.insert(id, true));
    assert(m.insert(id, true).remove(id) =~= m);
}

/// A non-empty sequence holds `k` exactly when its prefix without the last
/// element does or `k` is that last element.
proof fn lemma_contains_split(s: Seq<Seq<char>>, k: Seq<char>)
    requires
        s.len() > 0,
    ensures
        s.contains(k) == (s.drop_last().contains(k) || k == s.last()),
{
    if s.contains(k) {
        let i = choose|i: int| 0 <= i < s.len() && s[i] == k;
        if i < s.len() - 1 {
            assert(s.drop_last()[i] == k);
        }
    }
    if s.drop_last().contains(k) {
        let i = choose|i: int| 0 <= i < s.drop_last().len() && s.drop_last()[i] == k;
        assert(s[i] == k);
    }
    if k == s.last() {
        assert(s[s.len() - 1] == k);
    }
}

/// The model after every id of `ids` is uploaded.
pub open spec fn upload_all(m: Map<Seq<char>, bool>, ids: Seq<Seq<char>>) -> Map<Seq<char>, bool> {
    Map::new(
        |k: Seq<char>| m.contains_key(k) || ids.contains(k),
        |k: Seq<char>| if ids.contains(k) { true } else { m[k] },
    )
}

/// The model after every listed build that is not local is deleted.
pub open spec fn drop_orphans(m: Map<Seq<char>, bool>, remote: Seq<Seq<char>>, local: Seq<Seq<char>>) -> Map<Seq<char>, bool> {
    Map::new(|k: Seq<char>| m.contains_key(k) && !(remote.contains(k) && !local.contains(k)), |k: Seq<char>| m[k])
}

proof fn lemma_local_steps_effect(
    local: Seq<Seq<char>>,
    remote: Seq<Seq<char>>,
    checks: Seq<(Seq<char>, Option<Seq<u8>>, Seq<u8>)>,
    cdn: bool,
)
    ensures
        apply_remote_steps(local_steps(local, remote, checks, cdn), remote_model(remote, checks))
            == upload_all(remote_model(remote, checks), local),
    decreases local.len(),
{
    let m0 = remote_model(remote, checks);
    if local.len() == 0 {
        assert(upload_all(m0, local) =~= m0);
    } else {
        let rest = local.drop_last();
        let id = local.last();
        lemma_local_steps_effect(rest, remote, checks, cdn);
        lemma_apply_remote_concat(local_steps(rest, remote, checks, cdn), local_block(id, remote, checks, cdn), m0);
        let m1 = upload_all(m0, rest);
        assert forall|k: Seq<char>| #[trigger] local.contains(k) == (rest.contains(k) || k == id) by {
            lemma_contains_split(local, k);
        }
        if remote.contains(id) {
            if is_current(checks, id) {
                assert(local_block(id, remote, checks, cdn) =~= Seq::<RemoteStep>::empty());
                assert(m1 =~= upload_all(m0, local));
            } else {
                lemma_replace_effect(id, cdn, m1);
                assert(m1.insert(id, true) =~= upload_all(m0, local));
            }
        } else {
            lemma_upload_effect(id, m1);
            assert(m1.insert(id, true) =~= upload_all(m0, local));
        }
    }
}

proof fn lemma_orphan_steps_effect(remote: Seq<Seq<char>>, local: Seq<Seq<char>>, cdn: bool, m: Map<Seq<char>, bool>)
    ensures
        apply_remote_steps(orphan_steps(remote, local, cdn), m) == drop_orphans(m, remote, local),
    decreases remote.len(),
{
    if remote.len() == 0 {
        assert(drop_orphans(m, remote, local) =~= m);
    } else {
        let rest = remote.drop_last();
        let id = remote.last();
        lemma_orphan_steps_effect(rest, local, cdn, m);
        lemma_apply_remote_concat(orphan_steps(rest, local, cdn), orphan_block(id, local, cdn), m);
        let m1 = drop_orphans(m, rest, local);
        assert forall|k: Seq<char>| #[trigger] remote.contains(k) == (rest.contains(k) || k == id) by {
            lemma_contains_split(remote, k);
        }
        if local.contains(id) {
            assert(orphan_block(id, local, cdn) =~= Seq::<RemoteStep>::empty());
            assert(m1 =~= drop_orphans(m, remote, local));
        } else {
            lemma_delete_effect(id, cdn, m1);
            assert(m1.remove(id) =~= drop_orphans(m, remote, local));
        }
    }
}

/// Startup reconciliation converges: whatever the bucket held, afterwards it
/// holds exactly the local builds, each with the local sentinel.
pub proof fn lemma_synchronize_converges(
    local: Seq<Seq<char>>,
    remote: Seq<Seq<char>>,
    checks: Seq<(Seq<char>, Option<Seq<u8>>, Seq<u8>)>,
    cdn: bool,
)
    ensures
        apply_remote_steps(sync_steps(local, remote, checks, cdn), remote_model(remote, checks))
            == converged_remote(local),
{
    let m0 = remote_model(remote, checks);
    lemma_apply_remote_concat(local_steps(local, remote, checks, cdn), orphan_steps(remote, local, cdn), m0);
    lemma_local_steps_effect(local, remote, checks, cdn);
    lemma_orphan_steps_effect(remote, local, cdn, upload_all(m0, local));
    assert(drop_orphans(upload_all(m0, local), remote, local) =~= converged_remote(local));
}

/// Reconciling twice leaves the bucket as reconciling once: run against the
/// state the first run produced, the second changes nothing.
pub proof fn lemma_synchronize_idempotent(
    local: Seq<Seq<char>>,
    remote1: Seq<Seq<char>>,
    checks1: Seq<(Seq<char>, Option<Seq<u8>>, Seq<u8>)>,
    remote2: Seq<Seq<char>>,
    checks2: Seq<(Seq<char>, Option<Seq<u8>>, Seq<u8>)>,
    cdn: bool,
)
    requires
        remote_model(remote2, checks2) == apply_remote_steps(
            sync_steps(local, remote1, checks1, cdn),
            remote_model(remote1, checks1),
        ),
    ensures
        apply_remote_steps(sync_steps(local, remote2, checks2, cdn), remote_model(remote2, checks2))
            == remote_model(remote2, checks2),
{
    lemma_synchronize_converges(local, remote1, checks1, cdn);
    lemma_synchronize_converges(local, remote2, checks2, cdn);
}

proof fn lemma_local_steps_none(
    local: Seq<Seq<char>>,
    remote: Seq<Seq<char>>,
    checks: Seq<(Seq<char>, Option<Seq<u8>>, Seq<u8>)>,
    cdn: bool,
)
    requires
        forall|i: int| 0 <= i < local.len() ==> remote.contains(#[trigger] local[i]) && is_current(checks, local[i]),
    ensures
        local_steps(local, remote, checks, cdn) == Seq::<RemoteStep>::empty(),
    decreases local.len(),
{
    if local.len() > 0 {
        let rest = local.drop_last();
        assert forall|i: int| 0 <= i < rest.len() implies remote.contains(#[trigger] rest[i]) && is_current(
            checks,
            rest[i],
        ) by {
            assert(rest[i] == local[i]);
        }
        lemma_local_steps_none(rest, remote, checks, cdn);
        assert(local[local.len() - 1] == local.last());
        assert(Seq::<RemoteStep>::empty() + Seq::<RemoteStep>::empty() =~= Seq::<RemoteStep>::empty());
    }
}

proof fn lemma_orphan_steps_none(remote: Seq<Seq<char>>, local: Seq<Seq<char>>, cdn: bool)
    requires
        forall|i: int| 0 <= i < remote.len() ==> local.contains(#[trigger] remote[i]),
    ensures
        orphan_steps(remote, local, cdn) == Seq::<RemoteStep>::empty(),
    decreases remote.len(),
{
    if remote.len() > 0 {
        let rest = remote.drop_last();
        assert forall|i: int| 0 <= i < rest.len() implies local.contains(#[trigger] rest[i]) by {
            assert(rest[i] == remote[i]);
        }
        lemma_orphan_steps_none(rest, local, cdn);
        assert(remote[remote.len() - 1] == remote.last());
        assert(Seq::<RemoteStep>::empty() + Seq::<RemoteStep>::empty() =~= Seq::<RemoteStep>::empty());
    }
}

/// Once the bucket mirrors the local builds, reconciliation issues no store
/// call at all: no delete, upload or invalidation.
pub proof fn lemma_synchronize_settled(
    local: Seq<Seq<char>>,
    remote: Seq<Seq<char>>,
    checks: Seq<(Seq<char>, Option<Seq<u8>>, Seq<u8>)>,
    cdn: bool,
)
    requires
        remote_model(remote, checks) == converged_remote(local),
    ensures
        sync_steps(local, remote, checks, cdn) == Seq::<RemoteStep>::empty(),
{
    assert forall|i: int| 0 <= i < local.len() implies remote.contains(#[trigger] local[i]) && is_current(
        checks,
        local[i],
    ) by {
        assert(converged_remote(local).contains_key(local[i]));
        assert(remote_model(remote, checks).contains_key(local[i]));
        assert(converged_remote(local)[local[i]]);
    }
    assert forall|i: int| 0 <= i < remote.len() implies local.contains(#[trigger] remote[i]) by {
        assert(remote_model(remote, checks).contains_key(remote[i]));
        assert(converged_remote(local).contains_key(remote[i]));
    }
    lemma_local_steps_none(local, remote, checks, cdn);
    lemma_orphan_steps_none(remote, local, cdn);
    assert(Seq::<RemoteStep>::empty() + Seq::<RemoteStep>::empty() =~= Seq::<RemoteStep>::empty());
}

impl S3 {
    /// Actions that bring the bucket up to date after `event`: a create
    /// uploads; an update deletes, uploads and invalidates; a delete deletes
    /// and invalidates. Invalidations only when a CDN is configured.
    pub fn event_plan(&self, event: &BuildEvent) -> (r: Vec<RemoteAction>)
        ensures
            steps_of(r@) == event_steps(event@, self.has_cdn()),
    {
        let cdn = self.cloudfront_distribution().is_some();
        let id = event.build_id();
        let mut out: Vec<RemoteAction> = Vec::new();
        match event.kind() {
            EventKind::Create => {
                out.push(RemoteAction::Upload(id.clone()));
            },
            EventKind::Update => {
                out.push(RemoteAction::DeleteDir(id.clone()));
                out.push(RemoteAction::Upload(id.clone()));
                if cdn {
                    out.push(RemoteAction::Invalidate(id.clone()));
                }
            },
            EventKind::Delete => {
                out.push(RemoteAction::DeleteDir(id.clone()));
                if cdn {
                    out.push(RemoteAction::Invalidate(id.clone()));
                }
            },
        }
        assert(steps_of(out@) =~= event_steps(event@, cdn));
        out
    }

    /// Builds whose bucket sentinel must be fetched and compared at startup:
    /// the local builds that the bucket also lists.
    pub fn builds_to_compare(local: &Vec<String>, remote: &Vec<String>) -> (r: Vec<String>)
        ensures
            strings_view(r@) == strings_view(local@).filter(
                |id: Seq<char>| strings_view(remote@).contains(id),
            ),
    {
        let ghost p = |id: Seq<char>| strings_view(remote@).contains(id);
        let mut out: Vec<String> = Vec::new();
        let mut i: usize = 0;
        while i < local.len()
            invariant
                0 <= i <= local@.len(),
                p == (|id: Seq<char>| strings_view(remote@).contains(id)),
                strings_view(out@) == strings_view(local@).take(i as int).filter(p),
            decreases local@.len() - i,
        {
            proof {
                assert(strings_view(local@).take(i + 1).drop_last() =~= strings_view(local@).take(i as int));
                reveal(Seq::filter);
            }
            if contains_string(remote, &local[i]) {
                out.push(local[i].clone());
            }
            assert(strings_view(out@) =~= strings_view(local@).take(i + 1).filter(p));
            i += 1;
        }
        assert(strings_view(local@).take(local@.len() as int) =~= strings_view(local@));
        out
    }

    /// Startup reconciliation: for each local build, nothing when the bucket
    /// holds it with a matching sentinel, delete/upload/invalidate when it holds
    /// it otherwise, upload when it lacks it; then delete and invalidate every
    /// bucket build that is not local.
    pub fn plan_synchronize(
        &self,
        local: &Vec<String>,
        remote: &Vec<String>,
        checks: &Vec<SentinelCheck>,
    ) -> (r: Vec<RemoteAction>)
        ensures
            steps_of(r@) == sync_steps(
                strings_view(local@),
                strings_view(remote@),
                checks_view(checks@),
                self.has_cdn(),
            ),
    {
        let cdn = self.cloudfront_distribution().is_some();
        let ghost lv = strings_view(local@);
        let ghost rv = strings_view(remote@);
        let ghost cv = checks_view(checks@);
        let mut out: Vec<RemoteAction> = Vec::new();
        let mut i: usize = 0;
        while i < local.len()
            invariant
                0 <= i <= local@.len(),
                lv == strings_view(local@),
                rv == strings_view(remote@),
                cv == checks_view(checks@),
                steps_of(out@) == local_steps(lv.take(i as int), rv, cv, cdn),
            decreases local@.len() - i,
        {
            let ghost before = out@;
            let id = &local[i];
            proof {
                assert(lv.take(i + 1).drop_last() =~= lv.take(i as int));
            }
            if contains_string(remote, id) {
                if !has_current_sentinel(checks, id) {
                    out.push(RemoteAction::DeleteDir(id.clone()));
                    out.push(RemoteAction::Upload(id.clone()));
                    if cdn {
                        out.push(RemoteAction::Invalidate(id.clone()));
                    }
                }
            } else {
                out.push(RemoteAction::Upload(id.clone()));
            }
            assert(steps_of(out@) =~= steps_of(before) + local_block(id@, rv, cv, cdn));
            i += 1;
        }
        assert(lv.take(local@.len() as int) =~= lv);
        let ghost mid = out@;
        let mut j: usize = 0;
        while j < remote.len()
            invariant
                0 <= j <= remote@.len(),
                lv == strings_view(local@),
                rv == strings_view(remote@),
                steps_of(mid) == local_steps(lv, rv, cv, cdn),
                out@.len() >= mid.len(),
                out@.subrange(0, mid.len() as int) == mid,
                steps_of(out@) == steps_of(mid) + orphan_steps(rv.take(j as int), lv, cdn),
            decreases remote@.len() - j,
        {
            let ghost before = out@;
            let id = &remote[j];
            proof {
                assert(rv.take(j + 1).drop_last() =~= rv.take(j as int));
            }
            if !contains_string(local, id) {
                out.push(RemoteAction::DeleteDir(id.clone()));
                if cdn {
                    out.push(RemoteAction::Invalidate(id.clone()));
                }
            }
            assert(steps_of(out@) =~= steps_of(before) + orphan_block(id@, lv, cdn));
            assert(steps_of(mid) + orphan_steps(rv.take(j + 1), lv, cdn) =~= steps_of(mid) + orphan_steps(
                rv.take(j as int),
                lv,
                cdn,
            ) + orphan_block(id@, lv, cdn));
            assert(out@.subrange(0, mid.len() as int) =~= mid);
            j += 1;
        }
        assert(rv.take(remote@.len() as int) =~= rv);
        out
    }
}

} // verus!
