//! Cache reconciliation: which tarballs the artifact directory holds, and the
//! actions that make the cache directory mirror them.
//!
//! The cache directory is modelled as a map from entry name to node: a stray
//! file, or a directory with the bytes of its sentinel (if it has one).

use crate::build_id::{artifact_build_id, is_artifact_tarball, opt_view};
use crate::text::{bytes_equal, strings_view};
use vstd::prelude::*;

verus! {

/// Name of the cache directory inside the artifact directory.
pub const CACHE_DIR_NAME: &'static str = ".artifact_server_cache";

/// A tarball of the artifact directory and the build id it gives.
#[derive(Debug)]
pub struct Tarball {
    pub build_id: String,
    pub path: String,
}

impl View for Tarball {
    type V = (Seq<char>, Seq<char>);

    open spec fn view(&self) -> (Seq<char>, Seq<char>) {
        (self.build_id@, self.path@)
    }
}

/// The models of a sequence of tarballs.
pub open spec fn tarballs_view(ts: Seq<Tarball>) -> Seq<(Seq<char>, Seq<char>)> {
    ts.map_values(|t: Tarball| t@)
}

/// The build ids of a sequence of tarball models.
pub open spec fn tarball_ids(ts: Seq<(Seq<char>, Seq<char>)>) -> Seq<Seq<char>> {
    ts.map_values(|t: (Seq<char>, Seq<char>)| t.0)
}

/// The tarballs among `paths`, in order; a build id that an earlier path
/// already gave is not taken again.
pub open spec fn collected(paths: Seq<Seq<char>>, salt: Option<Seq<char>>) -> Seq<(Seq<char>, Seq<char>)>
    decreases paths.len(),
{
    if paths.len() == 0 {
        Seq::empty()
    } else {
        let rest = collected(paths.drop_last(), salt);
        match artifact_build_id(paths.last(), salt) {
            Some(id) => if tarball_ids(rest).contains(id) {
                rest
            } else {
                rest.push((id, paths.last()))
            },
            None => rest,
        }
    }
}

/// One entry of the cache directory as listed: its name, whether it is a
/// directory, and for a directory the contents of its sentinel, if any.
#[derive(Debug)]
pub struct CacheListing {
    pub name: String,
    pub is_dir: bool,
    pub sentinel: Option<Vec<u8>>,
}

impl View for CacheListing {
    type V = (Seq<char>, bool, Option<Seq<u8>>);

    open spec fn view(&self) -> (Seq<char>, bool, Option<Seq<u8>>) {
        (
            self.name@,
            self.is_dir,
            match &self.sentinel {
                Some(s) => Some(s@),
                None => None,
            },
        )
    }
}

/// The models of a cache listing.
pub open spec fn listing_view(l: Seq<CacheListing>) -> Seq<(Seq<char>, bool, Option<Seq<u8>>)> {
    l.map_values(|e: CacheListing| e@)
}

/// Model of one cache-directory entry.
pub enum CacheNode {
    File,
    Dir(Option<Seq<u8>>),
}

/// The node a listed entry stands for.
pub open spec fn node_of(e: (Seq<char>, bool, Option<Seq<u8>>)) -> CacheNode {
    if e.1 {
        CacheNode::Dir(e.2)
    } else {
        CacheNode::File
    }
}

/// The names of a listing are distinct, as in any directory.
pub open spec fn names_unique(l: Seq<(Seq<char>, bool, Option<Seq<u8>>)>) -> bool {
    forall|i: int, j: int| 0 <= i < l.len() && 0 <= j < l.len() && i != j ==> l[i].0 != l[j].0
}

/// Position of an entry named `n` in a listing.
pub open spec fn index_of_name(l: Seq<(Seq<char>, bool, Option<Seq<u8>>)>, n: Seq<char>) -> int {
    choose|i: int| 0 <= i < l.len() && l[i].0 == n
}

/// The cache directory a listing describes.
pub open spec fn cache_model(l: Seq<(Seq<char>, bool, Option<Seq<u8>>)>) -> Map<Seq<char>, CacheNode> {
    Map::new(
        |n: Seq<char>| exists|i: int| 0 <= i < l.len() && l[i].0 == n,
        |n: Seq<char>| node_of(l[index_of_name(l, n)]),
    )
}

/// Model of one cache action.
pub enum CacheStep {
    RemoveFile(Seq<char>),
    Extract(Seq<char>, Seq<char>),
    RemoveDir(Seq<char>),
}

/// One action on the cache directory.
#[derive(Debug)]
pub enum CacheAction {
    /// Delete a stray file directly under the cache directory.
    RemoveFile(String),
    /// Re-extract the tarball at `path` into the entry for `build_id`.
    Extract { build_id: String, path: String },
    /// Remove a cache entry recursively; an absent entry is no error.
    RemoveDir(String),
}

impl View for CacheAction {
    type V = CacheStep;

    open spec fn view(&self) -> CacheStep {
        match self {
            CacheAction::RemoveFile(n) => CacheStep::RemoveFile(n@),
            CacheAction::Extract { build_id, path } => CacheStep::Extract(build_id@, path@),
            CacheAction::RemoveDir(n) => CacheStep::RemoveDir(n@),
        }
    }
}

/// The models of a sequence of cache actions.
pub open spec fn cache_steps_of(actions: Seq<CacheAction>) -> Seq<CacheStep> {
    actions.map_values(|a: CacheAction| a@)
}

/// Position of a tarball with build id `id`.
pub open spec fn index_of_id(ts: Seq<(Seq<char>, Seq<char>)>, id: Seq<char>) -> int {
    choose|i: int| 0 <= i < ts.len() && ts[i].0 == id
}

/// Checksum of each tarball's build, by build id.
pub open spec fn checksum_table(ts: Seq<(Seq<char>, Seq<char>)>, sums: Seq<Seq<u8>>) -> Map<Seq<char>, Seq<u8>> {
    Map::new(
        |id: Seq<char>| exists|i: int| 0 <= i < ts.len() && ts[i].0 == id,
        |id: Seq<char>| sums[index_of_id(ts, id)],
    )
}

/// Effect of one action; an extraction leaves the entry with a sentinel that
/// holds its tarball's checksum.
pub open spec fn apply_cache_step(
    step: CacheStep,
    m: Map<Seq<char>, CacheNode>,
    table: Map<Seq<char>, Seq<u8>>,
) -> Map<Seq<char>, CacheNode> {
    match step {
        CacheStep::RemoveFile(n) => m.remove(n),
        CacheStep::Extract(id, _) => m.insert(id, CacheNode::Dir(Some(table[id]))),
        CacheStep::RemoveDir(n) => m.remove(n),
    }
}

/// Effect of a sequence of actions, in order.
pub open spec fn apply_cache_steps(
    steps: Seq<CacheStep>,
    m: Map<Seq<char>, CacheNode>,
    table: Map<Seq<char>, Seq<u8>>,
) -> Map<Seq<char>, CacheNode>
    decreases steps.len(),
{
    if steps.len() == 0 {
        m
    } else {
        apply_cache_step(steps.last(), apply_cache_steps(steps.drop_last(), m, table), table)
    }
}

/// Removal of every stray file of the listing, in order.
pub open spec fn stray_steps(l: Seq<(Seq<char>, bool, Option<Seq<u8>>)>) -> Seq<CacheStep>
    decreases l.len(),
{
    if l.len() == 0 {
        Seq::empty()
    } else if l.last().1 {
        stray_steps(l.drop_last())
    } else {
        stray_steps(l.drop_last()).push(CacheStep::RemoveFile(l.last().0))
    }
}

/// The listing holds a directory `id` whose sentinel equals `sum`.
pub open spec fn entry_fresh(l: Seq<(Seq<char>, bool, Option<Seq<u8>>)>, id: Seq<char>, sum: Seq<u8>) -> bool {
    exists|i: int| 0 <= i < l.len() && l[i].0 == id && l[i].1 && l[i].2 == Some(sum)
}

/// Extraction of each of the first `n` tarballs whose entry is missing or stale.
pub open spec fn extract_steps(
    ts: Seq<(Seq<char>, Seq<char>)>,
    sums: Seq<Seq<u8>>,
    l: Seq<(Seq<char>, bool, Option<Seq<u8>>)>,
    n: int,
) -> Seq<CacheStep>
    decreases n,
{
    if n <= 0 {
        Seq::empty()
    } else if entry_fresh(l, ts[n - 1].0, sums[n - 1]) {
        extract_steps(ts, sums, l, n - 1)
    } else {
        extract_steps(ts, sums, l, n - 1).push(CacheStep::Extract(ts[n - 1].0, ts[n - 1].1))
    }
}

/// Removal of each listed directory that no tarball accounts for, in order.
pub open spec fn removal_steps(l: Seq<(Seq<char>, bool, Option<Seq<u8>>)>, ids: Seq<Seq<char>>) -> Seq<CacheStep>
    decreases l.len(),
{
    if l.len() == 0 {
        Seq::empty()
    } else if l.last().1 && !ids.contains(l.last().0) {
        removal_steps(l.drop_last(), ids).push(CacheStep::RemoveDir(l.last().0))
    } else {
        removal_steps(l.drop_last(), ids)
    }
}

/// Full reconciliation: stray files, then extractions, then stale entries.
pub open spec fn cache_sync_steps(
    ts: Seq<(Seq<char>, Seq<char>)>,
    sums: Seq<Seq<u8>>,
    l: Seq<(Seq<char>, bool, Option<Seq<u8>>)>,
) -> Seq<CacheStep> {
    stray_steps(l) + extract_steps(ts, sums, l, ts.len() as int) + removal_steps(l, tarball_ids(ts))
}

/// The cache directory that mirrors the tarballs: one entry per build id, each
/// with a sentinel holding its tarball's checksum, and nothing else.
pub open spec fn synced_cache(table: Map<Seq<char>, Seq<u8>>) -> Map<Seq<char>, CacheNode> {
    Map::new(|id: Seq<char>| table.contains_key(id), |id: Seq<char>| CacheNode::Dir(Some(table[id])))
}

/// The listing holds a stray file named `k`.
pub open spec fn listed_file(l: Seq<(Seq<char>, bool, Option<Seq<u8>>)>, k: Seq<char>) -> bool {
    exists|i: int| 0 <= i < l.len() && l[i].0 == k && !l[i].1
}

/// The listing holds a directory named `k`.
pub open spec fn listed_dir(l: Seq<(Seq<char>, bool, Option<Seq<u8>>)>, k: Seq<char>) -> bool {
    exists|i: int| 0 <= i < l.len() && l[i].0 == k && l[i].1
}

/// One of the first `n` tarballs has build id `k`.
pub open spec fn in_first(ts: Seq<(Seq<char>, Seq<char>)>, n: int, k: Seq<char>) -> bool {
    exists|i: int| 0 <= i < n && ts[i].0 == k
}

/// `m` with the listing's stray files gone.
pub open spec fn drop_files(m: Map<Seq<char>, CacheNode>, l: Seq<(Seq<char>, bool, Option<Seq<u8>>)>) -> Map<
    Seq<char>,
    CacheNode,
> {
    Map::new(|k: Seq<char>| m.contains_key(k) && !listed_file(l, k), |k: Seq<char>| m[k])
}

/// `m` with the first `n` tarballs' entries extracted.
pub open spec fn extract_all(
    m: Map<Seq<char>, CacheNode>,
    ts: Seq<(Seq<char>, Seq<char>)>,
    n: int,
    table: Map<Seq<char>, Seq<u8>>,
) -> Map<Seq<char>, CacheNode> {
    Map::new(
        |k: Seq<char>| m.contains_key(k) || in_first(ts, n, k),
        |k: Seq<char>| if in_first(ts, n, k) { CacheNode::Dir(Some(table[k])) } else { m[k] },
    )
}

/// `m` with the listed directories that no id of `ids` accounts for gone.
pub open spec fn drop_stale(
    m: Map<Seq<char>, CacheNode>,
    l: Seq<(Seq<char>, bool, Option<Seq<u8>>)>,
    ids: Seq<Seq<char>>,
) -> Map<Seq<char>, CacheNode> {
    Map::new(|k: Seq<char>| m.contains_key(k) && !(listed_dir(l, k) && !ids.contains(k)), |k: Seq<char>| m[k])
}

proof fn lemma_apply_cache_push(s: Seq<CacheStep>, x: CacheStep, m: Map<Seq<char>, CacheNode>, table: Map<Seq<char>, Seq<u8>>)
    ensures
        apply_cache_steps(s.push(x), m, table) == apply_cache_step(x, apply_cache_steps(s, m, table), table),
{
    assert(s.push(x).drop_last() =~= s);
}

/// Applying `a` then `b` is applying their concatenation.
pub proof fn lemma_apply_cache_concat(
    a: Seq<CacheStep>,
    b: Seq<CacheStep>,
    m: Map<Seq<char>, CacheNode>,
    table: Map<Seq<char>, Seq<u8>>,
)
    ensures
        apply_cache_steps(a + b, m, table) == apply_cache_steps(b, apply_cache_steps(a, m, table), table),
    decreases b.len(),
{
    if b.len() == 0 {
        assert(a + b =~= a);
    } else {
        assert((a + b).drop_last() =~= a + b.drop_last());
        lemma_apply_cache_concat(a, b.drop_last(), m, table);
    }
}

proof fn lemma_stray_effect(l: Seq<(Seq<char>, bool, Option<Seq<u8>>)>, m: Map<Seq<char>, CacheNode>, table: Map<Seq<char>, Seq<u8>>)
    ensures
        apply_cache_steps(stray_steps(l), m, table) == drop_files(m, l),
    decreases l.len(),
{
    if l.len() == 0 {
        assert(drop_files(m, l) =~= m);
    } else {
        let rest = l.drop_last();
        let e = l.last();
        lemma_stray_effect(rest, m, table);
        assert forall|k: Seq<char>| #[trigger] listed_file(l, k) == (listed_file(rest, k) || (k == e.0 && !e.1)) by {
            if listed_file(l, k) {
                let i = choose|i: int| 0 <= i < l.len() && l[i].0 == k && !l[i].1;
                if i < l.len() - 1 {
                    assert(rest[i] == l[i]);
                }
            }
            if listed_file(rest, k) {
                let i = choose|i: int| 0 <= i < rest.len() && rest[i].0 == k && !rest[i].1;
                assert(l[i] == rest[i]);
            }
            if k == e.0 && !e.1 {
                assert(l[l.len() - 1] == e);
            }
        }
        if !e.1 {
            lemma_apply_cache_push(stray_steps(rest), CacheStep::RemoveFile(e.0), m, table);
        }
        assert(apply_cache_steps(stray_steps(l), m, table) =~= drop_files(m, l));
    }
}

proof fn lemma_removal_effect(
    l: Seq<(Seq<char>, bool, Option<Seq<u8>>)>,
    ids: Seq<Seq<char>>,
    m: Map<Seq<char>, CacheNode>,
    table: Map<Seq<char>, Seq<u8>>,
)
    ensures
        apply_cache_steps(removal_steps(l, ids), m, table) == drop_stale(m, l, ids),
    decreases l.len(),
{
    if l.len() == 0 {
        assert(drop_stale(m, l, ids) =~= m);
    } else {
        let rest = l.drop_last();
        let e = l.last();
        lemma_removal_effect(rest, ids, m, table);
        assert forall|k: Seq<char>| #[trigger] listed_dir(l, k) == (listed_dir(rest, k) || (k == e.0 && e.1)) by {
            if listed_dir(l, k) {
                let i = choose|i: int| 0 <= i < l.len() && l[i].0 == k && l[i].1;
                if i < l.len() - 1 {
                    assert(rest[i] == l[i]);
                }
            }
            if listed_dir(rest, k) {
                let i = choose|i: int| 0 <= i < rest.len() && rest[i].0 == k && rest[i].1;
                assert(l[i] == rest[i]);
            }
            if k == e.0 && e.1 {
                assert(l[l.len() - 1] == e);
            }
        }
        if e.1 && !ids.contains(e.0) {
            lemma_apply_cache_push(removal_steps(rest, ids), CacheStep::RemoveDir(e.0), m, table);
        }
        assert(apply_cache_steps(removal_steps(l, ids), m, table) =~= drop_stale(m, l, ids));
    }
}

/// With distinct build ids, the table gives each tarball its own checksum.
proof fn lemma_table_at(ts: Seq<(Seq<char>, Seq<char>)>, sums: Seq<Seq<u8>>, i: int)
    requires
        tarball_ids(ts).no_duplicates(),
        sums.len() == ts.len(),
        0 <= i < ts.len(),
    ensures
        checksum_table(ts, sums).contains_key(ts[i].0),
        checksum_table(ts, sums)[ts[i].0] == sums[i],
{
    let id = ts[i].0;
    assert(0 <= i < ts.len() && ts[i].0 == id);
    let j = index_of_id(ts, id);
    assert(tarball_ids(ts)[i] == tarball_ids(ts)[j]);
}

proof fn lemma_extract_effect(
    ts: Seq<(Seq<char>, Seq<char>)>,
    sums: Seq<Seq<u8>>,
    l: Seq<(Seq<char>, bool, Option<Seq<u8>>)>,
    n: int,
    m: Map<Seq<char>, CacheNode>,
)
    requires
        0 <= n <= ts.len(),
        sums.len() == ts.len(),
        tarball_ids(ts).no_duplicates(),
        forall|i: int|
            0 <= i < ts.len() && #[trigger] entry_fresh(l, ts[i].0, sums[i]) ==> m.contains_key(ts[i].0)
                && m[ts[i].0] == CacheNode::Dir(Some(sums[i])),
    ensures
        apply_cache_steps(extract_steps(ts, sums, l, n), m, checksum_table(ts, sums)) == extract_all(
            m,
            ts,
            n,
            checksum_table(ts, sums),
        ),
    decreases n,
{
    let table = checksum_table(ts, sums);
    if n == 0 {
        assert(extract_all(m, ts, n, table) =~= m);
    } else {
        lemma_extract_effect(ts, sums, l, n - 1, m);
        let id = ts[n - 1].0;
        lemma_table_at(ts, sums, n - 1);
        assert forall|k: Seq<char>| #[trigger] in_first(ts, n, k) == (in_first(ts, n - 1, k) || k == id) by {
            if in_first(ts, n, k) {
                let i = choose|i: int| 0 <= i < n && ts[i].0 == k;
            }
            if k == id {
                assert(0 <= n - 1 < n && ts[n - 1].0 == k);
            }
        }
        if !entry_fresh(l, id, sums[n - 1]) {
            lemma_apply_cache_push(extract_steps(ts, sums, l, n - 1), CacheStep::Extract(id, ts[n - 1].1), m, table);
        }
        assert(apply_cache_steps(extract_steps(ts, sums, l, n), m, table) =~= extract_all(m, ts, n, table));
    }
}

/// Startup reconciliation converges: whatever the cache directory held, it
/// afterwards holds exactly one entry per tarball, named by its build id and
/// with a sentinel equal to the tarball's checksum, and no stray file.
pub proof fn lemma_cache_sync_converges(
    ts: Seq<(Seq<char>, Seq<char>)>,
    sums: Seq<Seq<u8>>,
    l: Seq<(Seq<char>, bool, Option<Seq<u8>>)>,
)
    requires
        sums.len() == ts.len(),
        tarball_ids(ts).no_duplicates(),
        names_unique(l),
    ensures
        apply_cache_steps(cache_sync_steps(ts, sums, l), cache_model(l), checksum_table(ts, sums))
            == synced_cache(checksum_table(ts, sums)),
{
    let table = checksum_table(ts, sums);
    let ids = tarball_ids(ts);
    let m0 = cache_model(l);
    let a = stray_steps(l);
    let b = extract_steps(ts, sums, l, ts.len() as int);
    let c = removal_steps(l, ids);
    lemma_apply_cache_concat(a + b, c, m0, table);
    lemma_apply_cache_concat(a, b, m0, table);
    lemma_stray_effect(l, m0, table);
    let m1 = drop_files(m0, l);
    assert forall|i: int|
        0 <= i < ts.len() && #[trigger] entry_fresh(l, ts[i].0, sums[i]) implies m1.contains_key(ts[i].0)
            && m1[ts[i].0] == CacheNode::Dir(Some(sums[i])) by {
        let id = ts[i].0;
        let j = choose|j: int| 0 <= j < l.len() && l[j].0 == id && l[j].1 && l[j].2 == Some(sums[i]);
        assert(m0.contains_key(id));
        let j2 = index_of_name(l, id);
        assert(j2 == j);
        if listed_file(l, id) {
            let j3 = choose|j3: int| 0 <= j3 < l.len() && l[j3].0 == id && !l[j3].1;
            assert(j3 == j);
        }
    }
    lemma_extract_effect(ts, sums, l, ts.len() as int, m1);
    let m2 = extract_all(m1, ts, ts.len() as int, table);
    lemma_removal_effect(l, ids, m2, table);
    assert forall|k: Seq<char>| #[trigger] ids.contains(k) == in_first(ts, ts.len() as int, k) by {
        if ids.contains(k) {
            let i = choose|i: int| 0 <= i < ids.len() && ids[i] == k;
            assert(ts[i].0 == k);
        }
        if in_first(ts, ts.len() as int, k) {
            let i = choose|i: int| 0 <= i < ts.len() && ts[i].0 == k;
            assert(ids[i] == k);
        }
    }
    assert forall|k: Seq<char>| m0.contains_key(k) implies #[trigger] listed_file(l, k) || listed_dir(l, k) by {
        let i = choose|i: int| 0 <= i < l.len() && l[i].0 == k;
        if l[i].1 {
            assert(listed_dir(l, k));
        } else {
            assert(listed_file(l, k));
        }
    }
    assert(drop_stale(m2, l, ids) =~= synced_cache(table));
}

/// Reconciling twice leaves the cache directory as reconciling once: run on a
/// listing of the state the first run produced, the second changes nothing.
pub proof fn lemma_cache_sync_idempotent(
    ts: Seq<(Seq<char>, Seq<char>)>,
    sums: Seq<Seq<u8>>,
    l1: Seq<(Seq<char>, bool, Option<Seq<u8>>)>,
    l2: Seq<(Seq<char>, bool, Option<Seq<u8>>)>,
)
    requires
        sums.len() == ts.len(),
        tarball_ids(ts).no_duplicates(),
        names_unique(l1),
        names_unique(l2),
        cache_model(l2) == apply_cache_steps(cache_sync_steps(ts, sums, l1), cache_model(l1), checksum_table(ts, sums)),
    ensures
        apply_cache_steps(cache_sync_steps(ts, sums, l2), cache_model(l2), checksum_table(ts, sums))
            == cache_model(l2),
{
    lemma_cache_sync_converges(ts, sums, l1);
    lemma_cache_sync_converges(ts, sums, l2);
}

/// A stray file in the cache directory does not survive reconciliation: the
/// name is gone afterwards, or is the directory of a tarball's build.
pub proof fn lemma_cache_sync_removes_files(
    ts: Seq<(Seq<char>, Seq<char>)>,
    sums: Seq<Seq<u8>>,
    l: Seq<(Seq<char>, bool, Option<Seq<u8>>)>,
    k: Seq<char>,
)
    requires
        sums.len() == ts.len(),
        tarball_ids(ts).no_duplicates(),
        names_unique(l),
        listed_file(l, k),
    ensures
        !apply_cache_steps(cache_sync_steps(ts, sums, l), cache_model(l), checksum_table(ts, sums)).contains_key(k)
            || apply_cache_steps(cache_sync_steps(ts, sums, l), cache_model(l), checksum_table(ts, sums))[k]
            is Dir,
{
    lemma_cache_sync_converges(ts, sums, l);
}

proof fn lemma_stray_steps_none(l: Seq<(Seq<char>, bool, Option<Seq<u8>>)>)
    requires
        forall|i: int| 0 <= i < l.len() ==> (#[trigger] l[i]).1,
    ensures
        stray_steps(l) == Seq::<CacheStep>::empty(),
    decreases l.len(),
{
    if l.len() > 0 {
        assert forall|i: int| 0 <= i < l.drop_last().len() implies (#[trigger] l.drop_last()[i]).1 by {
            assert(l.drop_last()[i] == l[i]);
        }
        lemma_stray_steps_none(l.drop_last());
        assert(l[l.len() - 1] == l.last());
    }
}

proof fn lemma_extract_steps_none(
    ts: Seq<(Seq<char>, Seq<char>)>,
    sums: Seq<Seq<u8>>,
    l: Seq<(Seq<char>, bool, Option<Seq<u8>>)>,
    n: int,
)
    requires
        n <= ts.len(),
        forall|i: int| 0 <= i < n ==> #[trigger] entry_fresh(l, ts[i].0, sums[i]),
    ensures
        extract_steps(ts, sums, l, n) == Seq::<CacheStep>::empty(),
    decreases n,
{
    if n > 0 {
        lemma_extract_steps_none(ts, sums, l, n - 1);
        assert(entry_fresh(l, ts[n - 1].0, sums[n - 1]));
    }
}

proof fn lemma_removal_steps_none(l: Seq<(Seq<char>, bool, Option<Seq<u8>>)>, ids: Seq<Seq<char>>)
    requires
        forall|i: int| 0 <= i < l.len() && (#[trigger] l[i]).1 ==> ids.contains(l[i].0),
    ensures
        removal_steps(l, ids) == Seq::<CacheStep>::empty(),
    decreases l.len(),
{
    if l.len() > 0 {
        assert forall|i: int| 0 <= i < l.drop_last().len() && (#[trigger] l.drop_last()[i]).1 implies ids.contains(
            l.drop_last()[i].0,
        ) by {
            assert(l.drop_last()[i] == l[i]);
        }
        lemma_removal_steps_none(l.drop_last(), ids);
        assert(l[l.len() - 1] == l.last());
    }
}

/// Once the cache directory mirrors the tarballs, reconciliation performs no
/// action at all.
pub proof fn lemma_cache_sync_settled(
    ts: Seq<(Seq<char>, Seq<char>)>,
    sums: Seq<Seq<u8>>,
    l: Seq<(Seq<char>, bool, Option<Seq<u8>>)>,
)
    requires
        sums.len() == ts.len(),
        tarball_ids(ts).no_duplicates(),
        names_unique(l),
        cache_model(l) == synced_cache(checksum_table(ts, sums)),
    ensures
        cache_sync_steps(ts, sums, l) == Seq::<CacheStep>::empty(),
{
    let table = checksum_table(ts, sums);
    let m = cache_model(l);
    assert forall|i: int| 0 <= i < l.len() implies (#[trigger] l[i]).1 by {
        let n = l[i].0;
        assert(m.contains_key(n));
        let j = index_of_name(l, n);
        assert(i == j);
        assert(synced_cache(table)[n] is Dir);
    }
    lemma_stray_steps_none(l);
    assert forall|i: int| 0 <= i < ts.len() implies #[trigger] entry_fresh(l, ts[i].0, sums[i]) by {
        let id = ts[i].0;
        lemma_table_at(ts, sums, i);
        assert(synced_cache(table).contains_key(id));
        assert(m.contains_key(id));
        let j = index_of_name(l, id);
        assert(m[id] == node_of(l[j]));
        assert(synced_cache(table)[id] == CacheNode::Dir(Some(table[id])));
        assert(m[id] == CacheNode::Dir(Some(sums[i])));
        assert(l[j].0 == id && l[j].1 && l[j].2 == Some(sums[i]));
    }
    lemma_extract_steps_none(ts, sums, l, ts.len() as int);
    assert forall|i: int| 0 <= i < l.len() && (#[trigger] l[i]).1 implies tarball_ids(ts).contains(l[i].0) by {
        let n = l[i].0;
        assert(m.contains_key(n));
        assert(table.contains_key(n));
        let k = choose|k: int| 0 <= k < ts.len() && ts[k].0 == n;
        assert(tarball_ids(ts)[k] == n);
    }
    lemma_removal_steps_none(l, tarball_ids(ts));
    assert(Seq::<CacheStep>::empty() + Seq::<CacheStep>::empty() + Seq::<CacheStep>::empty()
        =~= Seq::<CacheStep>::empty());
}

/// Whether `ts` holds a tarball with build id `id`.
pub fn has_build_id(ts: &Vec<Tarball>, id: &String) -> (r: bool)
    ensures
        r == tarball_ids(tarballs_view(ts@)).contains(id@),
{
    let mut i: usize = 0;
    while i < ts.len()
        invariant
            0 <= i <= ts@.len(),
            forall|j: int| 0 <= j < i ==> ts@[j].build_id@ != id@,
        decreases ts@.len() - i,
    {
        if ts[i].build_id == *id {
            assert(tarball_ids(tarballs_view(ts@))[i as int] == id@);
            return true;
        }
        i += 1;
    }
    assert forall|j: int| 0 <= j < tarball_ids(tarballs_view(ts@)).len() implies tarball_ids(
        tarballs_view(ts@),
    )[j] != id@ by {
        assert(ts@[j].build_id@ != id@);
    }
    false
}

proof fn lemma_collected_unique(paths: Seq<Seq<char>>, salt: Option<Seq<char>>)
    ensures
        tarball_ids(collected(paths, salt)).no_duplicates(),
    decreases paths.len(),
{
    if paths.len() > 0 {
        lemma_collected_unique(paths.drop_last(), salt);
        let rest = collected(paths.drop_last(), salt);
        match artifact_build_id(paths.last(), salt) {
            Some(id) => {
                if !tarball_ids(rest).contains(id) {
                    assert(tarball_ids(rest.push((id, paths.last()))) =~= tarball_ids(rest).push(id));
                    let s = tarball_ids(rest).push(id);
                    assert forall|i: int, j: int| 0 <= i < s.len() && 0 <= j < s.len() && i != j implies s[i]
                        != s[j] by {
                        if i == s.len() - 1 {
                            assert(tarball_ids(rest)[j] == s[j]);
                        } else if j == s.len() - 1 {
                            assert(tarball_ids(rest)[i] == s[i]);
                        }
                    }
                }
            },
            None => {},
        }
    }
}

/// The artifact tarballs among `paths` with their build ids, in order; ids
/// are distinct, a later path that repeats an id being left out.
pub fn collect_tarballs(paths: &Vec<String>, digest_salt: Option<&str>) -> (r: Vec<Tarball>)
    ensures
        tarballs_view(r@) == collected(strings_view(paths@), opt_view(digest_salt)),
        tarball_ids(tarballs_view(r@)).no_duplicates(),
{
    let ghost pv = strings_view(paths@);
    let mut out: Vec<Tarball> = Vec::new();
    let mut i: usize = 0;
    while i < paths.len()
        invariant
            0 <= i <= paths@.len(),
            pv == strings_view(paths@),
            tarballs_view(out@) == collected(pv.take(i as int), opt_view(digest_salt)),
        decreases paths@.len() - i,
    {
        let ghost before = out@;
        proof {
            assert(pv.take(i + 1).drop_last() =~= pv.take(i as int));
        }
        match is_artifact_tarball(paths[i].as_str(), digest_salt) {
            Some(id) => {
                if !has_build_id(&out, &id) {
                    out.push(Tarball { build_id: id, path: paths[i].clone() });
                    assert(tarballs_view(out@) =~= tarballs_view(before).push((id@, pv[i as int])));
                }
            },
            None => {},
        }
        i += 1;
    }
    assert(pv.take(paths@.len() as int) =~= pv);
    proof {
        lemma_collected_unique(pv, opt_view(digest_salt));
    }
    out
}

/// Whether the listing holds directory `id` with a sentinel equal to `sum`.
pub fn entry_is_fresh(listing: &Vec<CacheListing>, id: &String, sum: &Vec<u8>) -> (r: bool)
    ensures
        r == entry_fresh(listing_view(listing@), id@, sum@),
{
    let ghost lv = listing_view(listing@);
    let mut i: usize = 0;
    while i < listing.len()
        invariant
            0 <= i <= listing@.len(),
            lv == listing_view(listing@),
            forall|j: int| 0 <= j < i ==> !(#[trigger] lv[j].0 == id@ && lv[j].1 && lv[j].2 == Some(sum@)),
        decreases listing@.len() - i,
    {
        let e = &listing[i];
        if e.is_dir && e.name == *id {
            match &e.sentinel {
                Some(s) => {
                    if bytes_equal(s, sum) {
                        assert(lv[i as int].0 == id@);
                        return true;
                    }
                },
                None => {},
            }
        }
        i += 1;
    }
    false
}

fn stray_actions(listing: &Vec<CacheListing>) -> (r: Vec<CacheAction>)
    ensures
        cache_steps_of(r@) == stray_steps(listing_view(listing@)),
{
    let ghost lv = listing_view(listing@);
    let mut out: Vec<CacheAction> = Vec::new();
    let mut i: usize = 0;
    while i < listing.len()
        invariant
            0 <= i <= listing@.len(),
            lv == listing_view(listing@),
            cache_steps_of(out@) == stray_steps(lv.take(i as int)),
        decreases listing@.len() - i,
    {
        proof {
            assert(lv.take(i + 1).drop_last() =~= lv.take(i as int));
        }
        if !listing[i].is_dir {
            out.push(CacheAction::RemoveFile(listing[i].name.clone()));
        }
        assert(cache_steps_of(out@) =~= stray_steps(lv.take(i + 1)));
        i += 1;
    }
    assert(lv.take(listing@.len() as int) =~= lv);
    out
}

fn extract_actions(tarballs: &Vec<Tarball>, checksums: &Vec<Vec<u8>>, listing: &Vec<CacheListing>) -> (r: Vec<
    CacheAction,
>)
    requires
        checksums@.len() == tarballs@.len(),
    ensures
        cache_steps_of(r@) == extract_steps(
            tarballs_view(tarballs@),
            checksums@.map_values(|c: Vec<u8>| c@),
            listing_view(listing@),
            tarballs@.len() as int,
        ),
{
    let ghost tv = tarballs_view(tarballs@);
    let ghost sv = checksums@.map_values(|c: Vec<u8>| c@);
    let ghost lv = listing_view(listing@);
    let mut out: Vec<CacheAction> = Vec::new();
    let mut i: usize = 0;
    while i < tarballs.len()
        invariant
            0 <= i <= tarballs@.len(),
            checksums@.len() == tarballs@.len(),
            tv == tarballs_view(tarballs@),
            sv == checksums@.map_values(|c: Vec<u8>| c@),
            lv == listing_view(listing@),
            cache_steps_of(out@) == extract_steps(tv, sv, lv, i as int),
        decreases tarballs@.len() - i,
    {
        let t = &tarballs[i];
        if !entry_is_fresh(listing, &t.build_id, &checksums[i]) {
            out.push(CacheAction::Extract { build_id: t.build_id.clone(), path: t.path.clone() });
        }
        assert(cache_steps_of(out@) =~= extract_steps(tv, sv, lv, i + 1));
        i += 1;
    }
    out
}

fn removal_actions(listing: &Vec<CacheListing>, tarballs: &Vec<Tarball>) -> (r: Vec<CacheAction>)
    ensures
        cache_steps_of(r@) == removal_steps(listing_view(listing@), tarball_ids(tarballs_view(tarballs@))),
{
    let ghost lv = listing_view(listing@);
    let ghost ids = tarball_ids(tarballs_view(tarballs@));
    let mut out: Vec<CacheAction> = Vec::new();
    let mut i: usize = 0;
    while i < listing.len()
        invariant
            0 <= i <= listing@.len(),
            lv == listing_view(listing@),
            ids == tarball_ids(tarballs_view(tarballs@)),
            cache_steps_of(out@) == removal_steps(lv.take(i as int), ids),
        decreases listing@.len() - i,
    {
        proof {
            assert(lv.take(i + 1).drop_last() =~= lv.take(i as int));
        }
        if listing[i].is_dir && !has_build_id(tarballs, &listing[i].name) {
            out.push(CacheAction::RemoveDir(listing[i].name.clone()));
        }
        assert(cache_steps_of(out@) =~= removal_steps(lv.take(i + 1), ids));
        i += 1;
    }
    assert(lv.take(listing@.len() as int) =~= lv);
    out
}

/// Full reconciliation of the cache directory against the tarballs
/// (`checksums[i]` is the checksum of `tarballs[i]`): delete every stray file,
/// extract every tarball whose entry is missing or whose sentinel differs, then
/// remove every entry that no tarball accounts for.
pub fn plan_cache_sync(tarballs: &Vec<Tarball>, checksums: &Vec<Vec<u8>>, listing: &Vec<CacheListing>) -> (r: Vec<
    CacheAction,
>)
    requires
        checksums@.len() == tarballs@.len(),
    ensures
        cache_steps_of(r@) == cache_sync_steps(
            tarballs_view(tarballs@),
            checksums@.map_values(|c: Vec<u8>| c@),
            listing_view(listing@),
        ),
{
    let mut out = stray_actions(listing);
    let mut extracts = extract_actions(tarballs, checksums, listing);
    let mut removals = removal_actions(listing, tarballs);
    let ghost a = out@;
    let ghost b = extracts@;
    let ghost c = removals@;
    out.append(&mut extracts);
    out.append(&mut removals);
    assert(cache_steps_of(out@) =~= cache_steps_of(a) + cache_steps_of(b) + cache_steps_of(c));
    out
}

} // verus!
