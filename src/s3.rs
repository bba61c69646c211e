//! Object-store backend: configuration, object keys, and the plans that
//! keep the bucket in line with the cache directory.

use crate::checksum::CHECKSUM_FILENAME;
use crate::options::{option_lookup, option_value, options_view, BackendCreationError};
use crate::text::{
    has_prefix, starts_with, strip_leading_slashes, strip_trailing_slashes, trim_leading_slashes,
    trim_trailing_slashes,
};
use vstd::prelude::*;

verus! {

/// Option naming the target bucket (required).
pub const BUCKET_OPTION: &'static str = "bucket";

/// Option giving the key prefix inside the bucket.
pub const PATH_PREFIX_OPTION: &'static str = "path-prefix";

/// Option naming the CDN distribution to invalidate.
pub const DISTRIBUTION_OPTION: &'static str = "cloudfront-distribution";

/// Object written, read back and deleted by the permission preflight.
pub const PREFLIGHT_OBJECT: &'static str = "iam_test";

/// Body of the preflight object.
pub const PREFLIGHT_BODY: &'static str = "test contents";

/// A key prefix with leading `/`s removed and, when non-empty, ending in `/`.
pub open spec fn normalized_prefix(p: Seq<char>) -> Seq<char> {
    let t = strip_leading_slashes(p);
    if t.len() > 0 && t.last() != '/' {
        t.push('/')
    } else {
        t
    }
}

/// Normalizes a bucket key prefix: leading `/`s are stripped and a non-empty
/// prefix is made to end with `/`; `/` alone becomes empty.
pub fn normalize_path_prefix(prefix: &str) -> (r: String)
    ensures
        r@ == normalized_prefix(prefix@),
{
    let t = trim_leading_slashes(prefix);
    let n = t.unicode_len();
    let mut out = t.to_owned();
    if n > 0 && t.get_char(n - 1) != '/' {
        out.append("/");
        proof {
            reveal_strlit("/");
        }
    }
    out
}

proof fn lemma_stripped_start(p: Seq<char>)
    ensures
        strip_leading_slashes(p).len() == 0 || strip_leading_slashes(p)[0] != '/',
    decreases p.len(),
{
    if p.len() > 0 && p[0] == '/' {
        lemma_stripped_start(p.drop_first());
    }
}

/// A normalized prefix never starts with `/` (so no key does), and a
/// non-empty one ends with `/`.
pub proof fn lemma_normalized_prefix_shape(p: Seq<char>)
    ensures
        normalized_prefix(p).len() == 0 || normalized_prefix(p)[0] != '/',
        normalized_prefix(p).len() == 0 || normalized_prefix(p).last() == '/',
{
    lemma_stripped_start(p);
}

/// Model of one preflight operation.
pub enum PreflightModel {
    ListObjects,
    PutObject(Seq<char>, Seq<char>),
    GetObject(Seq<char>, Seq<char>),
    DeleteObject(Seq<char>),
    Invalidate(Seq<char>),
}

/// One operation of the permission preflight; any failure aborts startup.
#[derive(Debug)]
pub enum PreflightStep {
    /// List the bucket.
    ListObjects,
    /// Write `body` at `key`.
    PutObject { key: String, body: String },
    /// Read `key` back; its bytes must equal `expected`.
    GetObject { key: String, expected: String },
    /// Delete `key`.
    DeleteObject { key: String },
    /// Invalidate `path` in the CDN.
    Invalidate { path: String },
}

impl View for PreflightStep {
    type V = PreflightModel;

    open spec fn view(&self) -> PreflightModel {
        match self {
            PreflightStep::ListObjects => PreflightModel::ListObjects,
            PreflightStep::PutObject { key, body } => PreflightModel::PutObject(key@, body@),
            PreflightStep::GetObject { key, expected } => PreflightModel::GetObject(key@, expected@),
            PreflightStep::DeleteObject { key } => PreflightModel::DeleteObject(key@),
            PreflightStep::Invalidate { path } => PreflightModel::Invalidate(path@),
        }
    }
}

/// The preflight: list, put the test object, read it back, delete it, and
/// with a CDN invalidate its path.
pub open spec fn preflight_steps(prefix: Seq<char>, cdn: bool) -> Seq<PreflightModel> {
    let key = prefix + PREFLIGHT_OBJECT@;
    seq![
        PreflightModel::ListObjects,
        PreflightModel::PutObject(key, PREFLIGHT_BODY@),
        PreflightModel::GetObject(key, PREFLIGHT_BODY@),
        PreflightModel::DeleteObject(key),
    ] + if cdn {
        seq![PreflightModel::Invalidate(seq!['/'] + key)]
    } else {
        Seq::empty()
    }
}

/// Configuration of the object-store backend.
#[derive(Debug)]
pub struct S3 {
    bucket: String,
    path_prefix: String,
    cloudfront_distribution: Option<String>,
}

impl S3 {
    /// Target bucket.
    pub closed spec fn spec_bucket(&self) -> Seq<char> {
        self.bucket@
    }

    /// Normalized key prefix.
    pub closed spec fn spec_prefix(&self) -> Seq<char> {
        self.path_prefix@
    }

    /// CDN distribution, when invalidation is enabled.
    pub closed spec fn spec_distribution(&self) -> Option<Seq<char>> {
        match &self.cloudfront_distribution {
            Some(d) => Some(d@),
            None => None,
        }
    }

    /// Whether CDN invalidation is enabled.
    pub open spec fn has_cdn(&self) -> bool {
        self.spec_distribution() is Some
    }

    /// Creates the backend configuration if the required `bucket` option is given.
    pub fn new(options: &Vec<(String, String)>) -> (r: Result<S3, BackendCreationError>)
        ensures
            match r {
                Ok(s) => {
                    &&& option_lookup(options_view(options@), BUCKET_OPTION@) == Some(s.spec_bucket())
                    &&& s.spec_prefix() == normalized_prefix(
                        match option_lookup(options_view(options@), PATH_PREFIX_OPTION@) {
                            Some(p) => p,
                            None => Seq::empty(),
                        },
                    )
                    &&& s.spec_distribution() == option_lookup(
                        options_view(options@),
                        DISTRIBUTION_OPTION@,
                    )
                },
                Err(_) => option_lookup(options_view(options@), BUCKET_OPTION@) is None,
            },
    {
        let bucket = match option_value(options, BUCKET_OPTION) {
            Some(b) => b.clone(),
            None => return Err(BackendCreationError),
        };
        let path_prefix = match option_value(options, PATH_PREFIX_OPTION) {
            Some(p) => normalize_path_prefix(p.as_str()),
            None => {
                proof {
                    reveal_strlit("");
                }
                normalize_path_prefix("")
            },
        };
        let cloudfront_distribution = match option_value(options, DISTRIBUTION_OPTION) {
            Some(d) => Some(d.clone()),
            None => None,
        };
        Ok(S3 { bucket, path_prefix, cloudfront_distribution })
    }

    /// The target bucket.
    pub fn bucket(&self) -> (r: &String)
        ensures
            r@ == self.spec_bucket(),
    {
        &self.bucket
    }

    /// The normalized key prefix.
    pub fn path_prefix(&self) -> (r: &String)
        ensures
            r@ == self.spec_prefix(),
    {
        &self.path_prefix
    }

    /// The CDN distribution, if invalidation is enabled.
    pub fn cloudfront_distribution(&self) -> (r: Option<&String>)
        ensures
            match r {
                Some(d) => self.spec_distribution() == Some(d@),
                None => self.spec_distribution() is None,
            },
    {
        match &self.cloudfront_distribution {
            Some(d) => Some(d),
            None => None,
        }
    }

    /// Key prefix of a build's directory in the bucket: `<prefix><build>/`.
    pub fn bucket_dir_prefix(&self, build: &str) -> (r: String)
        ensures
            r@ == self.spec_prefix() + build@ + seq!['/'],
    {
        let mut key = self.path_prefix.clone();
        key.append(build);
        key.append("/");
        proof {
            reveal_strlit("/");
        }
        key
    }

    /// Key of a cache-entry file: `<prefix><build>/<relative_path>`.
    pub fn object_key(&self, build: &str, relative_path: &str) -> (r: String)
        ensures
            r@ == self.spec_prefix() + build@ + seq!['/'] + relative_path@,
    {
        let mut key = self.bucket_dir_prefix(build);
        key.append(relative_path);
        key
    }

    /// Key of a build's sentinel object: `<prefix><build>/.__checksum`.
    pub fn checksum_key(&self, build: &str) -> (r: String)
        ensures
            r@ == self.spec_prefix() + build@ + seq!['/'] + CHECKSUM_FILENAME@,
    {
        self.object_key(build, CHECKSUM_FILENAME)
    }

    /// CDN path pattern covering a build: `/<prefix><build>*`.
    pub fn invalidation_path(&self, build: &str) -> (r: String)
        ensures
            r@ == seq!['/'] + self.spec_prefix() + build@ + seq!['*'],
    {
        let mut path = String::from_str("/");
        path.append(self.path_prefix.as_str());
        path.append(build);
        path.append("*");
        proof {
            reveal_strlit("/");
            reveal_strlit("*");
        }
        path
    }

    /// Objects that upload a build's cache entry: one per regular file walked,
    /// keyed `<prefix><build>/<relative_path>`; the sentinel is uploaded like
    /// any other file.
    pub fn upload_plan(&self, build: &str, entries: &Vec<WalkedEntry>) -> (r: Vec<ObjectUpload>)
        ensures
            r@.map_values(|u: ObjectUpload| (u.key@, u.relative_path@)) == upload_objects(
                self.spec_prefix(),
                build@,
                entries@.map_values(|e: WalkedEntry| (e.relative_path@, e.is_file)),
            ),
    {
        let ghost ev = entries@.map_values(|e: WalkedEntry| (e.relative_path@, e.is_file));
        let mut out: Vec<ObjectUpload> = Vec::new();
        let mut i: usize = 0;
        while i < entries.len()
            invariant
                0 <= i <= entries@.len(),
                ev == entries@.map_values(|e: WalkedEntry| (e.relative_path@, e.is_file)),
                out@.map_values(|u: ObjectUpload| (u.key@, u.relative_path@)) == upload_objects(
                    self.spec_prefix(),
                    build@,
                    ev.take(i as int),
                ),
            decreases entries@.len() - i,
        {
            proof {
                assert(ev.take(i + 1).drop_last() =~= ev.take(i as int));
            }
            let e = &entries[i];
            if e.is_file {
                let key = self.object_key(build, e.relative_path.as_str());
                out.push(ObjectUpload { key, relative_path: e.relative_path.clone() });
            }
            assert(out@.map_values(|u: ObjectUpload| (u.key@, u.relative_path@)) =~= upload_objects(
                self.spec_prefix(),
                build@,
                ev.take(i + 1),
            ));
            i += 1;
        }
        assert(ev.take(entries@.len() as int) =~= ev);
        out
    }

    /// Key of the object the permission preflight writes: `<prefix>iam_test`.
    pub fn preflight_key(&self) -> (r: String)
        ensures
            r@ == self.spec_prefix() + PREFLIGHT_OBJECT@,
    {
        let mut key = self.path_prefix.clone();
        key.append(PREFLIGHT_OBJECT);
        key
    }

    /// Operations of the permission preflight, in order.
    pub fn preflight_plan(&self) -> (r: Vec<PreflightStep>)
        ensures
            r@.map_values(|s: PreflightStep| s@) == preflight_steps(self.spec_prefix(), self.has_cdn()),
    {
        let key = self.preflight_key();
        let mut out: Vec<PreflightStep> = Vec::new();
        out.push(PreflightStep::ListObjects);
        out.push(PreflightStep::PutObject { key: key.clone(), body: PREFLIGHT_BODY.to_owned() });
        out.push(PreflightStep::GetObject { key: key.clone(), expected: PREFLIGHT_BODY.to_owned() });
        out.push(PreflightStep::DeleteObject { key: key.clone() });
        if self.cloudfront_distribution.is_some() {
            let mut path = String::from_str("/");
            path.append(key.as_str());
            proof {
                reveal_strlit("/");
                assert(path@ =~= seq!['/'] + key@);
            }
            out.push(PreflightStep::Invalidate { path });
        }
        assert(out@.map_values(|s: PreflightStep| s@) =~= preflight_steps(self.spec_prefix(), self.has_cdn()));
        out
    }

    /// Build id named by a common prefix of a delimited listing under the key
    /// prefix: the part after the key prefix, less trailing `/`s.
    pub fn listed_build_id(&self, common_prefix: &str) -> (r: Option<String>)
        ensures
            match r {
                Some(id) => has_prefix(common_prefix@, self.spec_prefix()) && id@ == strip_trailing_slashes(
                    common_prefix@.subrange(self.spec_prefix().len() as int, common_prefix@.len() as int),
                ),
                None => !has_prefix(common_prefix@, self.spec_prefix()),
            },
    {
        let prefix = self.path_prefix.as_str();
        if !starts_with(common_prefix, prefix) {
            return None;
        }
        let n = common_prefix.unicode_len();
        let rest = common_prefix.substring_char(prefix.unicode_len(), n);
        Some(trim_trailing_slashes(rest).to_owned())
    }
}

/// A file found while walking a cache entry, relative to the entry's root.
#[derive(Debug)]
pub struct WalkedEntry {
    pub relative_path: String,
    /// A regular file; symbolic links and other entries are not uploaded.
    pub is_file: bool,
}

/// An object to put: the key, and the cache-entry file that supplies its body.
#[derive(Debug)]
pub struct ObjectUpload {
    pub key: String,
    pub relative_path: String,
}

/// Uploads for the regular files among `entries`, in order, keyed under `prefix` and `build`.
pub open spec fn upload_objects(
    prefix: Seq<char>,
    build: Seq<char>,
    entries: Seq<(Seq<char>, bool)>,
) -> Seq<(Seq<char>, Seq<char>)>
    decreases entries.len(),
{
    if entries.len() == 0 {
        Seq::empty()
    } else {
        let rest = upload_objects(prefix, build, entries.drop_last());
        let e = entries.last();
        if e.1 {
            rest.push((prefix + build + seq!['/'] + e.0, e.0))
        } else {
            rest
        }
    }
}

/// Keys to pass to one batch delete of a build directory, or `None` when the
/// listing is empty (the store rejects an empty batch).
pub fn batch_delete_keys(listed: Vec<String>) -> (r: Option<Vec<String>>)
    ensures
        listed@.len() == 0 ==> r is None,
        listed@.len() > 0 ==> r == Some(listed),
{
    if listed.len() == 0 {
        None
    } else {
        Some(listed)
    }
}

} // verus!
