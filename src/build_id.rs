//! Build ids: how a tarball's file name becomes the id that the cache,
//! the event bus and the backends see.

use crate::text::{ends_with, file_name_of, has_suffix, to_filename_str};
use vstd::prelude::*;

verus! {

/// Suffix that marks an artifact tarball.
pub const TARBALL_SUFFIX: &'static str = ".tar.gz";

/// The characters of [`TARBALL_SUFFIX`].
pub open spec fn tarball_suffix() -> Seq<char> {
    seq!['.', 't', 'a', 'r', '.', 'g', 'z']
}

/// Lowercase hexadecimal digit for a value below 16.
pub open spec fn hex_digit(n: int) -> char {
    seq!['0', '1', '2', '3', '4', '5', '6', '7', '8', '9', 'a', 'b', 'c', 'd', 'e', 'f'][n]
}

/// Lowercase hexadecimal text of `bytes`, two digits per byte, high half first.
pub open spec fn hex_lower(bytes: Seq<u8>) -> Seq<char>
    decreases bytes.len(),
{
    if bytes.len() == 0 {
        Seq::empty()
    } else {
        hex_lower(bytes.drop_last()) + seq![
            hex_digit(bytes.last() as int / 16),
            hex_digit(bytes.last() as int % 16),
        ]
    }
}

/// SHA-256 digest of the UTF-8 encoding of `text`.
pub uninterp spec fn sha256_of(text: Seq<char>) -> Seq<u8>;

/// Raw build id of a tarball file name: the name less one `.tar.gz`.
/// A name that is only the suffix gives no id (build ids are never empty).
pub open spec fn raw_build_id(name: Seq<char>) -> Option<Seq<char>> {
    if has_suffix(name, tarball_suffix()) && name.len() > tarball_suffix().len() {
        Some(name.subrange(0, name.len() - tarball_suffix().len()))
    } else {
        None
    }
}

/// Salted build id: hex SHA-256 of `"{raw}:{salt}"`.
pub open spec fn salted_id(raw: Seq<char>, salt: Seq<char>) -> Seq<char> {
    hex_lower(sha256_of(raw + seq![':'] + salt))
}

/// The view of an optional string slice.
pub open spec fn opt_view(o: Option<&str>) -> Option<Seq<char>> {
    match o {
        Some(s) => Some(s@),
        None => None,
    }
}

/// Build id of the file at `path`, in raw or salted form; `None` when the
/// path is not an artifact tarball.
pub open spec fn artifact_build_id(path: Seq<char>, salt: Option<Seq<char>>) -> Option<Seq<char>> {
    match file_name_of(path) {
        Some(name) => match raw_build_id(name) {
            Some(raw) => match salt {
                Some(s) => Some(salted_id(raw, s)),
                None => Some(raw),
            },
            None => None,
        },
        None => None,
    }
}

/// Relies on hex::encode: two lowercase hex digits per input byte, high half first.
#[verifier::external_body]
fn hex_encode(bytes: &Vec<u8>) -> (r: String)
    ensures
        r@ == hex_lower(bytes@),
{
    hex::encode(bytes)
}

/// Relies on sha2::Sha256::digest: the SHA-256 digest of the text's UTF-8 bytes,
/// which is 32 bytes long.
#[verifier::external_body]
fn sha256_digest(text: &str) -> (r: Vec<u8>)
    ensures
        r@ == sha256_of(text@),
        r@.len() == 32,
{
    <sha2::Sha256 as sha2::Digest>::digest(text.as_bytes()).to_vec()
}

/// Hex text is two digits per byte.
pub proof fn lemma_hex_len(bytes: Seq<u8>)
    ensures
        hex_lower(bytes).len() == 2 * bytes.len(),
    decreases bytes.len(),
{
    if bytes.len() > 0 {
        lemma_hex_len(bytes.drop_last());
    }
}

/// Build id text for a digest: its lowercase hex form.
pub fn digest_to_build_id(digest: &Vec<u8>) -> (r: String)
    ensures
        r@ == hex_lower(digest@),
        r@.len() == 2 * digest@.len(),
{
    proof {
        lemma_hex_len(digest@);
    }
    hex_encode(digest)
}

/// Salted build id of `raw` under `salt`: 64 lowercase hex digits.
pub fn salted_build_id(raw: &str, salt: &str) -> (r: String)
    ensures
        r@ == salted_id(raw@, salt@),
        r@.len() == 64,
{
    let mut text = raw.to_owned();
    text.append(":");
    text.append(salt);
    proof {
        reveal_strlit(":");
        assert(text@ =~= raw@ + seq![':'] + salt@);
    }
    let digest = sha256_digest(text.as_str());
    digest_to_build_id(&digest)
}

/// Determines whether `path` is an artifact tarball; if so, returns its build id.
pub fn is_artifact_tarball(path: &str, digest_salt: Option<&str>) -> (r: Option<String>)
    ensures
        match r {
            Some(id) => artifact_build_id(path@, opt_view(digest_salt)) == Some(id@),
            None => artifact_build_id(path@, opt_view(digest_salt)) is None,
        },
{
    proof {
        reveal_strlit(".tar.gz");
        assert(TARBALL_SUFFIX@ =~= tarball_suffix());
    }
    let name = match to_filename_str(path) {
        Some(name) => name,
        None => return None,
    };
    let n = name.unicode_len();
    if !ends_with(name, TARBALL_SUFFIX) || n <= 7 {
        return None;
    }
    let raw = name.substring_char(0, n - 7);
    match digest_salt {
        Some(salt) => Some(salted_build_id(raw, salt)),
        None => Some(raw.to_owned()),
    }
}

/// Kind of change a [`BuildEvent`] reports.
#[derive(PartialEq, Eq, Structural, Clone, Copy, Debug)]
pub enum EventKind {
    Create,
    Update,
    Delete,
}

/// A detected change to an artifact tarball; carries the build id.
#[derive(Debug)]
pub enum BuildEvent {
    Create(String),
    Update(String),
    Delete(String),
}

impl View for BuildEvent {
    type V = (EventKind, Seq<char>);

    open spec fn view(&self) -> (EventKind, Seq<char>) {
        match self {
            BuildEvent::Create(id) => (EventKind::Create, id@),
            BuildEvent::Update(id) => (EventKind::Update, id@),
            BuildEvent::Delete(id) => (EventKind::Delete, id@),
        }
    }
}

impl BuildEvent {
    /// Event of the given kind for `build_id`.
    pub fn new(kind: EventKind, build_id: String) -> (r: BuildEvent)
        ensures
            r@ == (kind, build_id@),
    {
        match kind {
            EventKind::Create => BuildEvent::Create(build_id),
            EventKind::Update => BuildEvent::Update(build_id),
            EventKind::Delete => BuildEvent::Delete(build_id),
        }
    }

    /// The kind of change.
    pub fn kind(&self) -> (r: EventKind)
        ensures
            r == self@.0,
    {
        match self {
            BuildEvent::Create(_) => EventKind::Create,
            BuildEvent::Update(_) => EventKind::Update,
            BuildEvent::Delete(_) => EventKind::Delete,
        }
    }

    /// The build id the event is about.
    pub fn build_id(&self) -> (r: &String)
        ensures
            r@ == self@.1,
    {
        match self {
            BuildEvent::Create(id) => id,
            BuildEvent::Update(id) => id,
            BuildEvent::Delete(id) => id,
        }
    }
}

} // verus!
