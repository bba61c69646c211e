//! Backend options: `KEY=VALUE` parsing, lookup, and the configuration errors.

use crate::text::{find_char, first_index_of};
use vstd::prelude::*;

verus! {

/// A backend option was not written as `key=value`.
#[derive(Debug, Clone, Copy, PartialEq, Eq, Structural)]
pub struct OptionParsingError;

impl OptionParsingError {
    /// Human-readable description.
    pub fn message(&self) -> String {
        String::from_str(
            "Encountered an invalid option. Backend options must be specified in key=value format.",
        )
    }
}

/// A backend could not be created because a required option is missing.
#[derive(Debug, Clone, Copy, PartialEq, Eq, Structural)]
pub struct BackendCreationError;

impl BackendCreationError {
    /// Human-readable description.
    pub fn message(&self) -> String {
        String::from_str("Unable to initialize backend. Some required options were not provided.")
    }
}

/// The views of a list of `(key, value)` options.
pub open spec fn options_view(options: Seq<(String, String)>) -> Seq<(Seq<char>, Seq<char>)> {
    options.map_values(|p: (String, String)| (p.0@, p.1@))
}

/// Value of `key` in `options`; a key given more than once takes its last value.
pub open spec fn option_lookup(options: Seq<(Seq<char>, Seq<char>)>, key: Seq<char>) -> Option<Seq<char>>
    decreases options.len(),
{
    if options.len() == 0 {
        None
    } else if options.last().0 == key {
        Some(options.last().1)
    } else {
        option_lookup(options.drop_last(), key)
    }
}

/// The key and value of `option`, split at its first `=`.
pub open spec fn split_option(option: Seq<char>) -> Option<(Seq<char>, Seq<char>)> {
    match first_index_of(option, '=') {
        Some(i) => Some((option.subrange(0, i), option.subrange(i + 1, option.len() as int))),
        None => None,
    }
}

/// Parses a backend option in `key=value` format, splitting at the first `=`.
pub fn parse_backend_option(option: &str) -> (r: Result<(String, String), OptionParsingError>)
    ensures
        match r {
            Ok(kv) => split_option(option@) == Some((kv.0@, kv.1@)),
            Err(_) => split_option(option@) is None,
        },
{
    match find_char(option, '=') {
        Some(i) => {
            let n = option.unicode_len();
            let key = option.substring_char(0, i).to_owned();
            let value = option.substring_char(i + 1, n).to_owned();
            Ok((key, value))
        },
        None => Err(OptionParsingError),
    }
}

/// Looks up `key`; a key given more than once takes its last value.
pub fn option_value<'a>(options: &'a Vec<(String, String)>, key: &str) -> (r: Option<&'a String>)
    ensures
        match r {
            Some(v) => option_lookup(options_view(options@), key@) == Some(v@),
            None => option_lookup(options_view(options@), key@) is None,
        },
{
    let mut i: usize = options.len();
    assert(options@.take(i as int) =~= options@);
    while i > 0
        invariant
            i <= options@.len(),
            option_lookup(options_view(options@), key@) == option_lookup(
                options_view(options@.take(i as int)),
                key@,
            ),
        decreases i,
    {
        let ghost pre = options_view(options@.take(i as int));
        assert(pre.drop_last() =~= options_view(options@.take(i - 1)));
        let k = &options[i - 1].0;
        if string_eq_str(k, key) {
            return Some(&options[i - 1].1);
        }
        i -= 1;
    }
    assert(options_view(options@.take(0)) =~= Seq::<(Seq<char>, Seq<char>)>::empty());
    None
}

/// Compares a `String` with a string slice by characters.
pub fn string_eq_str(a: &String, b: &str) -> (r: bool)
    ensures
        r == (a@ == b@),
{
    let s = a.as_str();
    let n = s.unicode_len();
    if n != b.unicode_len() {
        return false;
    }
    let mut i: usize = 0;
    while i < n
        invariant
            n == s@.len(),
            s@ == a@,
            n == b@.len(),
            0 <= i <= n,
            forall|j: int| 0 <= j < i ==> s@[j] == b@[j],
        decreases n - i,
    {
        if s.get_char(i) != b.get_char(i) {
            assert(s@[i as int] != b@[i as int]);
            return false;
        }
        i += 1;
    }
    assert(s@ =~= b@);
    true
}

} // verus!
