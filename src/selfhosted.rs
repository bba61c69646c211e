//! Self-hosted HTTP backend: configuration and request routing.

use crate::checksum::CHECKSUM_FILENAME;
use crate::options::{option_lookup, option_value, options_view, BackendCreationError};
use crate::text::{ends_with, has_suffix};
use vstd::prelude::*;

verus! {

/// Option giving the `host:port` to listen on.
pub const ADDRESS_OPTION: &'static str = "address";

/// Listening address when none is configured.
pub const DEFAULT_ADDRESS: &'static str = "0.0.0.0:4201";

/// Path of the health check.
pub const HEALTH_PATH: &'static str = "/health";

/// Configuration of the self-hosted backend.
#[derive(Debug)]
pub struct Selfhosted {
    address: String,
}

/// The self-hosted backend.
pub type SelfhostedBackend = Selfhosted;

/// How a request is answered.
#[derive(PartialEq, Eq, Structural, Clone, Copy, Debug)]
pub enum Route {
    /// `200 OK`, empty body.
    Health,
    /// `404 Not Found`, empty body: sentinels are private.
    Hidden,
    /// Resolved against the cache directory by the static-file server.
    Static,
}

/// Route of a request path.
pub open spec fn route_of(path: Seq<char>) -> Route {
    if path == HEALTH_PATH@ {
        Route::Health
    } else if has_suffix(path, CHECKSUM_FILENAME@) {
        Route::Hidden
    } else {
        Route::Static
    }
}

/// Chooses how to answer a request for `path`: the health check, a hidden
/// sentinel, or a file of the cache directory.
pub fn route_request(path: &str) -> (r: Route)
    ensures
        r == route_of(path@),
{
    if ends_with(path, HEALTH_PATH) && path.unicode_len() == HEALTH_PATH.unicode_len() {
        assert(path@ =~= path@.subrange(0, path@.len() as int));
        return Route::Health;
    }
    proof {
        if path@ == HEALTH_PATH@ {
            assert(path@.subrange(0, path@.len() as int) =~= path@);
        }
    }
    if ends_with(path, CHECKSUM_FILENAME) {
        Route::Hidden
    } else {
        Route::Static
    }
}

/// A resolved file is served as a download exactly when the resolver answers `200 OK`.
pub fn is_attachment(status: u16) -> (r: bool)
    ensures
        r == (status == 200),
{
    status == 200
}

impl Selfhosted {
    /// Listening address.
    pub closed spec fn spec_address(&self) -> Seq<char> {
        self.address@
    }

    /// Creates the backend configuration; `address` defaults to `0.0.0.0:4201`.
    pub fn new(options: &Vec<(String, String)>) -> (r: Result<Selfhosted, BackendCreationError>)
        ensures
            r is Ok,
            r matches Ok(s) && s.spec_address() == match option_lookup(options_view(options@), ADDRESS_OPTION@) {
                Some(a) => a,
                None => DEFAULT_ADDRESS@,
            },
    {
        let address = match option_value(options, ADDRESS_OPTION) {
            Some(a) => a.clone(),
            None => DEFAULT_ADDRESS.to_owned(),
        };
        Ok(Selfhosted { address })
    }

    /// The listening address.
    pub fn address(&self) -> (r: &String)
        ensures
            r@ == self.spec_address(),
    {
        &self.address
    }
}

} // verus!
