//! Tarball checksums: BLAKE2b-512 over a tarball's bytes, fed in chunks.

use vstd::prelude::*;

verus! {

/// Name of the sentinel file at the root of a cache entry; it holds the
/// tarball's checksum as raw bytes.
pub const CHECKSUM_FILENAME: &'static str = ".__checksum";

/// Running BLAKE2b-512 state. The state is held in a field of this struct
/// because Verus cannot declare `blake2::Blake2b512`, an alias for one
/// instance of a generic wrapper; what it has consumed is named by
/// [`blake2b_input`].
#[verifier::external_body]
pub struct Blake2bState {
    inner: blake2::Blake2b512,
}

/// The bytes fed to a BLAKE2b-512 state so far.
pub uninterp spec fn blake2b_input(state: Blake2bState) -> Seq<u8>;

/// BLAKE2b-512 digest of `data`.
pub uninterp spec fn blake2b_512(data: Seq<u8>) -> Seq<u8>;

/// Relies on blake2::Blake2b512::new: a state that has been fed nothing.
#[verifier::external_body]
fn blake2b_new() -> (r: Blake2bState)
    ensures
        blake2b_input(r) == Seq::<u8>::empty(),
{
    Blake2bState { inner: <blake2::Blake2b512 as blake2::Digest>::new() }
}

/// Relies on blake2::Blake2b512::update: the chunk is appended to the input.
#[verifier::external_body]
fn blake2b_update(state: &mut Blake2bState, chunk: &[u8])
    ensures
        blake2b_input(*final(state)) == blake2b_input(*old(state)) + chunk@,
{
    <blake2::Blake2b512 as blake2::Digest>::update(&mut state.inner, chunk)
}

/// Relies on blake2::Blake2b512::finalize: the 64-byte digest of all input fed.
#[verifier::external_body]
fn blake2b_finalize(state: Blake2bState) -> (r: Vec<u8>)
    ensures
        r@ == blake2b_512(blake2b_input(state)),
        r@.len() == 64,
{
    <blake2::Blake2b512 as blake2::Digest>::finalize(state.inner).to_vec()
}

/// Checksum of a tarball under construction, fed with the tarball's bytes in order.
pub struct TarballChecksum {
    state: Blake2bState,
}

impl View for TarballChecksum {
    type V = Seq<u8>;

    /// The bytes consumed so far.
    closed spec fn view(&self) -> Seq<u8> {
        blake2b_input(self.state)
    }
}

impl TarballChecksum {
    /// A checksum that has consumed nothing.
    pub fn new() -> (r: TarballChecksum)
        ensures
            r@ == Seq::<u8>::empty(),
    {
        TarballChecksum { state: blake2b_new() }
    }

    /// Consumes the next chunk of the tarball.
    pub fn update(&mut self, chunk: &[u8])
        ensures
            final(self)@ == old(self)@ + chunk@,
    {
        blake2b_update(&mut self.state, chunk);
    }

    /// The 64-byte checksum of everything consumed; these bytes are what a
    /// cache entry's sentinel holds.
    pub fn finish(self) -> (r: Vec<u8>)
        ensures
            r@ == blake2b_512(self@),
            r@.len() == 64,
    {
        blake2b_finalize(self.state)
    }
}

} // verus!
