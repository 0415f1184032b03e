//! The buffer type behind the header's fixed-width text fields.
//!
//! The buffer is backed by a `smallvec::SmallVec` and is opaque to the
//! verifier; `tb_bytes` names the bytes it holds, and the trusted accessors
//! below state what each `smallvec` call yields.

use vstd::prelude::*;

verus! {

/// A byte buffer for one of the header's two fixed-width text fields,
/// backed by inline storage.
#[derive(Debug)]
#[verifier::external_body]
pub struct TextBuf {
    inner: smallvec::SmallVec<[u8; 60]>,
}

/// The bytes that a `TextBuf` holds, in order.
pub uninterp spec fn tb_bytes(v: TextBuf) -> Seq<u8>;

impl TextBuf {
    /// Relies on `SmallVec::from_slice`: the new vector holds exactly the
    /// slice's elements, in order.
    #[verifier::external_body]
    pub fn from_slice(s: &[u8]) -> (r: TextBuf)
        ensures
            tb_bytes(r) == s@,
    {
        TextBuf { inner: smallvec::SmallVec::from_slice(s) }
    }

    /// Relies on `SmallVec::as_slice`: the vector's elements, as a slice.
    #[verifier::external_body]
    pub fn as_bytes(&self) -> (r: &[u8])
        ensures
            r@ == tb_bytes(*self),
    {
        self.inner.as_slice()
    }
}

} // verus!
