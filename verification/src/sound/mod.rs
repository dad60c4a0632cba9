//! Sound samples held in memory.

use std::sync::Arc;
use vstd::prelude::*;

verus! {

/// The bytes of an encoded sound sample, shared between the players that
/// decode it.
pub struct Sfx(Arc<Vec<u8>>);

impl View for Sfx {
    type V = Seq<u8>;

    closed spec fn view(&self) -> Seq<u8> {
        self.0@
    }
}

/// Calls `Arc::clone`, which std documents as making another pointer to
/// the same allocation, so the contents are the same.
#[verifier::external_body]
fn share_bytes(bytes: &Arc<Vec<u8>>) -> (r: Arc<Vec<u8>>)
    ensures
        r@ == bytes@,
{
    Arc::clone(bytes)
}

impl Sfx {
    /// A sample holding `bytes`, as read from a sound file.
    pub fn new(bytes: Vec<u8>) -> (r: Sfx)
        ensures
            r@ == bytes@,
    {
        Sfx(Arc::new(bytes))
    }

    /// Another handle on the same bytes.
    pub fn share(&self) -> (r: Sfx)
        ensures
            r@ == self@,
    {
        Sfx(share_bytes(&self.0))
    }

    /// The bytes of the sample.
    pub fn as_bytes(&self) -> (r: &[u8])
        ensures
            r@ == self@,
    {
        self.0.as_slice()
    }

    /// The number of bytes of the sample.
    pub fn len(&self) -> (r: usize)
        ensures
            r == self@.len(),
    {
        self.0.len()
    }
}

impl AsRef<[u8]> for Sfx {
    fn as_ref(&self) -> (r: &[u8])
        ensures
            r@ == self@,
    {
        self.0.as_slice()
    }
}

} // verus!
