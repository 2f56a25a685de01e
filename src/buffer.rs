//! The buffer that one-shot generation hands back.
use bytes::Bytes;
use vstd::prelude::*;

verus! {

#[verifier::external_type_specification]
#[verifier::external_body]
pub struct ExBytes(bytes::Bytes);

/// The bytes a `bytes::Bytes` holds.
pub uninterp spec fn bytes_content(b: Bytes) -> Seq<u8>;

/// Relies on `bytes::Bytes::from(Vec<u8>)`: the result holds the vector's
/// bytes (taking over its allocation).
#[verifier::external_body]
fn bytes_from_vec(v: Vec<u8>) -> (r: Bytes)
    ensures
        bytes_content(r) == v@,
{
    Bytes::from(v)
}

/// Generated bytes. Truncation only shortens the visible length; it never
/// copies.
pub enum DataBuffer {
    /// A plain heap allocation.
    Uma(Vec<u8>),
}

impl View for DataBuffer {
    type V = Seq<u8>;

    open spec fn view(&self) -> Seq<u8> {
        match self {
            DataBuffer::Uma(v) => v@,
        }
    }
}

impl DataBuffer {
    /// The bytes, for writing.
    pub fn as_mut_slice(&mut self) -> (r: &mut [u8])
        ensures
            r@ == old(self)@,
            final(self)@ == final(r)@,
    {
        match self {
            DataBuffer::Uma(v) => v.as_mut_slice(),
        }
    }

    /// The bytes.
    pub fn as_slice(&self) -> (r: &[u8])
        ensures
            r@ == self@,
    {
        match self {
            DataBuffer::Uma(v) => v.as_slice(),
        }
    }

    /// Number of bytes.
    pub fn len(&self) -> (r: usize)
        ensures
            r == self@.len(),
    {
        match self {
            DataBuffer::Uma(v) => v.len(),
        }
    }

    /// Whether there are no bytes.
    pub fn is_empty(&self) -> (r: bool)
        ensures
            r == (self@.len() == 0),
    {
        self.len() == 0
    }

    /// Keeps the first `size` bytes (all of them if there are fewer).
    pub fn truncate(&mut self, size: usize)
        ensures
            final(self)@ == (if size < old(self)@.len() {
                old(self)@.subrange(0, size as int)
            } else {
                old(self)@
            }),
    {
        match self {
            DataBuffer::Uma(v) => v.truncate(size),
        }
    }

    /// The bytes as a `bytes::Bytes`, without a copy.
    pub fn into_bytes(self) -> (r: Bytes)
        ensures
            bytes_content(r) == self@,
    {
        match self {
            DataBuffer::Uma(v) => bytes_from_vec(v),
        }
    }
}

} // verus!
