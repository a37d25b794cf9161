//! Conversions between a `Bufferfish` and plain sequences of bytes, and the
//! equality of buffers.

use crate::buffer::{BufferView, Bufferfish};
use vstd::prelude::*;
use vstd::std_specs::cmp::PartialEqSpecImpl;
use vstd::std_specs::convert::FromSpecImpl;

verus! {

/// `From<T> for T` of the standard library: the conversion of a value to
/// its own type returns the value unchanged.
pub assume_specification<A>[ <A as core::convert::From<A>>::from ](given: A) -> (same: A)
    ensures
        same == given,
;

impl From<Vec<u8>> for Bufferfish {
    /// A buffer that holds the bytes of `vec`, with their count as its max
    /// capacity.
    fn from(vec: Vec<u8>) -> (bf: Bufferfish)
        ensures
            bf@ == (BufferView {
                bytes: vec@,
                cursor: 0,
                max_capacity: vec@.len(),
            }),
    {
        Bufferfish::from_vec(vec)
    }
}

impl FromSpecImpl<Vec<u8>> for Bufferfish {
    open spec fn obeys_from_spec() -> bool {
        true
    }

    open spec fn from_spec(vec: Vec<u8>) -> Bufferfish {
        Bufferfish::holding(vec)
    }
}

impl From<&[u8]> for Bufferfish {
    /// A buffer that holds a copy of the bytes of `slice`, with their count
    /// as its max capacity.
    fn from(slice: &[u8]) -> (bf: Bufferfish)
        ensures
            bf@ == (BufferView {
                bytes: slice@,
                cursor: 0,
                max_capacity: slice@.len(),
            }),
    {
        Bufferfish::from_slice(slice)
    }
}

impl FromSpecImpl<&[u8]> for Bufferfish {
    open spec fn obeys_from_spec() -> bool {
        false
    }

    open spec fn from_spec(slice: &[u8]) -> Bufferfish {
        arbitrary()
    }
}

impl From<Bufferfish> for Vec<u8> {
    /// The bytes of the buffer.
    fn from(buffer: Bufferfish) -> (bytes: Vec<u8>)
        ensures
            bytes@ == buffer@.bytes,
    {
        buffer.into_vec()
    }
}

impl FromSpecImpl<Bufferfish> for Vec<u8> {
    open spec fn obeys_from_spec() -> bool {
        false
    }

    open spec fn from_spec(buffer: Bufferfish) -> Vec<u8> {
        arbitrary()
    }
}

impl AsRef<[u8]> for Bufferfish {
    fn as_ref(&self) -> (bytes: &[u8])
        ensures
            bytes@ == self@.bytes,
    {
        self.as_bytes()
    }
}

impl AsMut<[u8]> for Bufferfish {
    fn as_mut(&mut self) -> (bytes: &mut [u8])
        ensures
            bytes@ == old(self)@.bytes,
            final(self)@.bytes == final(bytes)@,
            final(self)@.max_capacity == old(self)@.max_capacity,
            final(bytes)@.len() == bytes@.len() ==> final(self)@.cursor == old(self)@.cursor,
    {
        self.as_bytes_mut()
    }
}

impl Default for Bufferfish {
    /// An empty buffer without a ceiling.
    fn default() -> (bf: Bufferfish)
        ensures
            bf@ == (BufferView {
                bytes: Seq::empty(),
                cursor: 0,
                max_capacity: 0,
            }),
    {
        Bufferfish::with_capacity(0)
    }
}

impl PartialEq for Bufferfish {
    /// Two buffers are equal if they hold the same bytes, wherever their
    /// cursors stand and whatever their ceilings are.
    fn eq(&self, other: &Bufferfish) -> (equal: bool) {
        let mine = self.as_bytes();
        let theirs = other.as_bytes();
        if mine.len() != theirs.len() {
            return false;
        }
        let mut at: usize = 0;
        while at < mine.len()
            invariant
                at <= mine@.len(),
                mine@.len() == theirs@.len(),
                mine@ == self@.bytes,
                theirs@ == other@.bytes,
                mine@.subrange(0, at as int) =~= theirs@.subrange(0, at as int),
            decreases mine@.len() - at,
        {
            if mine[at] != theirs[at] {
                return false;
            }
            proof {
                assert(mine@.subrange(0, at + 1) =~= mine@.subrange(0, at as int).push(
                    mine@[at as int],
                ));
                assert(theirs@.subrange(0, at + 1) =~= theirs@.subrange(0, at as int).push(
                    theirs@[at as int],
                ));
            }
            at = at + 1;
        }
        proof {
            assert(mine@.subrange(0, at as int) =~= mine@);
            assert(theirs@.subrange(0, at as int) =~= theirs@);
        }
        true
    }
}

impl PartialEqSpecImpl for Bufferfish {
    open spec fn obeys_eq_spec() -> bool {
        true
    }

    open spec fn eq_spec(&self, other: &Bufferfish) -> bool {
        self@.bytes == other@.bytes
    }
}

/// `bytes::Bytes`, a shared and immutable run of bytes.
#[verifier::external_type_specification]
#[verifier::external_body]
pub struct ExBytes(bytes::Bytes);

/// The bytes that a `bytes::Bytes` holds, in order.
pub uninterp spec fn bytes_contents(bytes: bytes::Bytes) -> Seq<u8>;

/// The slice method `to_vec` on what `bytes::Bytes` derefs to: a vector
/// with a copy of the bytes that it holds.
#[verifier::external_body]
fn bytes_to_vec(bytes: &bytes::Bytes) -> (copy: Vec<u8>)
    ensures
        copy@ == bytes_contents(*bytes),
{
    bytes.to_vec()
}

/// `bytes::Bytes::from` for a `Vec<u8>`: a `Bytes` that holds the bytes of
/// the vector.
#[verifier::external_body]
fn bytes_from_vec(bytes: Vec<u8>) -> (made: bytes::Bytes)
    ensures
        bytes_contents(made) == bytes@,
{
    bytes::Bytes::from(bytes)
}

/// `bytes::Bytes::copy_from_slice`: a `Bytes` that holds a copy of the
/// bytes of the slice.
#[verifier::external_body]
fn bytes_copy_from_slice(bytes: &[u8]) -> (made: bytes::Bytes)
    ensures
        bytes_contents(made) == bytes@,
{
    bytes::Bytes::copy_from_slice(bytes)
}

impl From<bytes::Bytes> for Bufferfish {
    /// A buffer that holds a copy of the bytes of `bytes`, with their count
    /// as its max capacity.
    fn from(bytes: bytes::Bytes) -> (bf: Bufferfish)
        ensures
            bf@ == (BufferView {
                bytes: bytes_contents(bytes),
                cursor: 0,
                max_capacity: bytes_contents(bytes).len(),
            }),
    {
        Bufferfish::from_vec(bytes_to_vec(&bytes))
    }
}

impl FromSpecImpl<bytes::Bytes> for Bufferfish {
    open spec fn obeys_from_spec() -> bool {
        false
    }

    open spec fn from_spec(bytes: bytes::Bytes) -> Bufferfish {
        arbitrary()
    }
}

impl From<Bufferfish> for bytes::Bytes {
    /// The bytes of the buffer.
    fn from(buffer: Bufferfish) -> (bytes: bytes::Bytes)
        ensures
            bytes_contents(bytes) == buffer@.bytes,
    {
        bytes_from_vec(buffer.into_vec())
    }
}

impl FromSpecImpl<Bufferfish> for bytes::Bytes {
    open spec fn obeys_from_spec() -> bool {
        false
    }

    open spec fn from_spec(buffer: Bufferfish) -> bytes::Bytes {
        arbitrary()
    }
}

impl From<&Bufferfish> for bytes::Bytes {
    /// A copy of the bytes of the buffer.
    fn from(buffer: &Bufferfish) -> (bytes: bytes::Bytes)
        ensures
            bytes_contents(bytes) == buffer@.bytes,
    {
        bytes_copy_from_slice(buffer.as_bytes())
    }
}

impl FromSpecImpl<&Bufferfish> for bytes::Bytes {
    open spec fn obeys_from_spec() -> bool {
        false
    }

    open spec fn from_spec(buffer: &Bufferfish) -> bytes::Bytes {
        arbitrary()
    }
}

} // verus!
