//! Seekable byte streams, the only thing a reader needs from its surroundings.

use vstd::prelude::*;
use vstd::slice::{slice_subrange, slice_to_vec};

verus! {

/// Whether a read of `len` bytes at offset `position` stays inside `content`.
///
/// A read of no bytes never runs past the end, wherever it starts.
pub open spec fn readable(content: Seq<u8>, position: int, len: int) -> bool {
    len == 0 || position + len <= content.len()
}

/// The `len` bytes of `content` that start at offset `position`.
pub open spec fn span(content: Seq<u8>, position: int, len: int) -> Seq<u8> {
    if len == 0 {
        Seq::empty()
    } else {
        content.subrange(position, position + len)
    }
}

/// A readable byte stream that can be repositioned to absolute offsets.
///
/// The stream is modelled by the bytes it holds, which no operation changes,
/// and by the offset at which the next read starts. A stream may fail for
/// reasons of its own, as a device does; one that never does so is `reliable`,
/// and of such a stream the readers of this crate say exactly what they return.
pub trait Source {
    /// The bytes of the stream, from its first to its last.
    spec fn content(&self) -> Seq<u8>;

    /// The offset at which the next read starts.
    spec fn position(&self) -> nat;

    /// Whether the stream fails only on reads that run past its end.
    spec fn reliable(&self) -> bool;

    /// Moves the stream to the absolute offset `offset`.
    fn seek(&mut self, offset: u64) -> (result: Result<(), std::io::Error>)
        ensures
            final(self).content() == old(self).content(),
            final(self).reliable() == old(self).reliable(),
            result is Ok ==> final(self).position() == offset,
            old(self).reliable() ==> result is Ok,
    ;

    /// Reads exactly `len` bytes at the current offset and moves past them.
    fn read_exact(&mut self, len: usize) -> (result: Result<Vec<u8>, std::io::Error>)
        ensures
            final(self).content() == old(self).content(),
            final(self).reliable() == old(self).reliable(),
            result matches Ok(bytes) ==> {
                &&& readable(old(self).content(), old(self).position() as int, len as int)
                &&& bytes@ == span(old(self).content(), old(self).position() as int, len as int)
                &&& final(self).position() == old(self).position() + len
            },
            old(self).reliable() ==> (result is Ok <==> readable(
                old(self).content(),
                old(self).position() as int,
                len as int,
            )),
    ;
}

/// The error that a read past the end of a stream gives.
///
/// Calls `std::io::Error::from` on `std::io::ErrorKind::UnexpectedEof`. Nothing
/// is claimed of the error that comes back.
#[verifier::external_body]
pub(crate) fn unexpected_eof() -> std::io::Error {
    std::io::Error::from(std::io::ErrorKind::UnexpectedEof)
}

/// A stream over bytes held in memory.
#[derive(Debug)]
pub struct MemorySource {
    data: Vec<u8>,
    position: u64,
}

impl MemorySource {
    /// Creates a stream over `data`, positioned at its first byte.
    pub fn new(data: Vec<u8>) -> (source: MemorySource)
        ensures
            source.content() == data@,
            source.position() == 0,
            source.reliable(),
    {
        MemorySource { data, position: 0 }
    }

    /// Returns the offset at which the next read starts.
    pub fn stream_position(&self) -> (position: u64)
        ensures
            position == self.position(),
    {
        self.position
    }

    /// Gives back the bytes of the stream.
    pub fn into_inner(self) -> (data: Vec<u8>)
        ensures
            data@ == self.content(),
    {
        self.data
    }
}

impl Source for MemorySource {
    closed spec fn content(&self) -> Seq<u8> {
        self.data@
    }

    closed spec fn position(&self) -> nat {
        self.position as nat
    }

    open spec fn reliable(&self) -> bool {
        true
    }

    fn seek(&mut self, offset: u64) -> (result: Result<(), std::io::Error>) {
        self.position = offset;
        Ok(())
    }

    fn read_exact(&mut self, len: usize) -> (result: Result<Vec<u8>, std::io::Error>) {
        if len == 0 {
            return Ok(Vec::new());
        }
        let size = self.data.len();
        if self.position > size as u64 {
            return Err(unexpected_eof());
        }
        let start = self.position as usize;
        if len > size - start {
            return Err(unexpected_eof());
        }
        let bytes = slice_to_vec(slice_subrange(self.data.as_slice(), start, start + len));
        self.position = self.position + len as u64;
        Ok(bytes)
    }
}

} // verus!
