//! The byte buffer of a file.

use vstd::prelude::*;
use crate::error::FsError;

verus! {

/// The greatest length a buffer can have.
pub open spec fn max_len() -> int {
    isize::MAX as int
}

/// What a read of at most `size` bytes at `offset` yields from `bytes`:
/// the bytes from `offset` on, as many as there are up to `size`.
pub open spec fn read_span(bytes: Seq<u8>, offset: int, size: int) -> Seq<u8>
    recommends
        0 <= offset <= bytes.len(),
        0 <= size,
{
    let count = if bytes.len() - offset < size {
        bytes.len() - offset
    } else {
        size
    };
    bytes.subrange(offset, offset + count)
}

/// The buffer after `data` has been written at `offset`: `data` stands at
/// `offset`, the old bytes stand everywhere else, and where the buffer had to
/// grow to reach `offset` the gap holds zeros.
pub open spec fn written(bytes: Seq<u8>, offset: int, data: Seq<u8>) -> Seq<u8>
    recommends
        0 <= offset,
{
    let end = offset + data.len();
    let len = if end > bytes.len() {
        end
    } else {
        bytes.len() as int
    };
    Seq::new(
        len as nat,
        |i: int|
            if offset <= i < end {
                data[i - offset]
            } else if i < bytes.len() {
                bytes[i]
            } else {
                0u8
            },
    )
}

/// The buffer after a truncation to `new_size`: the bytes at or beyond
/// `new_size` are gone, and a buffer that is shorter already stays as it is.
pub open spec fn truncated(bytes: Seq<u8>, new_size: int) -> Seq<u8>
    recommends
        0 <= new_size,
{
    if new_size < bytes.len() {
        bytes.take(new_size)
    } else {
        bytes
    }
}

/// A file: an owned, growable byte buffer.
pub struct File {
    bytes: Vec<u8>,
}

impl View for File {
    type V = Seq<u8>;

    closed spec fn view(&self) -> Seq<u8> {
        self.bytes@
    }
}

impl File {
    /// An empty file.
    pub fn new() -> (file: File)
        ensures
            file@ == Seq::<u8>::empty(),
    {
        File { bytes: Vec::new() }
    }

    /// A file that holds `bytes`.
    pub fn from_bytes(bytes: Vec<u8>) -> (file: File)
        ensures
            file@ == bytes@,
    {
        File { bytes }
    }

    /// The number of bytes in the file.
    pub fn size(&self) -> (n: u64)
        ensures
            n == self@.len(),
    {
        self.bytes.len() as u64
    }

    /// Reads at most `size` bytes at `offset`. An offset beyond the end of the
    /// file is refused; one at the end yields no bytes.
    pub fn read(&self, offset: u64, size: u32) -> (r: Result<&[u8], FsError>)
        ensures
            match r {
                Ok(span) => offset <= self@.len() && span@ == read_span(
                    self@,
                    offset as int,
                    size as int,
                ),
                Err(e) => e == FsError::InvalidOffset && offset > self@.len(),
            },
    {
        let len: usize = self.bytes.len();
        if offset > len as u64 {
            return Err(FsError::InvalidOffset);
        }
        let start: usize = offset as usize;
        let rest: usize = len - start;
        let count: usize = if rest < size as usize {
            rest
        } else {
            size as usize
        };
        Ok(vstd::slice::slice_subrange(self.bytes.as_slice(), start, start + count))
    }

    /// Writes `data` at `offset` and returns the number of bytes written,
    /// which is all of them. The buffer grows as far as the write reaches, and
    /// what lies between its old end and `offset` is filled with zeros. A
    /// write that would end beyond the greatest length a buffer can have is
    /// refused and changes nothing.
    pub fn write(&mut self, offset: u64, data: &[u8]) -> (r: Result<usize, FsError>)
        ensures
            match r {
                Ok(n) => {
                    &&& offset + data@.len() <= max_len()
                    &&& n == data@.len()
                    &&& final(self)@ == written(old(self)@, offset as int, data@)
                },
                Err(e) => {
                    &&& e == FsError::InvalidOffset
                    &&& offset + data@.len() > max_len()
                    &&& final(self)@ == old(self)@
                },
            },
    {
        let limit: usize = isize::MAX as usize;
        if offset > limit as u64 {
            return Err(FsError::InvalidOffset);
        }
        let start: usize = offset as usize;
        if data.len() > limit - start {
            return Err(FsError::InvalidOffset);
        }
        let end: usize = start + data.len();
        if end > self.bytes.len() {
            self.bytes.resize(end, 0u8);
        }
        let ghost grown = self.bytes@;
        let mut i: usize = 0;
        while i < data.len()
            invariant
                i <= data@.len(),
                end == start + data@.len(),
                self.bytes@.len() == grown.len(),
                end <= grown.len(),
                forall|j: int|
                    0 <= j < grown.len() ==> self.bytes@[j] == (if start <= j < start + i {
                        data@[j - start]
                    } else {
                        grown[j]
                    }),
            decreases data@.len() - i,
        {
            self.bytes[start + i] = data[i];
            i += 1;
        }
        assert(self.bytes@ =~= written(old(self)@, offset as int, data@));
        Ok(data.len())
    }

    /// Drops the bytes at or beyond `new_size`. A file that is no longer than
    /// `new_size` stays as it is.
    pub fn truncate(&mut self, new_size: u64)
        ensures
            final(self)@ == truncated(old(self)@, new_size as int),
    {
        if new_size < self.bytes.len() as u64 {
            self.bytes.truncate(new_size as usize);
        }
    }
}

} // verus!
