use vstd::prelude::*;

verus! {

/// Where a file transfer stands: the position of the next read or write, and
/// the position at which the transfer is complete and the file is let go.
pub struct FileCursor {
    pub offset: u64,
    pub end: u64,
}

impl FileCursor {
    /// A transfer at position 0 that is complete at position 0.
    pub fn new() -> (r: FileCursor)
        ensures
            r.offset == 0,
            r.end == 0,
    {
        FileCursor { offset: 0, end: 0 }
    }

    /// How many bytes are left before the end position.
    pub fn remaining(&self) -> (r: u64)
        requires
            self.offset <= self.end,
        ensures
            r == self.end - self.offset,
    {
        self.end - self.offset
    }

    /// Moves past `size` bytes just read; returns whether the end position is
    /// now reached exactly, in which case the file is to be closed.
    pub fn advance_read(&mut self, size: usize) -> (close: bool)
        requires
            old(self).offset + size <= u64::MAX,
        ensures
            final(self).offset == old(self).offset + size,
            final(self).end == old(self).end,
            close == (final(self).offset == final(self).end),
    {
        self.offset = self.offset + size as u64;
        self.offset == self.end
    }

    /// Moves past `size` bytes just written; returns whether the end position
    /// is now reached or passed, in which case the file is to be closed.
    pub fn advance_write(&mut self, size: usize) -> (close: bool)
        requires
            old(self).offset + size <= u64::MAX,
        ensures
            final(self).offset == old(self).offset + size,
            final(self).end == old(self).end,
            close == (final(self).offset >= final(self).end),
    {
        self.offset = self.offset + size as u64;
        if self.offset < self.end {
            false
        } else {
            true
        }
    }
}

} // verus!
