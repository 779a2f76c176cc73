//! A source of bytes that has none.

use vstd::prelude::*;

verus! {

/// A reader that is always at the end of its stream.
#[derive(Debug)]
pub struct Empty {
    _priv: (),
}

/// Makes a reader that is always at the end of its stream.
pub fn empty() -> Empty {
    Empty { _priv: () }
}

impl Empty {
    /// Reads nothing: the number of bytes read is zero, whatever the size
    /// of the buffer, and the buffer is left as it is.
    pub fn read(&mut self, buf: &mut [u8]) -> (n: usize)
        ensures
            n == 0,
            final(buf)@ == old(buf)@,
    {
        0
    }
}

} // verus!
