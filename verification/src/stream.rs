//! Byte streams held in memory.

use crate::error::{ClientError, ClientResult, IoErrorKind};
use vstd::prelude::*;
use vstd::slice::slice_subrange;

verus! {

/// A stream of bytes that is read from the front, such as the reply of a
/// server or the body of a request. Its view is what is still unread.
pub struct SliceReader<'a> {
    rest: &'a [u8],
}

impl<'a> View for SliceReader<'a> {
    type V = Seq<u8>;

    closed spec fn view(&self) -> Seq<u8> {
        self.rest@
    }
}

impl<'a> SliceReader<'a> {
    /// A reader that has all of `data` before it.
    pub fn new(data: &'a [u8]) -> (reader: Self)
        ensures
            reader@ == data@,
    {
        SliceReader { rest: data }
    }

    /// The number of bytes that are still unread.
    pub fn len(&self) -> (n: usize)
        ensures
            n == self@.len(),
    {
        self.rest.len()
    }

    /// Whether the stream is at its end.
    pub fn is_empty(&self) -> (b: bool)
        ensures
            b == (self@.len() == 0),
    {
        self.rest.len() == 0
    }

    /// Reads the next chunk: `max` bytes, or all that is left if that is
    /// less. At the end of the stream the chunk is empty.
    pub fn read(&mut self, max: usize) -> (chunk: &'a [u8])
        ensures
            chunk@.len() == if old(self)@.len() <= max {
                old(self)@.len()
            } else {
                max as nat
            },
            chunk@ == old(self)@.take(chunk@.len() as int),
            final(self)@ == old(self)@.skip(chunk@.len() as int),
    {
        let rest = self.rest;
        let n = if rest.len() <= max {
            rest.len()
        } else {
            max
        };
        let chunk = slice_subrange(rest, 0, n);
        self.rest = slice_subrange(rest, n, rest.len());
        chunk
    }

    /// Reads exactly `n` bytes. Where fewer than `n` are left, the stream is
    /// drained and the read fails with `UnexpectedEof`.
    pub fn read_exact(&mut self, n: usize) -> (res: ClientResult<&'a [u8]>)
        ensures
            match res {
                Ok(chunk) => n <= old(self)@.len() && chunk@ == old(self)@.take(n as int)
                    && final(self)@ == old(self)@.skip(n as int),
                Err(e) => n > old(self)@.len() && e == (ClientError::Io {
                    kind: IoErrorKind::UnexpectedEof,
                }) && final(self)@.len() == 0,
            },
    {
        let rest = self.rest;
        if n <= rest.len() {
            let chunk = slice_subrange(rest, 0, n);
            self.rest = slice_subrange(rest, n, rest.len());
            Ok(chunk)
        } else {
            self.rest = slice_subrange(rest, rest.len(), rest.len());
            Err(ClientError::Io { kind: IoErrorKind::UnexpectedEof })
        }
    }
}

/// A connection held in memory: the octets that the peer sends, and the
/// octets that were sent to the peer.
#[derive(Debug, Clone)]
pub struct MemoryStream {
    /// What the peer sends.
    pub incoming: Vec<u8>,
    /// How many octets of `incoming` have been read.
    pub position: usize,
    /// What has been sent to the peer.
    pub outgoing: Vec<u8>,
}

impl MemoryStream {
    /// What the peer has sent and has not been read yet.
    pub open spec fn unread(&self) -> Seq<u8> {
        if self.position <= self.incoming@.len() {
            self.incoming@.skip(self.position as int)
        } else {
            Seq::empty()
        }
    }

    /// A connection on which the peer sends `incoming`, and on which
    /// nothing has been read or sent yet.
    pub fn new(incoming: Vec<u8>) -> (stream: Self)
        ensures
            stream.unread() == incoming@,
            stream.outgoing@.len() == 0,
            stream.incoming == incoming,
            stream.position == 0,
    {
        let stream = MemoryStream { incoming, position: 0, outgoing: Vec::new() };
        assert(stream.unread() =~= incoming@);
        stream
    }

    /// A reader over what has not been read yet.
    pub fn reader(&self) -> (reader: SliceReader<'_>)
        ensures
            reader@ == self.unread(),
    {
        let len = self.incoming.len();
        let start = if self.position <= len {
            self.position
        } else {
            len
        };
        let reader = SliceReader::new(slice_subrange(self.incoming.as_slice(), start, len));
        assert(reader@ =~= self.unread());
        reader
    }

    /// Marks as read all but the last `left` octets of what is unread.
    /// Where fewer than `left` octets are unread, nothing changes.
    pub fn keep_unread(&mut self, left: usize)
        ensures
            final(self).unread() == if left <= old(self).unread().len() {
                old(self).unread().skip(old(self).unread().len() - left)
            } else {
                old(self).unread()
            },
            final(self).incoming == old(self).incoming,
            final(self).outgoing == old(self).outgoing,
    {
        let len = self.incoming.len();
        let start = if self.position <= len {
            self.position
        } else {
            len
        };
        if left <= len - start {
            self.position = len - left;
            assert(self.unread() =~= old(self).unread().skip(old(self).unread().len() - left));
        }
    }
}

} // verus!
