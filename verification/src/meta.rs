//! Records of the FastCGI protocol: headers, record bodies and their wire
//! format.

use crate::error::{ClientError, ClientResult, IoErrorKind};
use crate::params::Params;
use crate::stream::SliceReader;
use vstd::prelude::*;
use vstd::slice::{slice_subrange, slice_to_vec};
use vstd::utf8::{decode_utf8, encode_utf8, encode_utf8_decode_utf8};

verus! {

/// The protocol version carried by every record header.
pub const VERSION_1: u8 = 1;

/// The largest content a single record can carry.
pub const MAX_LENGTH: usize = 0xffff;

/// The number of octets of a record header.
pub const HEADER_LEN: usize = 8;

/// The kind of a record, as tagged in the second octet of its header.
#[derive(Debug, Clone, Copy, PartialEq, Eq, Structural)]
pub enum RequestType {
    /// Opens a request.
    BeginRequest,
    /// Aborts a request.
    AbortRequest,
    /// Closes a request and carries its status.
    EndRequest,
    /// A chunk of the name-value parameter stream.
    Params,
    /// A chunk of the request body.
    Stdin,
    /// A chunk of the response's standard output.
    Stdout,
    /// A chunk of the response's standard error.
    Stderr,
    /// A chunk of the extra data stream used by filters.
    Data,
    /// A query for server variables.
    GetValues,
    /// The answer to a query for server variables.
    GetValuesResult,
    /// Any tag that the protocol does not define.
    UnknownType,
}

impl RequestType {
    /// The tag that stands for this record type on the wire.
    pub open spec fn code(self) -> u8 {
        match self {
            RequestType::BeginRequest => 1,
            RequestType::AbortRequest => 2,
            RequestType::EndRequest => 3,
            RequestType::Params => 4,
            RequestType::Stdin => 5,
            RequestType::Stdout => 6,
            RequestType::Stderr => 7,
            RequestType::Data => 8,
            RequestType::GetValues => 9,
            RequestType::GetValuesResult => 10,
            RequestType::UnknownType => 11,
        }
    }

    /// The record type that a tag read from the wire stands for. Tags outside
    /// `1..=10` all stand for `UnknownType`.
    pub open spec fn of_code(u: u8) -> RequestType {
        if u == 1 {
            RequestType::BeginRequest
        } else if u == 2 {
            RequestType::AbortRequest
        } else if u == 3 {
            RequestType::EndRequest
        } else if u == 4 {
            RequestType::Params
        } else if u == 5 {
            RequestType::Stdin
        } else if u == 6 {
            RequestType::Stdout
        } else if u == 7 {
            RequestType::Stderr
        } else if u == 8 {
            RequestType::Data
        } else if u == 9 {
            RequestType::GetValues
        } else if u == 10 {
            RequestType::GetValuesResult
        } else {
            RequestType::UnknownType
        }
    }

    /// Decodes a tag read from the wire. Never fails: an undefined tag is
    /// `UnknownType`.
    pub fn from_u8(u: u8) -> (t: Self)
        ensures
            t == Self::of_code(u),
    {
        match u {
            1 => RequestType::BeginRequest,
            2 => RequestType::AbortRequest,
            3 => RequestType::EndRequest,
            4 => RequestType::Params,
            5 => RequestType::Stdin,
            6 => RequestType::Stdout,
            7 => RequestType::Stderr,
            8 => RequestType::Data,
            9 => RequestType::GetValues,
            10 => RequestType::GetValuesResult,
            _ => RequestType::UnknownType,
        }
    }

    /// The tag written to the wire for this record type.
    pub fn to_u8(self) -> (u: u8)
        ensures
            u == self.code(),
            1 <= u <= 11,
    {
        match self {
            RequestType::BeginRequest => 1,
            RequestType::AbortRequest => 2,
            RequestType::EndRequest => 3,
            RequestType::Params => 4,
            RequestType::Stdin => 5,
            RequestType::Stdout => 6,
            RequestType::Stderr => 7,
            RequestType::Data => 8,
            RequestType::GetValues => 9,
            RequestType::GetValuesResult => 10,
            RequestType::UnknownType => 11,
        }
    }
}

/// The two octets of `x`, most significant first.
pub open spec fn be_u16(x: u16) -> Seq<u8> {
    seq![(x / 256) as u8, (x % 256) as u8]
}

/// The four octets of `x`, most significant first.
pub open spec fn be_u32(x: u32) -> Seq<u8> {
    seq![
        (x / 0x100_0000) as u8,
        (x / 0x1_0000 % 256) as u8,
        (x / 0x100 % 256) as u8,
        (x % 256) as u8,
    ]
}

/// The number whose two octets, most significant first, are `hi` and `lo`.
pub open spec fn u16_of_be(hi: u8, lo: u8) -> u16 {
    (hi * 256 + lo) as u16
}

/// The number whose four octets, most significant first, are `b0` to `b3`.
pub open spec fn u32_of_be(b0: u8, b1: u8, b2: u8, b3: u8) -> u32 {
    (b0 * 0x100_0000 + b1 * 0x1_0000 + b2 * 0x100 + b3) as u32
}

/// The number of zero octets that follow `len` octets of content, so that
/// content and padding together fill a multiple of eight octets.
pub open spec fn padding_for(len: int) -> int {
    (8 - len % 8) % 8
}

/// A sequence of `n` zero octets.
pub open spec fn zeros(n: nat) -> Seq<u8> {
    Seq::new(n, |i: int| 0u8)
}

/// Appends the two octets of `value`, most significant first.
pub fn write_u16(buf: &mut Vec<u8>, value: u16)
    ensures
        final(buf)@ == old(buf)@ + be_u16(value),
{
    buf.push((value / 256) as u8);
    buf.push((value % 256) as u8);
    assert(buf@ =~= old(buf)@ + be_u16(value));
}

/// Appends the four octets of `value`, most significant first.
pub fn write_u32(buf: &mut Vec<u8>, value: u32)
    ensures
        final(buf)@ == old(buf)@ + be_u32(value),
{
    buf.push((value / 0x100_0000) as u8);
    buf.push((value / 0x1_0000 % 256) as u8);
    buf.push((value / 0x100 % 256) as u8);
    buf.push((value % 256) as u8);
    assert(buf@ =~= old(buf)@ + be_u32(value));
}

/// Reads a number from its two octets, most significant first.
pub fn be_buf_to_u16(buf: &[u8]) -> (x: u16)
    requires
        buf@.len() == 2,
    ensures
        x == u16_of_be(buf@[0], buf@[1]),
{
    (buf[0] as u16) * 256 + (buf[1] as u16)
}

/// Reads a number from its four octets, most significant first.
pub fn be_buf_to_u32(buf: &[u8]) -> (x: u32)
    requires
        buf@.len() == 4,
    ensures
        x == u32_of_be(buf@[0], buf@[1], buf@[2], buf@[3]),
{
    (buf[0] as u32) * 0x100_0000 + (buf[1] as u32) * 0x1_0000 + (buf[2] as u32) * 0x100 + (
    buf[3] as u32)
}

/// Reading back the octets of a number gives the number.
pub proof fn lemma_be_u16_round_trip(x: u16)
    ensures
        be_u16(x).len() == 2,
        u16_of_be(be_u16(x)[0], be_u16(x)[1]) == x,
{
}

/// Reading back the octets of a number gives the number.
pub proof fn lemma_be_u32_round_trip(x: u32)
    ensures
        be_u32(x).len() == 4,
        u32_of_be(be_u32(x)[0], be_u32(x)[1], be_u32(x)[2], be_u32(x)[3]) == x,
{
}

/// The header that starts every record.
#[derive(Debug, Clone, Copy, PartialEq, Eq, Structural)]
pub struct Header {
    /// The protocol version.
    pub version: u8,
    /// The kind of the record.
    pub request_type: RequestType,
    /// The request that the record belongs to.
    pub request_id: u16,
    /// The number of content octets that follow the header.
    pub content_length: u16,
    /// The number of padding octets that follow the content.
    pub padding_length: u8,
    /// Reserved by the protocol.
    pub reserved: u8,
}

impl Header {
    /// The header of a record of the given type and request that carries
    /// `len` octets of content, or the first 65535 of them if there are more.
    pub open spec fn spec_new(request_type: RequestType, request_id: u16, len: nat) -> Header {
        let content_length = if len <= 0xffff {
            len as int
        } else {
            0xffff
        };
        Header {
            version: VERSION_1,
            request_type,
            request_id,
            content_length: content_length as u16,
            padding_length: padding_for(content_length) as u8,
            reserved: 0,
        }
    }

    /// Content and padding together fill a multiple of eight octets, with
    /// no more padding than that takes.
    pub open spec fn is_aligned(self) -> bool {
        self.padding_length == padding_for(self.content_length as int)
    }

    /// The eight octets of the header on the wire.
    pub open spec fn bytes(self) -> Seq<u8> {
        seq![self.version, self.request_type.code()] + be_u16(self.request_id) + be_u16(
            self.content_length,
        ) + seq![self.padding_length, self.reserved]
    }

    /// The header that eight octets from the wire stand for.
    pub open spec fn of_bytes(buf: Seq<u8>) -> Header {
        Header {
            version: buf[0],
            request_type: RequestType::of_code(buf[1]),
            request_id: u16_of_be(buf[2], buf[3]),
            content_length: u16_of_be(buf[4], buf[5]),
            padding_length: buf[6],
            reserved: buf[7],
        }
    }

    /// The header at the front of a stream, if the stream holds the eight
    /// octets of one.
    pub open spec fn spec_from_stream(stream: Seq<u8>) -> Option<Header> {
        if stream.len() >= HEADER_LEN {
            Some(Self::of_bytes(stream.take(HEADER_LEN as int)))
        } else {
            None
        }
    }

    /// The number of content and padding octets that follow this header.
    pub open spec fn body_len(self) -> nat {
        (self.content_length + self.padding_length) as nat
    }

    /// The whole record on the wire: the header, the content, and as many
    /// zero octets as the header announces as padding.
    pub open spec fn record(self, content: Seq<u8>) -> Seq<u8> {
        self.bytes() + content + zeros(self.padding_length as nat)
    }

    /// The records that carry a stream of content: one record for each
    /// chunk of at most 65535 octets, in order, and then one empty record
    /// that ends the stream. An empty stream is that one empty record.
    pub open spec fn batches(request_type: RequestType, request_id: u16, content: Seq<u8>) -> Seq<
        u8,
    >
        decreases content.len(),
    {
        if content.len() == 0 {
            Self::spec_new(request_type, request_id, 0).record(content)
        } else {
            let n = if content.len() <= 0xffff {
                content.len() as int
            } else {
                0xffff
            };
            Self::spec_new(request_type, request_id, n as nat).record(content.take(n))
                + Self::batches(request_type, request_id, content.skip(n))
        }
    }

    /// Builds the header for a record that carries `content`. A content of
    /// more than 65535 octets is announced as 65535.
    pub fn new(request_type: RequestType, request_id: u16, content: &[u8]) -> (header: Self)
        ensures
            header == Self::spec_new(request_type, request_id, content@.len()),
            header.is_aligned(),
            (header.content_length + header.padding_length) % 8 == 0,
    {
        let content_length: u16 = if content.len() <= MAX_LENGTH {
            content.len() as u16
        } else {
            0xffff
        };
        let padding_length: u8 = ((8 - content_length % 8) % 8) as u8;
        Header {
            version: VERSION_1,
            request_type,
            request_id,
            content_length,
            padding_length,
            reserved: 0,
        }
    }

    /// The eight octets of the header, as they go on the wire.
    pub fn to_bytes(&self) -> (buf: [u8; 8])
        ensures
            buf@ == self.bytes(),
    {
        let buf: [u8; 8] = [
            self.version,
            self.request_type.to_u8(),
            (self.request_id / 256) as u8,
            (self.request_id % 256) as u8,
            (self.content_length / 256) as u8,
            (self.content_length % 256) as u8,
            self.padding_length,
            self.reserved,
        ];
        assert(buf@ =~= self.bytes());
        buf
    }

    /// Decodes a header from its eight octets. Never fails: an undefined
    /// type tag decodes to `UnknownType`.
    pub fn new_from_buf(buf: &[u8; 8]) -> (header: Self)
        ensures
            header == Self::of_bytes(buf@),
    {
        Header {
            version: buf[0],
            request_type: RequestType::from_u8(buf[1]),
            request_id: (buf[2] as u16) * 256 + (buf[3] as u16),
            content_length: (buf[4] as u16) * 256 + (buf[5] as u16),
            padding_length: buf[6],
            reserved: buf[7],
        }
    }

    /// Appends one record to `writer`: this header, then `content`, then
    /// as many zero octets as the header announces as padding.
    pub fn write_to_stream(self, writer: &mut Vec<u8>, content: &[u8])
        ensures
            final(writer)@ == old(writer)@ + self.record(content@),
    {
        let head = self.to_bytes();
        writer.extend_from_slice(&head);
        writer.extend_from_slice(content);
        let mut i: u8 = 0;
        while i < self.padding_length
            invariant
                i <= self.padding_length,
                writer@ == old(writer)@ + self.bytes() + content@ + zeros(i as nat),
            decreases self.padding_length - i,
        {
            writer.push(0);
            i = i + 1;
            assert(zeros(i as nat) =~= zeros((i - 1) as nat).push(0u8));
        }
        assert(writer@ =~= old(writer)@ + self.record(content@));
    }

    /// Appends the record for one chunk of a stream, and says whether the
    /// stream goes on: an empty chunk is the record that ends it. A chunk
    /// must not be longer than 65535 octets: the header cannot announce
    /// more, though the whole chunk would be written after it.
    pub fn write_batch(
        request_type: RequestType,
        request_id: u16,
        writer: &mut Vec<u8>,
        chunk: &[u8],
    ) -> (more: bool)
        ensures
            final(writer)@ == old(writer)@ + Self::spec_new(
                request_type,
                request_id,
                chunk@.len(),
            ).record(chunk@),
            more == (chunk@.len() > 0),
    {
        Self::new(request_type, request_id, chunk).write_to_stream(writer, chunk);
        chunk.len() > 0
    }

    /// Appends a whole stream of content as records: one record for each
    /// chunk of at most 65535 octets, then the empty record that ends the
    /// stream. An empty content gives exactly one empty record.
    pub fn write_to_stream_batches(
        request_type: RequestType,
        request_id: u16,
        writer: &mut Vec<u8>,
        content: &mut SliceReader,
    )
        ensures
            final(writer)@ == old(writer)@ + Self::batches(request_type, request_id, old(content)@),
            final(content)@.len() == 0,
    {
        let mut more = true;
        while more
            invariant
                !more ==> content@.len() == 0,
                writer@ + (if more {
                    Self::batches(request_type, request_id, content@)
                } else {
                    Seq::<u8>::empty()
                }) == old(writer)@ + Self::batches(request_type, request_id, old(content)@),
            decreases content@.len() + if more { 1nat } else { 0nat },
        {
            let ghost before = writer@;
            let ghost unread = content@;
            let chunk = content.read(MAX_LENGTH);
            more = Self::write_batch(request_type, request_id, writer, chunk);
            proof {
                let record = Self::spec_new(request_type, request_id, chunk@.len()).record(
                    chunk@,
                );
                if more {
                    assert(before + (record + Self::batches(request_type, request_id, content@))
                        =~= writer@ + Self::batches(request_type, request_id, content@));
                } else {
                    assert(chunk@ =~= unread);
                    assert(before + record =~= writer@ + Seq::<u8>::empty());
                }
            }
        }
        assert(writer@ + Seq::<u8>::empty() =~= writer@);
    }

    /// Reads the header of the next record. Fails with `UnexpectedEof`
    /// where the stream has fewer than eight octets left.
    pub fn new_from_stream(reader: &mut SliceReader) -> (res: ClientResult<Self>)
        ensures
            match res {
                Ok(header) => Self::spec_from_stream(old(reader)@) == Some(header)
                    && final(reader)@ == old(reader)@.skip(HEADER_LEN as int),
                Err(e) => Self::spec_from_stream(old(reader)@) is None && e == (ClientError::Io {
                    kind: IoErrorKind::UnexpectedEof,
                }) && final(reader)@.len() == 0,
            },
    {
        match reader.read_exact(HEADER_LEN) {
            Ok(s) => {
                let buf: [u8; 8] = [s[0], s[1], s[2], s[3], s[4], s[5], s[6], s[7]];
                assert(buf@ =~= old(reader)@.take(HEADER_LEN as int));
                Ok(Self::new_from_buf(&buf))
            },
            Err(e) => Err(e),
        }
    }

    /// Reads the content that this header announces, and skips the padding
    /// after it. Fails with `UnexpectedEof` where the stream ends before the
    /// last padding octet.
    pub fn read_content_from_stream(&self, reader: &mut SliceReader) -> (res: ClientResult<
        Vec<u8>,
    >)
        ensures
            match res {
                Ok(content) => self.body_len() <= old(reader)@.len() && content@ == old(
                    reader,
                )@.take(self.content_length as int) && final(reader)@ == old(reader)@.skip(
                    self.body_len() as int,
                ),
                Err(e) => self.body_len() > old(reader)@.len() && e == (ClientError::Io {
                    kind: IoErrorKind::UnexpectedEof,
                }) && final(reader)@.len() == 0,
            },
    {
        let content = match reader.read_exact(self.content_length as usize) {
            Ok(s) => slice_to_vec(s),
            Err(e) => {
                return Err(e);
            },
        };
        match reader.read_exact(self.padding_length as usize) {
            Ok(_) => {
                assert(old(reader)@.skip(self.content_length as int).skip(
                    self.padding_length as int,
                ) =~= old(reader)@.skip(self.body_len() as int));
                Ok(content)
            },
            Err(e) => Err(e),
        }
    }
}

/// The record at the front of a stream: its header, its content, and what
/// follows the record. There is none where the stream ends before the
/// record does.
#[verifier::opaque]
pub open spec fn first_record(stream: Seq<u8>) -> Option<(Header, Seq<u8>, Seq<u8>)> {
    match Header::spec_from_stream(stream) {
        Some(header) => {
            let body = stream.skip(HEADER_LEN as int);
            if header.body_len() <= body.len() {
                Some(
                    (
                        header,
                        body.take(header.content_length as int),
                        body.skip(header.body_len() as int),
                    ),
                )
            } else {
                None
            }
        },
        None => None,
    }
}

/// Decoding the octets of a header gives the header back.
pub proof fn lemma_header_round_trip(header: Header)
    ensures
        header.bytes().len() == HEADER_LEN,
        Header::of_bytes(header.bytes()) == header,
{
}

/// A record that is written and read back is unchanged: for any record
/// type, request id and content of at most 65535 octets, the stream that
/// starts with the record decodes to the record's header and content and
/// leaves what follows the record; and content and padding together fill a
/// multiple of eight octets.
pub proof fn lemma_record_round_trip(
    request_type: RequestType,
    request_id: u16,
    content: Seq<u8>,
    rest: Seq<u8>,
)
    requires
        content.len() <= MAX_LENGTH,
    ensures
        ({
            let header = Header::spec_new(request_type, request_id, content.len());
            &&& first_record(header.record(content) + rest) == Some((header, content, rest))
            &&& header.content_length == content.len()
            &&& (header.content_length + header.padding_length) % 8 == 0
        }),
{
    reveal(first_record);
    let header = Header::spec_new(request_type, request_id, content.len());
    let stream = header.record(content) + rest;
    lemma_header_round_trip(header);
    assert(stream.take(HEADER_LEN as int) =~= header.bytes());
    let body = stream.skip(HEADER_LEN as int);
    assert(body =~= content + zeros(header.padding_length as nat) + rest);
    assert(body.take(header.content_length as int) =~= content);
    assert(body.skip(header.body_len() as int) =~= rest);
}

/// The content of the stream of records at the front of `stream`, and what
/// follows the stream of records: the contents of the records up to the
/// first empty one, joined in order. There is none where `stream` ends
/// before an empty record.
pub open spec fn stream_content(stream: Seq<u8>) -> Option<(Seq<u8>, Seq<u8>)>
    decreases stream.len(),
{
    match first_record(stream) {
        None => None,
        Some((header, content, rest)) => if content.len() == 0 {
            Some((Seq::empty(), rest))
        } else {
            proof {
                reveal(first_record);
            }
            match stream_content(rest) {
                None => None,
                Some((more, after)) => Some((content + more, after)),
            }
        },
    }
}

/// A stream of content that is sent as records arrives whole: whatever the
/// length of the content, the records that carry it hold it in order and
/// end with the first empty record. A stream without content is exactly
/// that one empty record of eight octets.
pub proof fn lemma_batches_round_trip(
    request_type: RequestType,
    request_id: u16,
    content: Seq<u8>,
    rest: Seq<u8>,
)
    ensures
        stream_content(Header::batches(request_type, request_id, content) + rest) == Some(
            (content, rest),
        ),
        content.len() == 0 ==> Header::batches(request_type, request_id, content)
            == Header::spec_new(request_type, request_id, 0).bytes(),
        Header::spec_new(request_type, request_id, 0).bytes().len() == HEADER_LEN,
    decreases content.len(),
{
    let stream = Header::batches(request_type, request_id, content) + rest;
    if content.len() == 0 {
        let header = Header::spec_new(request_type, request_id, 0);
        lemma_record_round_trip(request_type, request_id, content, rest);
        assert(header.record(content) =~= header.bytes());
        assert(content =~= Seq::<u8>::empty());
    } else {
        let n = if content.len() <= MAX_LENGTH {
            content.len() as int
        } else {
            MAX_LENGTH as int
        };
        let chunk = content.take(n);
        let later = content.skip(n);
        let tail = Header::batches(request_type, request_id, later) + rest;
        assert(stream =~= Header::spec_new(request_type, request_id, chunk.len()).record(chunk)
            + tail);
        lemma_record_round_trip(request_type, request_id, chunk, tail);
        lemma_batches_round_trip(request_type, request_id, later, rest);
        assert(chunk + later =~= content);
    }
}

/// The records that carry a stream of content that arrives in chunks: one
/// record for each chunk, in order, and then the empty record that ends the
/// stream.
pub open spec fn chunk_records(request_type: RequestType, request_id: u16, chunks: Seq<Seq<u8>>) -> Seq<
    u8,
>
    decreases chunks.len(),
{
    if chunks.len() == 0 {
        Header::spec_new(request_type, request_id, 0).record(Seq::empty())
    } else {
        Header::spec_new(request_type, request_id, chunks[0].len()).record(chunks[0])
            + chunk_records(request_type, request_id, chunks.drop_first())
    }
}

/// The chunks joined in order.
pub open spec fn joined(chunks: Seq<Seq<u8>>) -> Seq<u8>
    decreases chunks.len(),
{
    if chunks.len() == 0 {
        Seq::empty()
    } else {
        chunks[0] + joined(chunks.drop_first())
    }
}

/// A stream of content arrives whole however it is cut into chunks: where
/// each chunk has at least one octet and at most 65535, the records of the
/// chunks, followed by the empty record, hold the chunks joined in order.
pub proof fn lemma_chunks_round_trip(
    request_type: RequestType,
    request_id: u16,
    chunks: Seq<Seq<u8>>,
    rest: Seq<u8>,
)
    requires
        forall|i: int| 0 <= i < chunks.len() ==> 0 < (#[trigger] chunks[i]).len() <= MAX_LENGTH,
    ensures
        stream_content(chunk_records(request_type, request_id, chunks) + rest) == Some(
            (joined(chunks), rest),
        ),
    decreases chunks.len(),
{
    let stream = chunk_records(request_type, request_id, chunks) + rest;
    if chunks.len() == 0 {
        lemma_record_round_trip(request_type, request_id, Seq::empty(), rest);
    } else {
        let first = chunks[0];
        let others = chunks.drop_first();
        let tail = chunk_records(request_type, request_id, others) + rest;
        assert(stream =~= Header::spec_new(request_type, request_id, first.len()).record(first)
            + tail);
        lemma_record_round_trip(request_type, request_id, first, tail);
        assert forall|i: int| 0 <= i < others.len() implies 0 < (#[trigger] others[i]).len()
            <= MAX_LENGTH by {
            assert(others[i] == chunks[i + 1]);
        }
        lemma_chunks_round_trip(request_type, request_id, others, rest);
    }
}

/// The part that the application is asked to play in a request.
#[derive(Debug, Clone, Copy, PartialEq, Eq, Structural)]
pub enum Role {
    /// The application answers the request.
    Responder,
    /// The application decides whether the request is allowed.
    Authorizer,
    /// The application filters a stream of data.
    Filter,
}

impl Role {
    /// The code that stands for this role on the wire.
    pub open spec fn code(self) -> u16 {
        match self {
            Role::Responder => 1,
            Role::Authorizer => 2,
            Role::Filter => 3,
        }
    }

    /// The code written to the wire for this role.
    pub fn to_u16(self) -> (u: u16)
        ensures
            u == self.code(),
    {
        match self {
            Role::Responder => 1,
            Role::Authorizer => 2,
            Role::Filter => 3,
        }
    }
}

/// The body of the record that opens a request.
#[derive(Debug, Clone, Copy)]
pub struct BeginRequest {
    /// The role asked of the application.
    pub role: Role,
    /// Bit 0 asks the server to keep the connection open after the request.
    pub flags: u8,
    /// Reserved by the protocol.
    pub reserved: [u8; 5],
}

impl BeginRequest {
    /// The flags octet for a connection that is, or is not, kept alive.
    pub open spec fn flags_for(keep_alive: bool) -> u8 {
        if keep_alive {
            1
        } else {
            0
        }
    }

    /// The eight octets of the body on the wire.
    pub open spec fn content(self) -> Seq<u8> {
        be_u16(self.role.code()) + seq![self.flags] + self.reserved@
    }

    /// The body that asks for `role` and sets the keep-alive flag as given.
    pub fn new(role: Role, keep_alive: bool) -> (begin_request: Self)
        ensures
            begin_request.role == role,
            begin_request.flags == Self::flags_for(keep_alive),
            begin_request.reserved@ == zeros(5),
    {
        let reserved: [u8; 5] = [0, 0, 0, 0, 0];
        assert(reserved@ =~= zeros(5));
        Self {
            role,
            flags: if keep_alive {
                1
            } else {
                0
            },
            reserved,
        }
    }

    /// Encodes the body: the role in two octets, the flags, the reserved
    /// octets.
    pub fn to_content(&self) -> (buf: Vec<u8>)
        ensures
            buf@ == self.content(),
            buf@.len() == 8,
    {
        let mut buf: Vec<u8> = Vec::new();
        write_u16(&mut buf, self.role.to_u16());
        buf.push(self.flags);
        buf.extend_from_slice(&self.reserved);
        assert(buf@ =~= self.content());
        buf
    }
}

/// The record that opens a request: header, body, and the body's octets.
#[derive(Debug)]
pub struct BeginRequestRec {
    /// The header of the record.
    pub header: Header,
    /// The body of the record.
    pub begin_request: BeginRequest,
    /// The body as it goes on the wire.
    pub content: Vec<u8>,
}

impl BeginRequestRec {
    /// The octets of the record that opens request `request_id` for `role`.
    pub open spec fn bytes(request_id: u16, role: Role, keep_alive: bool) -> Seq<u8> {
        let content = be_u16(role.code()) + seq![BeginRequest::flags_for(keep_alive)] + zeros(5);
        Header::spec_new(RequestType::BeginRequest, request_id, 8).record(content)
    }

    /// The header and the content agree, and the content is the body's.
    pub open spec fn wf(&self) -> bool {
        &&& self.content@ == self.begin_request.content()
        &&& self.header == Header::spec_new(
            RequestType::BeginRequest,
            self.header.request_id,
            self.content@.len(),
        )
    }

    /// Builds the record that opens request `request_id`.
    pub fn new(request_id: u16, role: Role, keep_alive: bool) -> (rec: Self)
        ensures
            rec.wf(),
            rec.header.request_id == request_id,
            rec.begin_request.role == role,
            rec.begin_request.flags == BeginRequest::flags_for(keep_alive),
            rec.begin_request.reserved@ == zeros(5),
            rec.header.record(rec.content@) == Self::bytes(request_id, role, keep_alive),
    {
        let begin_request = BeginRequest::new(role, keep_alive);
        let content = begin_request.to_content();
        let header = Header::new(RequestType::BeginRequest, request_id, content.as_slice());
        Self { header, begin_request, content }
    }

    /// Appends the record to `writer`.
    pub fn write_to_stream(self, writer: &mut Vec<u8>)
        ensures
            final(writer)@ == old(writer)@ + self.header.record(self.content@),
    {
        self.header.write_to_stream(writer, self.content.as_slice());
    }
}

/// The length of a name or of a value, as it stands before the pair: one
/// octet for a length below 128, else four octets with the highest bit set.
#[derive(Debug, Clone, Copy, PartialEq, Eq, Structural)]
pub enum ParamLength {
    /// A length below 128.
    Short(u8),
    /// A length of 128 or more, with bit 31 set.
    Long(u32),
}

impl ParamLength {
    /// The encoding of `length`. The long form holds the lower 31 bits of
    /// the length, so it is exact for every length below 2^31.
    pub open spec fn spec_new(length: nat) -> ParamLength {
        if length < 128 {
            ParamLength::Short(length as u8)
        } else {
            ParamLength::Long((length % 0x8000_0000 + 0x8000_0000) as u32)
        }
    }

    /// The octets of the length on the wire.
    pub open spec fn bytes(self) -> Seq<u8> {
        match self {
            ParamLength::Short(l) => seq![l],
            ParamLength::Long(l) => be_u32(l),
        }
    }

    /// Chooses the short or the long form for `length`.
    pub fn new(length: usize) -> (param_length: Self)
        ensures
            param_length == Self::spec_new(length as nat),
    {
        if length < 128 {
            ParamLength::Short(length as u8)
        } else {
            ParamLength::Long((length % 0x8000_0000) as u32 + 0x8000_0000)
        }
    }

    /// Encodes the length: one octet, or four with the most significant
    /// first.
    pub fn content(self) -> (buf: Vec<u8>)
        ensures
            buf@ == self.bytes(),
    {
        let mut buf: Vec<u8> = Vec::new();
        match self {
            ParamLength::Short(l) => {
                buf.push(l);
            },
            ParamLength::Long(l) => {
                write_u32(&mut buf, l);
            },
        }
        assert(buf@ =~= self.bytes());
        buf
    }
}

/// The octets of one name-value pair: the two lengths, the name, the value.
pub open spec fn pair_content(name: Seq<u8>, value: Seq<u8>) -> Seq<u8> {
    ParamLength::spec_new(name.len()).bytes() + ParamLength::spec_new(value.len()).bytes() + name
        + value
}

/// The octets of a sequence of name-value pairs, one pair after the other.
pub open spec fn pairs_content(pairs: Seq<(Seq<u8>, Seq<u8>)>) -> Seq<u8>
    decreases pairs.len(),
{
    if pairs.len() == 0 {
        Seq::empty()
    } else {
        pair_content(pairs[0].0, pairs[0].1) + pairs_content(pairs.drop_first())
    }
}

/// The names and values of `pairs` as the octets of their UTF-8 encoding.
pub open spec fn utf8_pairs(pairs: Seq<(Seq<char>, Seq<char>)>) -> Seq<(Seq<u8>, Seq<u8>)> {
    Seq::new(pairs.len(), |i: int| (encode_utf8(pairs[i].0), encode_utf8(pairs[i].1)))
}

/// The content of a pair that follows other pairs follows their content.
pub proof fn lemma_pairs_content_push(pairs: Seq<(Seq<u8>, Seq<u8>)>, last: (Seq<u8>, Seq<u8>))
    ensures
        pairs_content(pairs.push(last)) == pairs_content(pairs) + pair_content(last.0, last.1),
    decreases pairs.len(),
{
    if pairs.len() == 0 {
        assert(pairs.push(last).drop_first() =~= pairs);
        assert(pairs_content(pairs.push(last)) =~= pairs_content(pairs) + pair_content(
            last.0,
            last.1,
        ));
    } else {
        assert(pairs.push(last).drop_first() =~= pairs.drop_first().push(last));
        lemma_pairs_content_push(pairs.drop_first(), last);
        assert(pairs_content(pairs.push(last)) =~= pairs_content(pairs) + pair_content(
            last.0,
            last.1,
        ));
    }
}

/// One name-value pair with the encoded lengths of its name and value.
#[derive(Debug)]
pub struct ParamPair {
    name_length: ParamLength,
    value_length: ParamLength,
    name_data: String,
    value_data: String,
}

impl ParamPair {
    /// The name of the pair.
    pub closed spec fn name(&self) -> Seq<char> {
        self.name_data@
    }

    /// The value of the pair.
    pub closed spec fn value(&self) -> Seq<char> {
        self.value_data@
    }

    /// The octets of the pair on the wire.
    pub open spec fn content(&self) -> Seq<u8> {
        pair_content(encode_utf8(self.name()), encode_utf8(self.value()))
    }

    /// The two encoded lengths are those of the name and of the value, in
    /// octets.
    #[verifier::type_invariant]
    spec fn lengths_match(&self) -> bool {
        &&& self.name_length == ParamLength::spec_new(encode_utf8(self.name_data@).len())
        &&& self.value_length == ParamLength::spec_new(encode_utf8(self.value_data@).len())
    }

    /// Pairs `name` with `value`, and encodes their lengths in octets.
    pub fn new(name: String, value: String) -> (pair: Self)
        ensures
            pair.name() == name@,
            pair.value() == value@,
    {
        let name_length = ParamLength::new(name.as_str().as_bytes().len());
        let value_length = ParamLength::new(value.as_str().as_bytes().len());
        Self { name_length, value_length, name_data: name, value_data: value }
    }

    /// Appends the pair to `writer`: the length of the name, the length of
    /// the value, the name, the value.
    pub fn write_to_stream(&self, writer: &mut Vec<u8>)
        ensures
            final(writer)@ == old(writer)@ + self.content(),
    {
        proof {
            use_type_invariant(self);
        }
        let name_length = self.name_length.content();
        let value_length = self.value_length.content();
        writer.extend_from_slice(name_length.as_slice());
        writer.extend_from_slice(value_length.as_slice());
        writer.extend_from_slice(self.name_data.as_str().as_bytes());
        writer.extend_from_slice(self.value_data.as_str().as_bytes());
        assert(writer@ =~= old(writer)@ + self.content());
    }
}

/// The name-value pairs of a request, in the order in which they are sent.
#[derive(Debug)]
pub struct ParamPairs(pub Vec<ParamPair>);

impl ParamPairs {
    /// The names and values, in order.
    pub open spec fn pairs(&self) -> Seq<(Seq<char>, Seq<char>)> {
        Seq::new(self.0@.len(), |i: int| (self.0@[i].name(), self.0@[i].value()))
    }

    /// The octets of all the pairs on the wire.
    pub open spec fn content(&self) -> Seq<u8> {
        pairs_content(utf8_pairs(self.pairs()))
    }

    /// Turns parameters into pairs with encoded lengths, keeping their
    /// order.
    pub fn new(params: Params) -> (param_pairs: Self)
        ensures
            param_pairs.pairs() == params.pairs(),
    {
        let entries = params.into_pairs();
        let ghost all = entries@;
        let mut param_pairs: Vec<ParamPair> = Vec::new();
        for entry in it: entries.into_iter()
            invariant
                it.seq() == all,
                param_pairs@.len() == it.index(),
                forall|i: int|
                    0 <= i < param_pairs@.len() ==> (#[trigger] param_pairs@[i]).name()
                        == all[i].0@ && param_pairs@[i].value() == all[i].1@,
        {
            let (name, value) = entry;
            param_pairs.push(ParamPair::new(name, value));
        }
        let res = ParamPairs(param_pairs);
        assert(res.pairs() =~= params.pairs());
        res
    }

    /// Encodes all the pairs, one after the other.
    pub fn to_content(&self) -> (buf: Vec<u8>)
        ensures
            buf@ == self.content(),
    {
        let mut buf: Vec<u8> = Vec::new();
        let ghost encoded = utf8_pairs(self.pairs());
        let mut i: usize = 0;
        while i < self.0.len()
            invariant
                i <= self.0@.len(),
                encoded == utf8_pairs(self.pairs()),
                buf@ == pairs_content(encoded.take(i as int)),
            decreases self.0@.len() - i,
        {
            self.0[i].write_to_stream(&mut buf);
            proof {
                assert(encoded.take(i + 1) =~= encoded.take(i as int).push(encoded[i as int]));
                lemma_pairs_content_push(encoded.take(i as int), encoded[i as int]);
            }
            i = i + 1;
        }
        assert(encoded.take(i as int) =~= encoded);
        buf
    }
}

/// The length that stands at the front of `buf`, and the number of octets
/// that encode it: one where the first octet is below 128, else four. There
/// is none where `buf` ends before the length does.
pub open spec fn decode_length(buf: Seq<u8>) -> Option<(nat, nat)> {
    if buf.len() == 0 {
        None
    } else if buf[0] < 128 {
        Some((buf[0] as nat, 1))
    } else if buf.len() < 4 {
        None
    } else {
        Some(((u32_of_be(buf[0], buf[1], buf[2], buf[3]) - 0x8000_0000) as nat, 4))
    }
}

/// The name-value pair that stands at the front of `buf`, and the number of
/// octets that it takes. There is none where `buf` ends before the pair
/// does.
#[verifier::opaque]
pub open spec fn decode_pair(buf: Seq<u8>) -> Option<((Seq<u8>, Seq<u8>), nat)> {
    match decode_length(buf) {
        None => None,
        Some((name_len, n1)) => match decode_length(buf.skip(n1 as int)) {
            None => None,
            Some((value_len, n2)) => {
                let start = (n1 + n2) as int;
                let end = start + name_len + value_len;
                if buf.len() < end {
                    None
                } else {
                    Some(
                        (
                            (
                                buf.subrange(start, start + name_len),
                                buf.subrange(start + name_len, end),
                            ),
                            end as nat,
                        ),
                    )
                }
            },
        },
    }
}

/// The name-value pairs that `buf` holds, one after the other. There are
/// none where `buf` ends in the middle of a pair.
pub open spec fn spec_decode_pairs(buf: Seq<u8>) -> Option<Seq<(Seq<u8>, Seq<u8>)>>
    decreases buf.len(),
{
    if buf.len() == 0 {
        Some(Seq::empty())
    } else {
        match decode_pair(buf) {
            None => None,
            Some((pair, n)) => {
                proof {
                    reveal(decode_pair);
                }
                match spec_decode_pairs(buf.skip(n as int)) {
                    None => None,
                    Some(rest) => Some(seq![pair] + rest),
                }
            },
        }
    }
}

/// The octets that each pair of byte vectors holds.
pub open spec fn byte_pairs(pairs: Seq<(Vec<u8>, Vec<u8>)>) -> Seq<(Seq<u8>, Seq<u8>)> {
    Seq::new(pairs.len(), |i: int| (pairs[i].0@, pairs[i].1@))
}

/// Reads the length at `pos`: its value and the position after it.
fn read_length(buf: &[u8], pos: usize) -> (res: Option<(usize, usize)>)
    requires
        pos <= buf@.len(),
    ensures
        match res {
            Some((value, next)) => decode_length(buf@.skip(pos as int)) == Some(
                (value as nat, (next - pos) as nat),
            ) && pos < next <= buf@.len(),
            None => decode_length(buf@.skip(pos as int)) is None,
        },
{
    let left = buf.len() - pos;
    if left == 0 {
        None
    } else if buf[pos] < 128 {
        Some((buf[pos] as usize, pos + 1))
    } else if left < 4 {
        None
    } else {
        let long = be_buf_to_u32(slice_subrange(buf, pos, pos + 4));
        Some(((long - 0x8000_0000) as usize, pos + 4))
    }
}

/// Reads the pair at `pos`: its name, its value and the position after it.
fn read_pair(buf: &[u8], pos: usize) -> (res: Option<(Vec<u8>, Vec<u8>, usize)>)
    requires
        pos <= buf@.len(),
    ensures
        match res {
            Some((name, value, next)) => decode_pair(buf@.skip(pos as int)) == Some(
                ((name@, value@), (next - pos) as nat),
            ) && pos < next <= buf@.len(),
            None => decode_pair(buf@.skip(pos as int)) is None,
        },
{
    reveal(decode_pair);
    let ghost unread = buf@.skip(pos as int);
    let (name_len, after_name_len) = match read_length(buf, pos) {
        Some(r) => r,
        None => {
            return None;
        },
    };
    assert(unread.skip(after_name_len - pos) =~= buf@.skip(after_name_len as int));
    let (value_len, start) = match read_length(buf, after_name_len) {
        Some(r) => r,
        None => {
            return None;
        },
    };
    if name_len > buf.len() - start || value_len > buf.len() - start - name_len {
        return None;
    }
    let name = slice_to_vec(slice_subrange(buf, start, start + name_len));
    let end = start + name_len + value_len;
    let value = slice_to_vec(slice_subrange(buf, start + name_len, end));
    assert(name@ =~= unread.subrange(start - pos, start - pos + name_len));
    assert(value@ =~= unread.subrange(start - pos + name_len, end - pos));
    Some((name, value, end))
}

/// Decodes the name-value pairs that `buf` holds, one after the other, as
/// the octets of each name and value. Gives `None` exactly where `buf` ends
/// in the middle of a pair.
pub fn decode_pairs(buf: &[u8]) -> (res: Option<Vec<(Vec<u8>, Vec<u8>)>>)
    ensures
        match res {
            Some(pairs) => spec_decode_pairs(buf@) == Some(byte_pairs(pairs@)),
            None => spec_decode_pairs(buf@) is None,
        },
{
    let mut pairs: Vec<(Vec<u8>, Vec<u8>)> = Vec::new();
    let mut pos: usize = 0;
    proof {
        assert(buf@.skip(0) =~= buf@);
        match spec_decode_pairs(buf@) {
            None => {},
            Some(rest) => {
                assert(byte_pairs(pairs@) + rest =~= rest);
            },
        }
    }
    while pos < buf.len()
        invariant
            pos <= buf@.len(),
            spec_decode_pairs(buf@) == match spec_decode_pairs(buf@.skip(pos as int)) {
                None => None::<Seq<(Seq<u8>, Seq<u8>)>>,
                Some(rest) => Some(byte_pairs(pairs@) + rest),
            },
        decreases buf@.len() - pos,
    {
        let ghost done = byte_pairs(pairs@);
        let (name, value, next) = match read_pair(buf, pos) {
            Some(r) => r,
            None => {
                return None;
            },
        };
        proof {
            assert(buf@.skip(pos as int).skip(next - pos) =~= buf@.skip(next as int));
            match spec_decode_pairs(buf@.skip(next as int)) {
                None => {},
                Some(rest) => {
                    assert(done + (seq![(name@, value@)] + rest) =~= done.push((name@, value@))
                        + rest);
                },
            }
        }
        pairs.push((name, value));
        assert(byte_pairs(pairs@) =~= done.push((name@, value@)));
        pos = next;
    }
    assert(byte_pairs(pairs@) + Seq::<(Seq<u8>, Seq<u8>)>::empty() =~= byte_pairs(pairs@));
    Some(pairs)
}

/// The octets of an encoded length below 2^31: one octet that is the
/// length itself, or four octets, the first of them 128 or more, that hold
/// the length with bit 31 set.
proof fn lemma_length_bytes(length: nat)
    requires
        length < 0x8000_0000,
    ensures
        ({
            let b = ParamLength::spec_new(length).bytes();
            if length < 128 {
                b.len() == 1 && b[0] == length
            } else {
                b.len() == 4 && b[0] >= 128 && u32_of_be(b[0], b[1], b[2], b[3]) - 0x8000_0000
                    == length
            }
        }),
{
    if length >= 128 {
        lemma_be_u32_round_trip((length + 0x8000_0000) as u32);
    }
}

/// A length below 2^31 that is encoded and followed by anything decodes to
/// itself.
pub proof fn lemma_length_round_trip(length: nat, rest: Seq<u8>)
    requires
        length < 0x8000_0000,
    ensures
        decode_length(ParamLength::spec_new(length).bytes() + rest) == Some(
            (length, ParamLength::spec_new(length).bytes().len()),
        ),
        1 <= ParamLength::spec_new(length).bytes().len() <= 4,
{
    let b = ParamLength::spec_new(length).bytes();
    lemma_length_bytes(length);
    let buf = b + rest;
    assert(buf[0] == b[0]);
    if length >= 128 {
        assert(buf[1] == b[1]);
        assert(buf[2] == b[2]);
        assert(buf[3] == b[3]);
    }
}

/// What `decode_pair` gives where the two lengths at the front of `buf`
/// are known and `buf` holds the whole pair.
proof fn lemma_decode_pair(buf: Seq<u8>, name_len: nat, n1: nat, value_len: nat, n2: nat)
    requires
        decode_length(buf) == Some((name_len, n1)),
        decode_length(buf.skip(n1 as int)) == Some((value_len, n2)),
        n1 + n2 + name_len + value_len <= buf.len(),
    ensures
        ({
            let start = (n1 + n2) as int;
            let end = start + name_len + value_len;
            decode_pair(buf) == Some(
                (
                    (buf.subrange(start, start + name_len), buf.subrange(start + name_len, end)),
                    end as nat,
                ),
            )
        }),
{
    reveal(decode_pair);
}

/// A pair whose name and value are shorter than 2^31 octets, encoded and
/// followed by anything, decodes to itself.
pub proof fn lemma_pair_round_trip(name: Seq<u8>, value: Seq<u8>, rest: Seq<u8>)
    requires
        name.len() < 0x8000_0000,
        value.len() < 0x8000_0000,
    ensures
        decode_pair(pair_content(name, value) + rest) == Some(
            ((name, value), pair_content(name, value).len()),
        ),
        pair_content(name, value).len() >= 2,
{
    let l1 = ParamLength::spec_new(name.len()).bytes();
    let l2 = ParamLength::spec_new(value.len()).bytes();
    let buf = pair_content(name, value) + rest;
    let after_l1 = l2 + name + value + rest;
    let after_l2 = name + value + rest;
    lemma_length_round_trip(name.len(), after_l1);
    lemma_length_round_trip(value.len(), after_l2);
    assert(buf =~= l1 + after_l1);
    assert(buf.skip(l1.len() as int) =~= l2 + after_l2);
    lemma_decode_pair(buf, name.len(), l1.len(), value.len(), l2.len());
    let start = (l1.len() + l2.len()) as int;
    assert(buf.subrange(start, start + name.len()) =~= name);
    assert(buf.subrange(start + name.len(), start + name.len() + value.len()) =~= value);
}

/// Name-value pairs that are encoded and decoded are unchanged, in order
/// and in content, whichever of the short and the long form each length
/// takes, as long as every name and value is shorter than 2^31 octets.
pub proof fn lemma_pairs_round_trip(pairs: Seq<(Seq<u8>, Seq<u8>)>)
    requires
        forall|i: int|
            0 <= i < pairs.len() ==> (#[trigger] pairs[i]).0.len() < 0x8000_0000
                && pairs[i].1.len() < 0x8000_0000,
    ensures
        spec_decode_pairs(pairs_content(pairs)) == Some(pairs),
    decreases pairs.len(),
{
    if pairs.len() > 0 {
        let first = pairs[0];
        let rest = pairs.drop_first();
        assert forall|i: int| 0 <= i < rest.len() implies (#[trigger] rest[i]).0.len()
            < 0x8000_0000 && rest[i].1.len() < 0x8000_0000 by {
            assert(rest[i] == pairs[i + 1]);
        }
        lemma_pair_round_trip(first.0, first.1, pairs_content(rest));
        lemma_pairs_round_trip(rest);
        let buf = pairs_content(pairs);
        assert(buf.skip(pair_content(first.0, first.1).len() as int) =~= pairs_content(rest));
        assert(seq![first] + rest =~= pairs);
    }
}

/// The parameters of a request survive the wire: their encoded content
/// decodes to the UTF-8 octets of each name and value, in order, and those
/// octets decode to the name and the value themselves.
pub proof fn lemma_params_round_trip(pairs: Seq<(Seq<char>, Seq<char>)>)
    requires
        forall|i: int|
            0 <= i < pairs.len() ==> encode_utf8((#[trigger] pairs[i]).0).len() < 0x8000_0000
                && encode_utf8(pairs[i].1).len() < 0x8000_0000,
    ensures
        spec_decode_pairs(pairs_content(utf8_pairs(pairs))) == Some(utf8_pairs(pairs)),
        forall|i: int|
            0 <= i < pairs.len() ==> decode_utf8((#[trigger] utf8_pairs(pairs)[i]).0) == pairs[i].0
                && decode_utf8(utf8_pairs(pairs)[i].1) == pairs[i].1,
{
    let encoded = utf8_pairs(pairs);
    assert forall|i: int| 0 <= i < encoded.len() implies (#[trigger] encoded[i]).0.len()
        < 0x8000_0000 && encoded[i].1.len() < 0x8000_0000 by {
        assert(encoded[i].0 == encode_utf8(pairs[i].0));
    }
    lemma_pairs_round_trip(encoded);
    assert forall|i: int| 0 <= i < pairs.len() implies decode_utf8(
        (#[trigger] utf8_pairs(pairs)[i]).0,
    ) == pairs[i].0 && decode_utf8(utf8_pairs(pairs)[i].1) == pairs[i].1 by {
        encode_utf8_decode_utf8(pairs[i].0);
        encode_utf8_decode_utf8(pairs[i].1);
    }
}

/// The outcome of a request, as the server reports it when it ends the
/// request.
#[derive(Debug, Clone, Copy, PartialEq, Eq, Structural)]
pub enum ProtocolStatus {
    /// The request was served.
    RequestComplete,
    /// The server cannot serve several requests over one connection.
    CantMpxConn,
    /// The server is too busy to take the request.
    Overloaded,
    /// The server does not know the role that was asked for.
    UnknownRole,
}

impl ProtocolStatus {
    /// The status that a code read from the wire stands for. Codes above
    /// two all stand for `UnknownRole`.
    pub open spec fn of_code(u: u8) -> ProtocolStatus {
        if u == 0 {
            ProtocolStatus::RequestComplete
        } else if u == 1 {
            ProtocolStatus::CantMpxConn
        } else if u == 2 {
            ProtocolStatus::Overloaded
        } else {
            ProtocolStatus::UnknownRole
        }
    }

    /// The code that stands for this status on the wire.
    pub open spec fn code(self) -> u8 {
        match self {
            ProtocolStatus::RequestComplete => 0,
            ProtocolStatus::CantMpxConn => 1,
            ProtocolStatus::Overloaded => 2,
            ProtocolStatus::UnknownRole => 3,
        }
    }

    /// What a request that ended with this status gives its caller: success
    /// for `RequestComplete`, and for each other status its own error, which
    /// carries the status code of the application.
    pub open spec fn client_result(self, app_status: u32) -> ClientResult<()> {
        match self {
            ProtocolStatus::RequestComplete => Ok(()),
            _ => Err(ClientError::of_protocol_status(self, app_status)),
        }
    }

    /// Decodes a status code read from the wire.
    pub fn from_u8(u: u8) -> (status: Self)
        ensures
            status == Self::of_code(u),
    {
        match u {
            0 => ProtocolStatus::RequestComplete,
            1 => ProtocolStatus::CantMpxConn,
            2 => ProtocolStatus::Overloaded,
            _ => ProtocolStatus::UnknownRole,
        }
    }

    /// Turns the status into the result of the request: `Ok` exactly for
    /// `RequestComplete`, otherwise the error of the status with
    /// `app_status` in it.
    pub fn convert_to_client_result(self, app_status: u32) -> (res: ClientResult<()>)
        ensures
            res == self.client_result(app_status),
            res is Ok <==> self == ProtocolStatus::RequestComplete,
    {
        match self {
            ProtocolStatus::RequestComplete => Ok(()),
            _ => Err(ClientError::new_end_request_with_protocol_status(self, app_status)),
        }
    }
}

/// The body of the record that closes a request.
#[derive(Debug, Clone, Copy)]
pub struct EndRequest {
    /// The status code of the application.
    pub app_status: u32,
    /// The outcome of the request at the level of the protocol.
    pub protocol_status: ProtocolStatus,
    /// Reserved by the protocol.
    pub reserved: [u8; 3],
}

impl EndRequest {
    /// Whether this is the body that the first eight octets of `buf` stand
    /// for: the application status in four octets, the protocol status in
    /// one, and three reserved octets.
    pub open spec fn is_decoded_from(self, buf: Seq<u8>) -> bool {
        &&& self.app_status == u32_of_be(buf[0], buf[1], buf[2], buf[3])
        &&& self.protocol_status == ProtocolStatus::of_code(buf[4])
        &&& self.reserved@ == buf.subrange(5, 8)
    }
}

/// The record that closes a request: its header and its body.
#[derive(Debug, Clone, Copy)]
pub struct EndRequestRec {
    /// The header of the record.
    pub header: Header,
    /// The body of the record.
    pub end_request: EndRequest,
}

impl EndRequestRec {
    /// Decodes the body of the record from the first eight octets of `buf`.
    pub fn new_from_buf(header: Header, buf: &[u8]) -> (rec: Self)
        requires
            buf@.len() >= 8,
        ensures
            rec.header == header,
            rec.end_request.is_decoded_from(buf@),
    {
        let app_status = be_buf_to_u32(slice_subrange(buf, 0, 4));
        let protocol_status = ProtocolStatus::from_u8(buf[4]);
        let reserved: [u8; 3] = [buf[5], buf[6], buf[7]];
        assert(reserved@ =~= buf@.subrange(5, 8));
        Self { header, end_request: EndRequest { app_status, protocol_status, reserved } }
    }

    /// Reads the content that `header` announces and decodes it as the body
    /// of the record. Fails with `UnexpectedEof` where the stream ends
    /// before the record does, and with `InvalidData` where the content is
    /// shorter than the eight octets of a body.
    pub fn from_header(header: &Header, reader: &mut SliceReader) -> (res: ClientResult<Self>)
        ensures
            match res {
                Ok(rec) => header.body_len() <= old(reader)@.len() && header.content_length >= 8
                    && rec.header == *header && rec.end_request.is_decoded_from(old(reader)@)
                    && final(reader)@ == old(reader)@.skip(header.body_len() as int),
                Err(e) => if header.body_len() > old(reader)@.len() {
                    e == (ClientError::Io { kind: IoErrorKind::UnexpectedEof })
                        && final(reader)@.len() == 0
                } else {
                    header.content_length < 8 && e == (ClientError::Io {
                        kind: IoErrorKind::InvalidData,
                    }) && final(reader)@ == old(reader)@.skip(header.body_len() as int)
                },
            },
    {
        let content = match header.read_content_from_stream(reader) {
            Ok(content) => content,
            Err(e) => {
                return Err(e);
            },
        };
        if content.len() < 8 {
            return Err(ClientError::Io { kind: IoErrorKind::InvalidData });
        }
        let rec = Self::new_from_buf(*header, content.as_slice());
        assert(content@.subrange(5, 8) =~= old(reader)@.subrange(5, 8));
        Ok(rec)
    }
}

} // verus!
