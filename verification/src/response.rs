//! Responses, and how they are assembled from the records of a reply.

use crate::error::{ClientError, ClientResult, IoErrorKind};
use crate::meta::{
    be_u32, first_record, lemma_be_u32_round_trip, lemma_record_round_trip, u32_of_be, zeros,
    EndRequestRec, Header, ProtocolStatus, RequestType, HEADER_LEN, MAX_LENGTH,
};
use crate::stream::SliceReader;
use vstd::prelude::*;

verus! {

/// The output of a request: what the application wrote to its standard
/// output and to its standard error. A stream to which nothing was written
/// is absent.
#[derive(Debug, Clone)]
#[non_exhaustive]
pub struct Response {
    /// The standard output, if there was any.
    pub stdout: Option<Vec<u8>>,
    /// The standard error, if there was any.
    pub stderr: Option<Vec<u8>>,
}

/// The two streams of a response as sequences of octets.
pub type ResponseView = (Option<Seq<u8>>, Option<Seq<u8>>);

impl View for Response {
    type V = ResponseView;

    open spec fn view(&self) -> ResponseView {
        (
            match self.stdout {
                Some(v) => Some(v@),
                None => None,
            },
            match self.stderr {
                Some(v) => Some(v@),
                None => None,
            },
        )
    }
}

impl Default for Response {
    /// The response without any output.
    fn default() -> (response: Self)
        ensures
            response.stdout is None,
            response.stderr is None,
    {
        Response { stdout: None, stderr: None }
    }
}

/// What a buffer of collected output gives the caller: nothing where it is
/// empty, else its content.
pub open spec fn present(buf: Seq<u8>) -> Option<Seq<u8>> {
    if buf.len() == 0 {
        None
    } else {
        Some(buf)
    }
}

/// The error that ends a stream in the middle of a record.
pub open spec fn unexpected_eof() -> ClientError {
    ClientError::Io { kind: IoErrorKind::UnexpectedEof }
}

/// Whether a record with this header may be part of the response to
/// request `id`: it must carry that id, and be standard output, standard
/// error or the end of the request.
pub open spec fn check_header(id: u16, header: Header) -> ClientResult<()> {
    if header.request_id != id {
        Err(ClientError::ResponseNotFound { id })
    } else {
        match header.request_type {
            RequestType::Stdout | RequestType::Stderr | RequestType::EndRequest => Ok(()),
            other => Err(ClientError::UnknownRequestType { request_type: other }),
        }
    }
}

/// What the body of the record that ends a request makes of the output
/// collected so far: the response, where the protocol status is
/// `RequestComplete`; the error of the status, with the application status
/// in it, where it is not. The body is `content`, of eight octets or more.
pub open spec fn end_outcome(content: Seq<u8>, out: Seq<u8>, err: Seq<u8>) -> Result<
    ResponseView,
    ClientError,
> {
    match ProtocolStatus::of_code(content[4]).client_result(
        u32_of_be(content[0], content[1], content[2], content[3]),
    ) {
        Ok(_) => Ok((present(out), present(err))),
        Err(e) => Err(e),
    }
}

/// The outcome of a request as sequences of octets.
pub open spec fn result_view(res: ClientResult<Response>) -> Result<ResponseView, ClientError> {
    match res {
        Ok(response) => Ok(response@),
        Err(e) => Err(e),
    }
}

/// Where a response stands after one more record.
pub enum ProgressView {
    /// The response goes on, with this output collected so far.
    More {
        /// The standard output so far.
        stdout: Seq<u8>,
        /// The standard error so far.
        stderr: Seq<u8>,
    },
    /// The request has ended, with this outcome.
    Done {
        /// The response, or the error that the server reported.
        result: Result<ResponseView, ClientError>,
    },
}

/// What the record with the header `header` does to a response for request
/// `id` that has collected `out` and `err`, where `body` is the stream
/// after the header; and what is left of the stream afterwards.
///
/// Output is appended to what was collected. The record that ends the
/// request gives the outcome of the request. The record is refused with an
/// error where it belongs to another request, where its type is never valid
/// in a response, where the stream ends before the record does, and where
/// it ends the request with a body of fewer than eight octets.
pub open spec fn record_effect(
    id: u16,
    out: Seq<u8>,
    err: Seq<u8>,
    header: Header,
    body: Seq<u8>,
) -> (Result<ProgressView, ClientError>, Seq<u8>) {
    match check_header(id, header) {
        Err(e) => (Err(e), body),
        Ok(_) => if header.body_len() > body.len() {
            (Err(unexpected_eof()), Seq::empty())
        } else {
            let content = body.take(header.content_length as int);
            let rest = body.skip(header.body_len() as int);
            match header.request_type {
                RequestType::Stdout => (
                    Ok(ProgressView::More { stdout: out + content, stderr: err }),
                    rest,
                ),
                RequestType::Stderr => (
                    Ok(ProgressView::More { stdout: out, stderr: err + content }),
                    rest,
                ),
                _ => (
                    if content.len() < 8 {
                        Err(ClientError::Io { kind: IoErrorKind::InvalidData })
                    } else {
                        Ok(ProgressView::Done { result: end_outcome(content, out, err) })
                    },
                    rest,
                ),
            }
        },
    }
}

/// The outcome of reading the response to request `id` from `stream`, with
/// `out` and `err` collected before, and what is left of the stream
/// afterwards.
///
/// Records are taken one by one. Standard output and standard error are
/// appended to what was collected. The record that ends the request decides:
/// a protocol status of `RequestComplete` gives the response, any other
/// status its error. A record of another request, a record of any other
/// type, and a stream that ends before the record that ends the request,
/// give an error, and what was collected is dropped.
#[verifier::opaque]
pub open spec fn response_from(stream: Seq<u8>, id: u16, out: Seq<u8>, err: Seq<u8>) -> (
    Result<ResponseView, ClientError>,
    Seq<u8>,
)
    decreases stream.len(),
{
    match Header::spec_from_stream(stream) {
        None => (Err(unexpected_eof()), Seq::empty()),
        Some(header) => {
            let effect = record_effect(id, out, err, header, stream.skip(HEADER_LEN as int));
            match effect.0 {
                Err(e) => (Err(e), effect.1),
                Ok(ProgressView::Done { result }) => (result, effect.1),
                Ok(ProgressView::More { stdout, stderr }) => response_from(
                    effect.1,
                    id,
                    stdout,
                    stderr,
                ),
            }
        },
    }
}

/// The output of one request while its response is being read: what has
/// arrived so far on standard output and on standard error.
#[derive(Debug)]
pub struct ResponseAccumulator {
    /// The request whose response is collected.
    pub id: u16,
    /// The standard output so far.
    pub stdout: Vec<u8>,
    /// The standard error so far.
    pub stderr: Vec<u8>,
}

/// Where a response stands after one more record.
#[derive(Debug)]
pub enum Progress {
    /// The response goes on.
    More(ResponseAccumulator),
    /// The request has ended: with its response, or with the error that the
    /// server reported.
    Done(ClientResult<Response>),
}

impl View for Progress {
    type V = ProgressView;

    open spec fn view(&self) -> ProgressView {
        match self {
            Progress::More(acc) => ProgressView::More { stdout: acc.stdout@, stderr: acc.stderr@ },
            Progress::Done(result) => ProgressView::Done { result: result_view(*result) },
        }
    }
}

/// What taking a record into a response gave, as sequences of octets.
pub open spec fn progress_view(res: ClientResult<Progress>) -> Result<ProgressView, ClientError> {
    match res {
        Ok(progress) => Ok(progress@),
        Err(e) => Err(e),
    }
}

impl ResponseAccumulator {
    /// Starts the response to request `id`, with nothing collected.
    pub fn new(id: u16) -> (acc: Self)
        ensures
            acc.id == id,
            acc.stdout@.len() == 0,
            acc.stderr@.len() == 0,
    {
        ResponseAccumulator { id, stdout: Vec::new(), stderr: Vec::new() }
    }

    /// Tells from the header alone whether a record may be part of this
    /// response: `ResponseNotFound` where it belongs to another request,
    /// `UnknownRequestType` where its type is never valid in a response.
    pub fn check_header(&self, header: &Header) -> (res: ClientResult<()>)
        ensures
            res == check_header(self.id, *header),
    {
        if header.request_id != self.id {
            return Err(ClientError::ResponseNotFound { id: self.id });
        }
        match header.request_type {
            RequestType::Stdout | RequestType::Stderr | RequestType::EndRequest => Ok(()),
            other => Err(ClientError::UnknownRequestType { request_type: other }),
        }
    }

    /// Ends the response: the collected output becomes the response, with
    /// each stream to which nothing was written absent.
    pub fn finish(self) -> (response: Response)
        ensures
            response@ == (present(self.stdout@), present(self.stderr@)),
    {
        Response {
            stdout: if self.stdout.len() == 0 {
                None
            } else {
                Some(self.stdout)
            },
            stderr: if self.stderr.len() == 0 {
                None
            } else {
                Some(self.stderr)
            },
        }
    }

    /// Takes one record into the response. `header` is the header of the
    /// record, and `reader` stands right after it: the content and padding
    /// that the header announces are read from there.
    pub fn on_record(self, header: &Header, reader: &mut SliceReader) -> (res: ClientResult<
        Progress,
    >)
        ensures
            progress_view(res) == record_effect(
                self.id,
                self.stdout@,
                self.stderr@,
                *header,
                old(reader)@,
            ).0,
            res matches Ok(Progress::More(acc)) ==> acc.id == self.id,
            final(reader)@ == record_effect(
                self.id,
                self.stdout@,
                self.stderr@,
                *header,
                old(reader)@,
            ).1,
    {
        if let Err(e) = self.check_header(header) {
            return Err(e);
        }
        let mut acc = self;
        match header.request_type {
            RequestType::Stdout => {
                let content = match header.read_content_from_stream(reader) {
                    Ok(content) => content,
                    Err(e) => {
                        return Err(e);
                    },
                };
                acc.stdout.extend_from_slice(content.as_slice());
                assert(acc.stdout@ =~= self.stdout@ + content@);
                Ok(Progress::More(acc))
            },
            RequestType::Stderr => {
                let content = match header.read_content_from_stream(reader) {
                    Ok(content) => content,
                    Err(e) => {
                        return Err(e);
                    },
                };
                acc.stderr.extend_from_slice(content.as_slice());
                assert(acc.stderr@ =~= self.stderr@ + content@);
                Ok(Progress::More(acc))
            },
            _ => {
                let rec = match EndRequestRec::from_header(header, reader) {
                    Ok(rec) => rec,
                    Err(e) => {
                        return Err(e);
                    },
                };
                match rec.end_request.protocol_status.convert_to_client_result(
                    rec.end_request.app_status,
                ) {
                    Ok(_) => Ok(Progress::Done(Ok(acc.finish()))),
                    Err(e) => Ok(Progress::Done(Err(e))),
                }
            },
        }
    }
}

/// Reads the response to request `id` from `reader`, record by record, up
/// to and including the record that ends the request.
pub fn handle_response(reader: &mut SliceReader, id: u16) -> (res: ClientResult<Response>)
    ensures
        result_view(res) == response_from(old(reader)@, id, Seq::empty(), Seq::empty()).0,
        final(reader)@ == response_from(old(reader)@, id, Seq::empty(), Seq::empty()).1,
{
    let mut acc = ResponseAccumulator::new(id);
    assert(acc.stdout@ =~= Seq::empty() && acc.stderr@ =~= Seq::empty());
    loop
        invariant
            acc.id == id,
            response_from(reader@, id, acc.stdout@, acc.stderr@) == response_from(
                old(reader)@,
                id,
                Seq::empty(),
                Seq::empty(),
            ),
        decreases reader@.len(),
    {
        proof {
            reveal(response_from);
        }
        let header = match Header::new_from_stream(reader) {
            Ok(header) => header,
            Err(e) => {
                return Err(e);
            },
        };
        match acc.on_record(&header, reader) {
            Ok(Progress::More(next)) => {
                acc = next;
            },
            Ok(Progress::Done(result)) => {
                return result;
            },
            Err(e) => {
                return Err(e);
            },
        }
    }
}

/// The records that carry chunks of output for request `id`, in order. A
/// chunk is a pair: whether it goes to standard error rather than standard
/// output, and its content.
pub open spec fn output_records(id: u16, chunks: Seq<(bool, Seq<u8>)>) -> Seq<u8>
    decreases chunks.len(),
{
    if chunks.len() == 0 {
        Seq::empty()
    } else {
        Header::spec_new(
            if chunks[0].0 {
                RequestType::Stderr
            } else {
                RequestType::Stdout
            },
            id,
            chunks[0].1.len(),
        ).record(chunks[0].1) + output_records(id, chunks.drop_first())
    }
}

/// The contents of the chunks that go to one of the two streams, joined in
/// order.
pub open spec fn collected(chunks: Seq<(bool, Seq<u8>)>, to_stderr: bool) -> Seq<u8>
    decreases chunks.len(),
{
    if chunks.len() == 0 {
        Seq::empty()
    } else if chunks[0].0 == to_stderr {
        chunks[0].1 + collected(chunks.drop_first(), to_stderr)
    } else {
        collected(chunks.drop_first(), to_stderr)
    }
}

/// The record that ends request `id` with the given statuses.
pub open spec fn end_record(id: u16, app_status: u32, protocol_status: ProtocolStatus) -> Seq<u8> {
    Header::spec_new(RequestType::EndRequest, id, 8).record(
        be_u32(app_status) + seq![protocol_status.code()] + zeros(3),
    )
}

/// The outcome that a request has when it ends with these statuses, with
/// `out` and `err` collected: the response, where the protocol status is
/// `RequestComplete`; else the error of the status, with the application
/// status in it.
pub open spec fn outcome_of(
    app_status: u32,
    protocol_status: ProtocolStatus,
    out: Seq<u8>,
    err: Seq<u8>,
) -> Result<ResponseView, ClientError> {
    match protocol_status.client_result(app_status) {
        Ok(_) => Ok((present(out), present(err))),
        Err(e) => Err(e),
    }
}

/// The effect of a record of output that stands at the front of a stream:
/// its content is added to what was collected, and the stream goes on
/// after it.
pub proof fn lemma_effect_of_output(
    id: u16,
    to_stderr: bool,
    content: Seq<u8>,
    tail: Seq<u8>,
    out: Seq<u8>,
    err: Seq<u8>,
)
    requires
        content.len() <= MAX_LENGTH,
    ensures
        ({
            let request_type = if to_stderr {
                RequestType::Stderr
            } else {
                RequestType::Stdout
            };
            let header = Header::spec_new(request_type, id, content.len());
            let stream = header.record(content) + tail;
            &&& Header::spec_from_stream(stream) == Some(header)
            &&& header.request_id == id
            &&& record_effect(id, out, err, header, stream.skip(HEADER_LEN as int)) == (
                Ok::<ProgressView, ClientError>(
                    if to_stderr {
                        ProgressView::More { stdout: out, stderr: err + content }
                    } else {
                        ProgressView::More { stdout: out + content, stderr: err }
                    },
                ),
                tail,
            )
        }),
{
    reveal(first_record);
    let request_type = if to_stderr {
        RequestType::Stderr
    } else {
        RequestType::Stdout
    };
    lemma_record_round_trip(request_type, id, content, tail);
}

/// The effect of the record that ends a request, at the front of a stream:
/// the request ends with the outcome that the statuses give, and the stream
/// goes on after the record.
pub proof fn lemma_effect_of_end(
    id: u16,
    app_status: u32,
    protocol_status: ProtocolStatus,
    rest: Seq<u8>,
    out: Seq<u8>,
    err: Seq<u8>,
)
    ensures
        ({
            let stream = end_record(id, app_status, protocol_status) + rest;
            let header = Header::spec_new(RequestType::EndRequest, id, 8);
            &&& Header::spec_from_stream(stream) == Some(header)
            &&& header.request_id == id
            &&& record_effect(id, out, err, header, stream.skip(HEADER_LEN as int)) == (
                Ok::<ProgressView, ClientError>(
                    ProgressView::Done {
                        result: outcome_of(app_status, protocol_status, out, err),
                    },
                ),
                rest,
            )
        }),
{
    reveal(first_record);
    let content = be_u32(app_status) + seq![protocol_status.code()] + zeros(3);
    assert(content.len() == 8);
    lemma_record_round_trip(RequestType::EndRequest, id, content, rest);
    lemma_be_u32_round_trip(app_status);
    assert(content[0] == be_u32(app_status)[0]);
    assert(content[1] == be_u32(app_status)[1]);
    assert(content[2] == be_u32(app_status)[2]);
    assert(content[3] == be_u32(app_status)[3]);
    assert(content[4] == protocol_status.code());
    assert(ProtocolStatus::of_code(protocol_status.code()) == protocol_status);
}

/// Reading a response that starts with a record of output goes on after
/// that record, with the record's content collected.
proof fn lemma_response_of_output(
    id: u16,
    to_stderr: bool,
    content: Seq<u8>,
    tail: Seq<u8>,
    out: Seq<u8>,
    err: Seq<u8>,
)
    requires
        content.len() <= MAX_LENGTH,
    ensures
        response_from(
            Header::spec_new(
                if to_stderr {
                    RequestType::Stderr
                } else {
                    RequestType::Stdout
                },
                id,
                content.len(),
            ).record(content) + tail,
            id,
            out,
            err,
        ) == if to_stderr {
            response_from(tail, id, out, err + content)
        } else {
            response_from(tail, id, out + content, err)
        },
{
    reveal(response_from);
    lemma_effect_of_output(id, to_stderr, content, tail, out, err);
}

/// Reading a response that starts with the record that ends the request
/// stops after that record, with the outcome that the statuses give.
proof fn lemma_response_of_end(
    id: u16,
    app_status: u32,
    protocol_status: ProtocolStatus,
    rest: Seq<u8>,
    out: Seq<u8>,
    err: Seq<u8>,
)
    ensures
        response_from(end_record(id, app_status, protocol_status) + rest, id, out, err) == (
            outcome_of(app_status, protocol_status, out, err),
            rest,
        ),
{
    reveal(response_from);
    lemma_effect_of_end(id, app_status, protocol_status, rest, out, err);
}

/// What a well-formed reply gives. Take any chunks of standard output and
/// standard error for request `id`, mixed in any order and each of at most
/// 65535 octets, sent as one record each and followed by the record that
/// ends the request. Reading the response yields, where the protocol status
/// is `RequestComplete`, the contents of the standard output chunks joined
/// in their order, likewise for standard error, each absent where empty;
/// and where the status is anything else, the error of that status with the
/// application status in it, and no output. Nothing after the record that
/// ends the request is read.
pub proof fn lemma_response_of_records(
    id: u16,
    chunks: Seq<(bool, Seq<u8>)>,
    app_status: u32,
    protocol_status: ProtocolStatus,
    rest: Seq<u8>,
    out: Seq<u8>,
    err: Seq<u8>,
)
    requires
        forall|i: int| 0 <= i < chunks.len() ==> (#[trigger] chunks[i]).1.len() <= MAX_LENGTH,
    ensures
        response_from(
            output_records(id, chunks) + end_record(id, app_status, protocol_status) + rest,
            id,
            out,
            err,
        ) == (
            outcome_of(
                app_status,
                protocol_status,
                out + collected(chunks, false),
                err + collected(chunks, true),
            ),
            rest,
        ),
    decreases chunks.len(),
{
    let end = end_record(id, app_status, protocol_status);
    let stream = output_records(id, chunks) + end + rest;
    if chunks.len() == 0 {
        assert(stream =~= end + rest);
        lemma_response_of_end(id, app_status, protocol_status, rest, out, err);
        assert(out + collected(chunks, false) =~= out);
        assert(err + collected(chunks, true) =~= err);
    } else {
        let first = chunks[0];
        let others = chunks.drop_first();
        let request_type = if first.0 {
            RequestType::Stderr
        } else {
            RequestType::Stdout
        };
        let tail = output_records(id, others) + end + rest;
        assert(stream =~= Header::spec_new(request_type, id, first.1.len()).record(first.1)
            + tail);
        lemma_response_of_output(id, first.0, first.1, tail, out, err);
        assert forall|i: int| 0 <= i < others.len() implies (#[trigger] others[i]).1.len()
            <= MAX_LENGTH by {
            assert(others[i] == chunks[i + 1]);
        }
        if first.0 {
            lemma_response_of_records(
                id,
                others,
                app_status,
                protocol_status,
                rest,
                out,
                err + first.1,
            );
            assert(err + first.1 + collected(others, true) =~= err + collected(chunks, true));
            assert(collected(others, false) == collected(chunks, false));
        } else {
            lemma_response_of_records(
                id,
                others,
                app_status,
                protocol_status,
                rest,
                out + first.1,
                err,
            );
            assert(out + first.1 + collected(others, false) =~= out + collected(chunks, false));
            assert(collected(others, true) == collected(chunks, true));
        }
    }
}

/// Reading a response never looks back: what is left of the stream is its
/// end.
pub proof fn lemma_response_rest(stream: Seq<u8>, id: u16, out: Seq<u8>, err: Seq<u8>)
    ensures
        response_from(stream, id, out, err).1.len() <= stream.len(),
        response_from(stream, id, out, err).1 == stream.skip(
            stream.len() - response_from(stream, id, out, err).1.len(),
        ),
    decreases stream.len(),
{
    reveal(response_from);
    let rest = response_from(stream, id, out, err).1;
    match Header::spec_from_stream(stream) {
        None => {
            assert(rest =~= stream.skip(stream.len() - rest.len()));
        },
        Some(header) => {
            let body = stream.skip(HEADER_LEN as int);
            let effect = record_effect(id, out, err, header, body);
            assert(effect.1.len() <= body.len());
            assert(effect.1 =~= stream.skip(stream.len() - effect.1.len()));
            match effect.0 {
                Ok(ProgressView::More { stdout, stderr }) => {
                    lemma_response_rest(effect.1, id, stdout, stderr);
                    assert(rest =~= stream.skip(stream.len() - rest.len()));
                },
                _ => {},
            }
        },
    }
}

/// One chunk of the output of a response that is read as a stream.
#[derive(Debug, Clone, PartialEq, Eq)]
pub enum Content {
    /// A chunk of standard output.
    Stdout(Vec<u8>),
    /// A chunk of standard error.
    Stderr(Vec<u8>),
}

/// One chunk of output as a sequence of octets.
pub enum ContentView {
    /// A chunk of standard output.
    Stdout(Seq<u8>),
    /// A chunk of standard error.
    Stderr(Seq<u8>),
}

impl View for Content {
    type V = ContentView;

    open spec fn view(&self) -> ContentView {
        match self {
            Content::Stdout(v) => ContentView::Stdout(v@),
            Content::Stderr(v) => ContentView::Stderr(v@),
        }
    }
}

/// What the record at the front of `stream` gives a response to request
/// `id` that is read as a stream, and what is left of the stream
/// afterwards: the content of a record of output; nothing, where the record
/// ends the request with `RequestComplete`; an error in every case in which
/// reading the whole response would give that error.
pub open spec fn next_content(stream: Seq<u8>, id: u16) -> (
    Option<Result<ContentView, ClientError>>,
    Seq<u8>,
) {
    match Header::spec_from_stream(stream) {
        None => (Some(Err(unexpected_eof())), Seq::empty()),
        Some(header) => {
            let effect = record_effect(
                id,
                Seq::empty(),
                Seq::empty(),
                header,
                stream.skip(HEADER_LEN as int),
            );
            (
                match effect.0 {
                    Err(e) => Some(Err(e)),
                    Ok(ProgressView::Done { result }) => match result {
                        Ok(_) => None,
                        Err(e) => Some(Err(e)),
                    },
                    Ok(ProgressView::More { stdout, stderr }) => Some(
                        Ok(
                            if header.request_type == RequestType::Stdout {
                                ContentView::Stdout(stdout)
                            } else {
                                ContentView::Stderr(stderr)
                            },
                        ),
                    ),
                },
                effect.1,
            )
        },
    }
}

/// Whether the record at the front of `stream` is the record that ends
/// request `id`, whole and with a body of eight octets or more.
pub open spec fn ends_request(stream: Seq<u8>, id: u16) -> bool {
    match Header::spec_from_stream(stream) {
        None => false,
        Some(header) => record_effect(
            id,
            Seq::empty(),
            Seq::empty(),
            header,
            stream.skip(HEADER_LEN as int),
        ).0 matches Ok(ProgressView::Done { .. }),
    }
}

/// The response to one request, read chunk by chunk instead of collected.
/// Its view is what is still unread of the reply.
pub struct ResponseStream<'a> {
    reader: SliceReader<'a>,
    id: u16,
    eof: bool,
    ended: bool,
}

impl<'a> View for ResponseStream<'a> {
    type V = Seq<u8>;

    closed spec fn view(&self) -> Seq<u8> {
        self.reader@
    }
}

impl<'a> ResponseStream<'a> {
    /// The request whose response is read.
    pub closed spec fn id(&self) -> u16 {
        self.id
    }

    /// Whether the stream has come to its end, by the record that ends the
    /// request or by an error.
    pub closed spec fn ended(&self) -> bool {
        self.eof
    }

    /// Whether the record that ends the request has been read.
    pub closed spec fn request_ended(&self) -> bool {
        self.ended
    }

    /// Starts to read the response to request `id` from `reader`.
    pub fn new(reader: SliceReader<'a>, id: u16) -> (stream: Self)
        ensures
            stream@ == reader@,
            stream.id() == id,
            !stream.ended(),
            !stream.request_ended(),
    {
        ResponseStream { reader, id, eof: false, ended: false }
    }

    /// Whether the record that ends the request has been read: the server
    /// is done with the request, and its id may be used again.
    pub fn is_request_ended(&self) -> (b: bool)
        ensures
            b == self.request_ended(),
    {
        self.ended
    }

    /// Reads the next chunk of output. Gives `None` at the end of the
    /// response: after the record that ends the request, and after an
    /// error, which is given once.
    pub fn next(&mut self) -> (res: Option<ClientResult<Content>>)
        ensures
            final(self).id() == old(self).id(),
            old(self).ended() ==> ({
                &&& res is None
                &&& final(self)@ == old(self)@
                &&& final(self).ended()
                &&& final(self).request_ended() == old(self).request_ended()
            }),
            !old(self).ended() ==> ({
                let next = next_content(old(self)@, old(self).id());
                &&& final(self)@ == next.1
                &&& final(self).ended() == !(res matches Some(Ok(_)))
                &&& final(self).request_ended() == (old(self).request_ended() || ends_request(
                    old(self)@,
                    old(self).id(),
                ))
                &&& match res {
                    None => next.0 is None,
                    Some(Ok(content)) => next.0 == Some(Ok::<ContentView, ClientError>(content@)),
                    Some(Err(e)) => next.0 == Some(Err::<ContentView, ClientError>(e)),
                }
            }),
    {
        if self.eof {
            return None;
        }
        let header = match Header::new_from_stream(&mut self.reader) {
            Ok(header) => header,
            Err(e) => {
                self.eof = true;
                return Some(Err(e));
            },
        };
        let acc = ResponseAccumulator::new(self.id);
        assert(acc.stdout@ =~= Seq::empty() && acc.stderr@ =~= Seq::empty());
        match acc.on_record(&header, &mut self.reader) {
            Ok(Progress::More(acc)) => {
                if header.request_type == RequestType::Stdout {
                    Some(Ok(Content::Stdout(acc.stdout)))
                } else {
                    Some(Ok(Content::Stderr(acc.stderr)))
                }
            },
            Ok(Progress::Done(result)) => {
                self.eof = true;
                self.ended = true;
                match result {
                    Ok(_) => None,
                    Err(e) => Some(Err(e)),
                }
            },
            Err(e) => {
                self.eof = true;
                Some(Err(e))
            },
        }
    }
}

/// Reading a response as a stream and reading it whole are the same state
/// machine: an error of the next chunk is the error of the whole response;
/// the end of the stream is the response made of what was collected; and a
/// chunk of output is collected, after which the whole response is read on
/// from where the stream stands.
pub proof fn lemma_stream_agrees(stream: Seq<u8>, id: u16, out: Seq<u8>, err: Seq<u8>)
    ensures
        ({
            let next = next_content(stream, id);
            response_from(stream, id, out, err) == match next.0 {
                Some(Err(e)) => (Err::<ResponseView, ClientError>(e), next.1),
                None => (Ok::<ResponseView, ClientError>((present(out), present(err))), next.1),
                Some(Ok(ContentView::Stdout(chunk))) => response_from(
                    next.1,
                    id,
                    out + chunk,
                    err,
                ),
                Some(Ok(ContentView::Stderr(chunk))) => response_from(
                    next.1,
                    id,
                    out,
                    err + chunk,
                ),
            }
        }),
{
    reveal(response_from);
    match Header::spec_from_stream(stream) {
        None => {},
        Some(header) => {
            let body = stream.skip(HEADER_LEN as int);
            let content = body.take(header.content_length as int);
            assert(Seq::<u8>::empty() + content =~= content);
        },
    }
}

} // verus!
