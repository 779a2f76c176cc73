//! The client: one request and its response over a connection.

use crate::conn::{KeepAlive, Mode, ShortConn};
use crate::demux::{lemma_receive_rest, lemma_receive_tracks, Demultiplexer, DemuxView};
use crate::error::{ClientError, ClientResult};
use crate::id::{
    after_alloc, after_release, AllocRequestId, FixRequestIdAllocator, PooledRequestIdAllocator,
    REQUEST_ID,
};
use crate::meta::{
    pairs_content, utf8_pairs, BeginRequestRec, Header, ParamPairs, RequestType, Role,
};
use crate::params::Params;
use crate::request::Request;
use crate::response::{
    lemma_response_rest, response_from, result_view, Response, ResponseView,
};
use crate::stream::{MemoryStream, SliceReader};
use vstd::prelude::*;

verus! {

/// The octets of a whole request on the wire: the record that opens it,
/// the parameters as a stream of records, and the body as a stream of
/// records. Each of the two streams ends with exactly one empty record.
pub open spec fn request_bytes(
    id: u16,
    keep_alive: bool,
    params: Seq<(Seq<char>, Seq<char>)>,
    body: Seq<u8>,
) -> Seq<u8> {
    BeginRequestRec::bytes(id, Role::Responder, keep_alive) + Header::batches(
        RequestType::Params,
        id,
        pairs_content(utf8_pairs(params)),
    ) + Header::batches(RequestType::Stdin, id, body)
}

/// A client of a FastCGI server over the connection `S`, used in the mode
/// `M`.
pub struct Client<S, M: Mode> {
    stream: S,
    ids: M::Allocator,
    responses: M::Responses,
}

impl<S> Client<S, ShortConn> {
    /// Makes a client that uses `stream` for a single request.
    pub fn new(stream: S) -> (client: Self)
        ensures
            client.spec_stream() == stream,
    {
        Self { stream, ids: FixRequestIdAllocator, responses: () }
    }

    /// Starts the request of the connection: gives its id, which is
    /// `REQUEST_ID`.
    pub fn start(&mut self) -> (res: ClientResult<u16>)
        ensures
            res == Ok::<u16, ClientError>(REQUEST_ID),
            final(self).spec_stream() == old(self).spec_stream(),
    {
        self.ids.allocate()
    }
}

impl<S> Client<S, KeepAlive> {
    /// The responses that are being assembled.
    pub open spec fn responses(&self) -> DemuxView {
        self.spec_responses()@
    }

    /// The client is in a consistent state: so is its allocator of request
    /// ids, and the id of every request whose response is being assembled
    /// is in use.
    pub open spec fn wf(&self) -> bool {
        &&& self.ids().wf()
        &&& forall|id: u16| #[trigger] self.responses().tracks(id) ==> self.ids().in_use(id)
    }

    /// Makes a client that uses `stream` for one request after the other.
    /// All its request ids are free.
    pub fn new_keep_alive(stream: S) -> (client: Self)
        ensures
            client.spec_stream() == stream,
            client.ids().free() == PooledRequestIdAllocator::all_ids(),
            client.responses() == DemuxView::empty(),
            client.wf(),
    {
        Self { stream, ids: PooledRequestIdAllocator::new(), responses: Demultiplexer::new() }
    }

    /// Starts a request: takes the first free id for it and lets it wait
    /// for its response. Fails with `RequestIdExhausted` where no id is
    /// free, and then changes nothing. The id is never one whose request
    /// still waits for its end or for its outcome to be asked for.
    pub fn start(&mut self) -> (res: ClientResult<u16>)
        requires
            old(self).wf(),
        ensures
            final(self).wf(),
            final(self).spec_stream() == old(self).spec_stream(),
            match res {
                Ok(id) => {
                    &&& old(self).ids().free().len() > 0
                    &&& id == old(self).ids().free()[0]
                    &&& !old(self).responses().tracks(id)
                    &&& final(self).ids().free() == after_alloc(old(self).ids().free())
                    &&& final(self).responses() == old(self).responses().begin(id)
                },
                Err(e) => {
                    &&& old(self).ids().free().len() == 0
                    &&& e == ClientError::RequestIdExhausted
                    &&& final(self).ids().free() == old(self).ids().free()
                    &&& final(self).responses() == old(self).responses()
                },
            },
    {
        let id = match self.ids.allocate() {
            Ok(id) => id,
            Err(e) => {
                proof {
                    assert forall|k: u16| #[trigger]
                        self.responses().tracks(k) implies self.ids().in_use(k) by {
                        assert(old(self).responses().tracks(k));
                        assert(old(self).ids().in_use(k));
                    }
                }
                return Err(e);
            },
        };
        self.responses.begin(id);
        proof {
            assert(!old(self).responses().tracks(id)) by {
                if old(self).responses().tracks(id) {
                    assert(old(self).ids().in_use(id));
                }
            }
            assert forall|k: u16| #[trigger] self.responses().tracks(k) implies self.ids().in_use(
                k,
            ) by {
                if k != id {
                    assert(old(self).responses().tracks(k));
                    assert(old(self).ids().in_use(k));
                }
            }
        }
        Ok(id)
    }

    /// Whether request `id` waits for the record that ends it.
    pub fn is_pending(&self, id: u16) -> (b: bool)
        ensures
            b == self.responses().pending.contains_key(id),
    {
        self.responses.is_pending(id)
    }

    /// Tells from the header alone whether a record can be taken:
    /// `RequestIdNotFound` where its request does not wait for its end,
    /// `UnknownRequestType` where its type is never valid in a response.
    pub fn check_header(&self, header: &Header) -> (res: ClientResult<()>)
        ensures
            res == self.responses().check_header(*header),
    {
        self.responses.check_header(header)
    }

    /// Takes one record that has arrived. `header` is the header of the
    /// record, and `reader` stands right after it. The record goes to the
    /// request whose id it carries; an error is a failure of the
    /// connection.
    pub fn on_record(&mut self, header: &Header, reader: &mut SliceReader) -> (res: ClientResult<
        (),
    >)
        requires
            old(self).wf(),
        ensures
            final(self).wf(),
            final(self).spec_stream() == old(self).spec_stream(),
            final(self).ids().free() == old(self).ids().free(),
            res == old(self).responses().route(*header, old(reader)@).0,
            final(self).responses() == old(self).responses().route(*header, old(reader)@).1,
            final(reader)@ == old(self).responses().route(*header, old(reader)@).2,
    {
        let res = self.responses.on_record(header, reader);
        proof {
            assert forall|k: u16| #[trigger] self.responses().tracks(k) implies self.ids().in_use(
                k,
            ) by {
                assert(old(self).responses().tracks(k));
            }
        }
        res
    }

    /// Hands over the outcome of request `id` if the request has ended.
    /// The request is forgotten then, and its id becomes free again.
    pub fn finish(&mut self, id: u16) -> (res: Option<ClientResult<Response>>)
        requires
            old(self).wf(),
        ensures
            final(self).wf(),
            final(self).spec_stream() == old(self).spec_stream(),
            match res {
                Some(outcome) => {
                    &&& old(self).responses().finished.contains_key(id)
                    &&& result_view(outcome) == old(self).responses().finished[id]
                    &&& final(self).responses() == old(self).responses().forget(id)
                    &&& final(self).ids().free() == after_release(old(self).ids().free(), id)
                },
                None => {
                    &&& !old(self).responses().finished.contains_key(id)
                    &&& final(self).responses() == old(self).responses()
                    &&& final(self).ids().free() == old(self).ids().free()
                },
            },
    {
        let res = self.responses.take(id);
        if res.is_some() {
            self.ids.release(id);
            proof {
                assert forall|k: u16| #[trigger]
                    self.responses().tracks(k) implies self.ids().in_use(k) by {
                    assert(old(self).responses().tracks(k));
                }
            }
        }
        res
    }

    /// Gives up request `id`: what has arrived for it is dropped, and its
    /// id becomes free again. This is for a request whose response is read
    /// in another way than by `on_record`, when that response has ended.
    pub fn forget(&mut self, id: u16)
        requires
            old(self).wf(),
        ensures
            final(self).wf(),
            final(self).spec_stream() == old(self).spec_stream(),
            final(self).responses() == old(self).responses().forget(id),
            final(self).ids().free() == after_release(old(self).ids().free(), id),
    {
        self.responses.forget(id);
        self.ids.release(id);
        proof {
            assert forall|k: u16| #[trigger] self.responses().tracks(k) implies self.ids().in_use(
                k,
            ) by {
                assert(old(self).responses().tracks(k));
            }
        }
    }
}

impl<S, M: Mode> Client<S, M> {
    /// The connection of the client.
    pub closed spec fn spec_stream(&self) -> S {
        self.stream
    }

    /// The allocator of request ids.
    pub closed spec fn ids(&self) -> M::Allocator {
        self.ids
    }

    /// What the client keeps of the responses that are on their way.
    pub closed spec fn spec_responses(&self) -> M::Responses {
        self.responses
    }

    /// The connection of the client.
    pub fn stream(&self) -> (stream: &S)
        ensures
            *stream == self.spec_stream(),
    {
        &self.stream
    }

    /// The connection of the client, to be written to and read from.
    pub fn stream_mut(&mut self) -> (stream: &mut S)
        ensures
            *stream == old(self).spec_stream(),
            final(self).spec_stream() == *final(stream),
            final(self).ids() == old(self).ids(),
            final(self).spec_responses() == old(self).spec_responses(),
    {
        &mut self.stream
    }

    /// Gives up the client for its connection.
    pub fn into_stream(self) -> (stream: S)
        ensures
            stream == self.spec_stream(),
    {
        self.stream
    }

    /// Writes a whole request to `stream`: the record that opens it, the
    /// parameters and the body.
    pub fn handle_request(stream: &mut Vec<u8>, id: u16, params: Params, body: &mut SliceReader)
        ensures
            final(stream)@ == old(stream)@ + request_bytes(
                id,
                M::keep_alive(),
                params.pairs(),
                old(body)@,
            ),
            final(body)@.len() == 0,
    {
        Self::handle_request_start(stream, id);
        Self::handle_request_params(stream, id, params);
        Self::handle_request_body(stream, id, body);
        assert(stream@ =~= old(stream)@ + request_bytes(
            id,
            M::keep_alive(),
            params.pairs(),
            old(body)@,
        ));
    }

    /// Writes the record that opens request `id`: it asks for the role of
    /// a responder, and for the connection to be kept open where the mode
    /// says so.
    pub fn handle_request_start(stream: &mut Vec<u8>, id: u16)
        ensures
            final(stream)@ == old(stream)@ + BeginRequestRec::bytes(
                id,
                Role::Responder,
                M::keep_alive(),
            ),
    {
        let begin_request_rec = BeginRequestRec::new(id, Role::Responder, M::is_keep_alive());
        begin_request_rec.write_to_stream(stream);
    }

    /// Writes the parameters of request `id` as a stream of records that
    /// ends with one empty record.
    pub fn handle_request_params(stream: &mut Vec<u8>, id: u16, params: Params)
        ensures
            final(stream)@ == old(stream)@ + Header::batches(
                RequestType::Params,
                id,
                pairs_content(utf8_pairs(params.pairs())),
            ),
    {
        let param_pairs = ParamPairs::new(params);
        let content = param_pairs.to_content();
        let mut reader = SliceReader::new(content.as_slice());
        Header::write_to_stream_batches(RequestType::Params, id, stream, &mut reader);
    }

    /// Writes the body of request `id` as a stream of records that ends
    /// with one empty record. An empty body is that one empty record.
    pub fn handle_request_body(stream: &mut Vec<u8>, id: u16, body: &mut SliceReader)
        ensures
            final(stream)@ == old(stream)@ + Header::batches(RequestType::Stdin, id, old(body)@),
            final(body)@.len() == 0,
    {
        Header::write_to_stream_batches(RequestType::Stdin, id, stream, body);
    }

    /// Reads the response to request `id`, record by record, up to and
    /// including the record that ends the request.
    pub fn handle_response(stream: &mut SliceReader, id: u16) -> (res: ClientResult<Response>)
        ensures
            result_view(res) == response_from(old(stream)@, id, Seq::empty(), Seq::empty()).0,
            final(stream)@ == response_from(old(stream)@, id, Seq::empty(), Seq::empty()).1,
    {
        crate::response::handle_response(stream, id)
    }
}

impl<M: Mode> Client<MemoryStream, M> {
    /// Sends a request with the id `id` over a connection held in memory
    /// and reads the response to it from what the peer sends.
    fn inner_execute(stream: &mut MemoryStream, id: u16, request: Request<SliceReader>) -> (res:
        ClientResult<Response>)
        ensures
            final(stream).outgoing@ == old(stream).outgoing@ + request_bytes(
                id,
                M::keep_alive(),
                request.spec_params().pairs(),
                request.spec_stdin()@,
            ),
            final(stream).incoming == old(stream).incoming,
            result_view(res) == response_from(
                old(stream).unread(),
                id,
                Seq::empty(),
                Seq::empty(),
            ).0,
            final(stream).unread() == response_from(
                old(stream).unread(),
                id,
                Seq::empty(),
                Seq::empty(),
            ).1,
    {
        let (params, stdin) = request.into_parts();
        let mut body = stdin;
        Self::handle_request(&mut stream.outgoing, id, params, &mut body);
        let mut reader = stream.reader();
        let res = Self::handle_response(&mut reader, id);
        let left = reader.len();
        proof {
            lemma_response_rest(old(stream).unread(), id, Seq::empty(), Seq::empty());
        }
        stream.keep_unread(left);
        res
    }
}

impl Client<MemoryStream, ShortConn> {
    /// Sends `request` over the connection and reads the response to it.
    /// The request has the id `REQUEST_ID`, and the server is not asked to
    /// keep the connection open. The outcome is that of reading the
    /// response from what the peer sends.
    pub fn execute_once(self, request: Request<SliceReader>) -> (res: ClientResult<Response>)
        ensures
            result_view(res) == response_from(
                self.spec_stream().unread(),
                REQUEST_ID,
                Seq::empty(),
                Seq::empty(),
            ).0,
    {
        let mut client = self;
        match client.ids.allocate() {
            Ok(id) => Self::inner_execute(&mut client.stream, id, request),
            Err(e) => Err(e),
        }
    }
}

/// The outcome of waiting for a request as a single result: the failure
/// of the connection, or else the outcome of the request.
pub open spec fn flatten(
    received: Result<Result<ResponseView, ClientError>, ClientError>,
) -> Result<ResponseView, ClientError> {
    match received {
        Ok(outcome) => outcome,
        Err(e) => Err(e),
    }
}

impl Client<MemoryStream, KeepAlive> {
    /// Sends `request` over the connection, without waiting for the
    /// response, and gives the id that tells the request apart from the
    /// others on the connection.
    ///
    /// The request gets the first free id. Where none is free, the call
    /// fails with `RequestIdExhausted` and nothing is sent. Otherwise the
    /// whole request is sent, with the server asked to keep the connection
    /// open, and the request waits for its response.
    pub fn send(&mut self, request: Request<SliceReader>) -> (res: ClientResult<u16>)
        requires
            old(self).wf(),
        ensures
            final(self).wf(),
            final(self).spec_stream().incoming == old(self).spec_stream().incoming,
            final(self).spec_stream().position == old(self).spec_stream().position,
            match res {
                Ok(id) => {
                    &&& old(self).ids().free().len() > 0
                    &&& id == old(self).ids().free()[0]
                    &&& !old(self).responses().tracks(id)
                    &&& final(self).spec_stream().outgoing@ == old(self).spec_stream().outgoing@
                        + request_bytes(
                        id,
                        true,
                        request.spec_params().pairs(),
                        request.spec_stdin()@,
                    )
                    &&& final(self).ids().free() == after_alloc(old(self).ids().free())
                    &&& final(self).responses() == old(self).responses().begin(id)
                },
                Err(e) => {
                    &&& old(self).ids().free().len() == 0
                    &&& e == ClientError::RequestIdExhausted
                    &&& final(self).spec_stream() == old(self).spec_stream()
                    &&& final(self).ids().free() == old(self).ids().free()
                    &&& final(self).responses() == old(self).responses()
                },
            },
    {
        let id = match self.start() {
            Ok(id) => id,
            Err(e) => {
                return Err(e);
            },
        };
        let (params, stdin) = request.into_parts();
        let mut body = stdin;
        Self::handle_request(&mut self.stream.outgoing, id, params, &mut body);
        Ok(id)
    }

    /// Waits for the end of request `id` and gives its response.
    ///
    /// Records are read from what the peer sends and routed to the requests
    /// whose ids they carry, until request `id` has ended. Its outcome is
    /// the result, and its id becomes free again. Where the connection
    /// fails before that, the failure is the result and the id stays in
    /// use.
    pub fn receive(&mut self, id: u16) -> (res: ClientResult<Response>)
        requires
            old(self).wf(),
        ensures
            final(self).wf(),
            final(self).spec_stream().incoming == old(self).spec_stream().incoming,
            final(self).spec_stream().outgoing == old(self).spec_stream().outgoing,
            ({
                let received = old(self).responses().receive(
                    old(self).spec_stream().unread(),
                    id,
                );
                &&& result_view(res) == flatten(received.0)
                &&& final(self).responses() == received.1
                &&& final(self).spec_stream().unread() == received.2
                &&& final(self).ids().free() == if received.0 is Ok {
                    after_release(old(self).ids().free(), id)
                } else {
                    old(self).ids().free()
                }
            }),
    {
        let mut reader = self.stream.reader();
        let received = self.responses.receive(&mut reader, id);
        let left = reader.len();
        proof {
            lemma_receive_rest(old(self).responses(), old(self).spec_stream().unread(), id);
            lemma_receive_tracks(old(self).responses(), old(self).spec_stream().unread(), id);
        }
        self.stream.keep_unread(left);
        match received {
            Ok(outcome) => {
                self.ids.release(id);
                outcome
            },
            Err(e) => Err(e),
        }
    }

    /// Sends `request` over the connection and waits for the response to
    /// it: `send`, then `receive` for the id that `send` gave.
    pub fn execute(&mut self, request: Request<SliceReader>) -> (res: ClientResult<Response>)
        requires
            old(self).wf(),
        ensures
            final(self).wf(),
            final(self).spec_stream().incoming == old(self).spec_stream().incoming,
            old(self).ids().free().len() == 0 ==> ({
                &&& res matches Err(e)
                &&& e == ClientError::RequestIdExhausted
                &&& final(self).spec_stream() == old(self).spec_stream()
                &&& final(self).ids().free() == old(self).ids().free()
                &&& final(self).responses() == old(self).responses()
            }),
            old(self).ids().free().len() > 0 ==> ({
                let id = old(self).ids().free()[0];
                let received = old(self).responses().begin(id).receive(
                    old(self).spec_stream().unread(),
                    id,
                );
                &&& !old(self).responses().tracks(id)
                &&& final(self).spec_stream().outgoing@ == old(self).spec_stream().outgoing@
                    + request_bytes(
                    id,
                    true,
                    request.spec_params().pairs(),
                    request.spec_stdin()@,
                )
                &&& result_view(res) == flatten(received.0)
                &&& final(self).responses() == received.1
                &&& final(self).spec_stream().unread() == received.2
                &&& final(self).ids().free() == if received.0 is Ok {
                    after_release(after_alloc(old(self).ids().free()), id)
                } else {
                    after_alloc(old(self).ids().free())
                }
            }),
    {
        let id = match self.send(request) {
            Ok(id) => id,
            Err(e) => {
                return Err(e);
            },
        };
        self.receive(id)
    }
}

} // verus!
