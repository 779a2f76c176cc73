//! The responses of several requests that share one connection.

use crate::error::{ClientError, ClientResult};
use crate::meta::{Header, ProtocolStatus, RequestType, HEADER_LEN, MAX_LENGTH};
use crate::response::{
    check_header, end_record, lemma_effect_of_end, lemma_effect_of_output, outcome_of,
    record_effect, result_view, unexpected_eof, Progress, ProgressView, Response,
    ResponseAccumulator, ResponseView,
};
use crate::stream::SliceReader;
use std::collections::HashMap;
use vstd::prelude::*;

verus! {

broadcast use vstd::std_specs::hash::group_hash_axioms;

/// What a demultiplexer holds, as sequences of octets.
pub struct DemuxView {
    /// The requests that wait for the record that ends them, each with the
    /// standard output and the standard error that have arrived for it.
    pub pending: Map<u16, (Seq<u8>, Seq<u8>)>,
    /// The requests that have ended and whose outcome has not been asked
    /// for yet.
    pub finished: Map<u16, Result<ResponseView, ClientError>>,
}

impl DemuxView {
    /// With no request in it.
    pub open spec fn empty() -> DemuxView {
        DemuxView { pending: Map::empty(), finished: Map::empty() }
    }

    /// Whether request `id` is known: it waits for its end, or has ended
    /// and waits to be asked for.
    pub open spec fn tracks(self, id: u16) -> bool {
        self.pending.contains_key(id) || self.finished.contains_key(id)
    }

    /// After request `id` was sent: it waits for its end, with no output
    /// yet. A request that is known already stays as it is.
    pub open spec fn begin(self, id: u16) -> DemuxView {
        if self.tracks(id) {
            self
        } else {
            DemuxView {
                pending: self.pending.insert(id, (Seq::empty(), Seq::empty())),
                finished: self.finished,
            }
        }
    }

    /// Whether a record with this header can be taken: its request must wait
    /// for its end, and its type must be valid in a response.
    pub open spec fn check_header(self, header: Header) -> ClientResult<()> {
        if !self.pending.contains_key(header.request_id) {
            Err(ClientError::RequestIdNotFound { id: header.request_id })
        } else {
            check_header(header.request_id, header)
        }
    }

    /// After request `id` is forgotten: it is not known any more.
    pub open spec fn forget(self, id: u16) -> DemuxView {
        DemuxView { pending: self.pending.remove(id), finished: self.finished.remove(id) }
    }

    /// What one record does, where `header` is its header and `body` is the
    /// stream after the header: whether the connection is still good, what
    /// is held afterwards, and what is left of the stream.
    ///
    /// The record goes to the request whose id it carries. Output is added
    /// to what arrived for that request. The record that ends the request
    /// moves it to the finished ones, with its outcome. A record for a
    /// request that does not wait for its end is a failure:
    /// `RequestIdNotFound`. A record that cannot be taken is a failure too,
    /// and what arrived for its request is dropped.
    pub open spec fn route(self, header: Header, body: Seq<u8>) -> (
        Result<(), ClientError>,
        DemuxView,
        Seq<u8>,
    ) {
        let id = header.request_id;
        if !self.pending.contains_key(id) {
            (Err(ClientError::RequestIdNotFound { id }), self, body)
        } else {
            let effect = record_effect(id, self.pending[id].0, self.pending[id].1, header, body);
            match effect.0 {
                Err(e) => (
                    Err(e),
                    DemuxView { pending: self.pending.remove(id), finished: self.finished },
                    effect.1,
                ),
                Ok(ProgressView::More { stdout, stderr }) => (
                    Ok(()),
                    DemuxView {
                        pending: self.pending.insert(id, (stdout, stderr)),
                        finished: self.finished,
                    },
                    effect.1,
                ),
                Ok(ProgressView::Done { result }) => (
                    Ok(()),
                    DemuxView {
                        pending: self.pending.remove(id),
                        finished: self.finished.insert(id, result),
                    },
                    effect.1,
                ),
            }
        }
    }

    /// What waiting for the end of request `id` gives, on a connection that
    /// has `stream` before it: the outcome of the request, or the failure
    /// that came first; what is held afterwards; and what is left of the
    /// stream.
    ///
    /// A request that has ended gives its outcome at once and is forgotten.
    /// A request that is not known is a failure: `RequestIdNotFound`.
    /// Otherwise records are taken from the stream and routed, those of
    /// other requests too, until the request has ended or the connection
    /// fails.
    #[verifier::opaque]
    pub open spec fn receive(self, stream: Seq<u8>, id: u16) -> (
        Result<Result<ResponseView, ClientError>, ClientError>,
        DemuxView,
        Seq<u8>,
    )
        decreases stream.len(),
    {
        if self.finished.contains_key(id) {
            (Ok(self.finished[id]), self.forget(id), stream)
        } else if !self.pending.contains_key(id) {
            (Err(ClientError::RequestIdNotFound { id }), self, stream)
        } else {
            match Header::spec_from_stream(stream) {
                None => (Err(unexpected_eof()), self, Seq::empty()),
                Some(header) => {
                    let routed = self.route(header, stream.skip(HEADER_LEN as int));
                    match routed.0 {
                        Err(e) => (Err(e), routed.1, routed.2),
                        Ok(_) => routed.1.receive(routed.2, id),
                    }
                },
            }
        }
    }
}

/// The outcome of waiting for a request, as sequences of octets.
pub open spec fn received_view(res: ClientResult<ClientResult<Response>>) -> Result<
    Result<ResponseView, ClientError>,
    ClientError,
> {
    match res {
        Ok(outcome) => Ok(result_view(outcome)),
        Err(e) => Err(e),
    }
}

/// The responses of the requests that share one connection. Records
/// arrive in any order of requests; each is added to the response of the
/// request whose id it carries.
pub struct Demultiplexer {
    pending: HashMap<u16, (Vec<u8>, Vec<u8>)>,
    finished: HashMap<u16, ClientResult<Response>>,
}

impl View for Demultiplexer {
    type V = DemuxView;

    closed spec fn view(&self) -> DemuxView {
        DemuxView {
            pending: Map::new(
                |id: u16| self.pending@.contains_key(id),
                |id: u16| (self.pending@[id].0@, self.pending@[id].1@),
            ),
            finished: Map::new(
                |id: u16| self.finished@.contains_key(id),
                |id: u16| result_view(self.finished@[id]),
            ),
        }
    }
}

impl Demultiplexer {
    /// A demultiplexer that knows no request.
    pub fn new() -> (demux: Self)
        ensures
            demux@ == DemuxView::empty(),
    {
        let demux = Demultiplexer { pending: HashMap::new(), finished: HashMap::new() };
        assert(demux@.pending =~= Map::empty());
        assert(demux@.finished =~= Map::empty());
        demux
    }

    /// Whether request `id` waits for the record that ends it.
    pub fn is_pending(&self, id: u16) -> (b: bool)
        ensures
            b == self@.pending.contains_key(id),
    {
        self.pending.contains_key(&id)
    }

    /// Whether request `id` has ended and its outcome has not been asked
    /// for yet.
    pub fn is_finished(&self, id: u16) -> (b: bool)
        ensures
            b == self@.finished.contains_key(id),
    {
        self.finished.contains_key(&id)
    }

    /// Takes note that request `id` was sent. Says whether the request is
    /// new; one that is known already stays as it is.
    pub fn begin(&mut self, id: u16) -> (fresh: bool)
        ensures
            fresh == !old(self)@.tracks(id),
            final(self)@ == old(self)@.begin(id),
    {
        if self.pending.contains_key(&id) || self.finished.contains_key(&id) {
            false
        } else {
            self.pending.insert(id, (Vec::new(), Vec::new()));
            assert(self@.pending =~= old(self)@.pending.insert(id, (Seq::empty(), Seq::empty())));
            assert(self@.finished =~= old(self)@.finished);
            true
        }
    }

    /// Tells from the header alone whether a record can be taken:
    /// `RequestIdNotFound` where its request does not wait for its end,
    /// `UnknownRequestType` where its type is never valid in a response.
    pub fn check_header(&self, header: &Header) -> (res: ClientResult<()>)
        ensures
            res == self@.check_header(*header),
    {
        if !self.pending.contains_key(&header.request_id) {
            return Err(ClientError::RequestIdNotFound { id: header.request_id });
        }
        ResponseAccumulator::new(header.request_id).check_header(header)
    }

    /// Takes one record. `header` is the header of the record, and
    /// `reader` stands right after it. The record goes to the request whose
    /// id it carries; an error is a failure of the connection.
    pub fn on_record(&mut self, header: &Header, reader: &mut SliceReader) -> (res: ClientResult<
        (),
    >)
        ensures
            res == old(self)@.route(*header, old(reader)@).0,
            final(self)@ == old(self)@.route(*header, old(reader)@).1,
            final(reader)@ == old(self)@.route(*header, old(reader)@).2,
    {
        let id = header.request_id;
        let (stdout, stderr) = match self.pending.remove(&id) {
            Some(buffers) => buffers,
            None => {
                assert(self@.pending =~= old(self)@.pending);
                return Err(ClientError::RequestIdNotFound { id });
            },
        };
        assert(self@.pending =~= old(self)@.pending.remove(id));
        let acc = ResponseAccumulator { id, stdout, stderr };
        match acc.on_record(header, reader) {
            Ok(Progress::More(acc)) => {
                self.pending.insert(id, (acc.stdout, acc.stderr));
                assert(self@.pending =~= old(self)@.pending.insert(id, (acc.stdout@, acc.stderr@)));
                Ok(())
            },
            Ok(Progress::Done(result)) => {
                let ghost outcome = result_view(result);
                self.finished.insert(id, result);
                assert(self@.finished =~= old(self)@.finished.insert(id, outcome));
                Ok(())
            },
            Err(e) => Err(e),
        }
    }

    /// Forgets request `id`, with all that has arrived for it.
    pub fn forget(&mut self, id: u16)
        ensures
            final(self)@ == old(self)@.forget(id),
    {
        self.finished.remove(&id);
        self.pending.remove(&id);
        assert(self@.finished =~= old(self)@.finished.remove(id));
        assert(self@.pending =~= old(self)@.pending.remove(id));
    }

    /// Hands over the outcome of request `id` if the request has ended, and
    /// forgets the request.
    pub fn take(&mut self, id: u16) -> (res: Option<ClientResult<Response>>)
        ensures
            match res {
                Some(outcome) => old(self)@.finished.contains_key(id) && result_view(outcome)
                    == old(self)@.finished[id] && final(self)@ == old(self)@.forget(id),
                None => !old(self)@.finished.contains_key(id) && final(self)@ == old(self)@,
            },
    {
        if !self.finished.contains_key(&id) {
            return None;
        }
        let res = self.finished.remove(&id);
        self.pending.remove(&id);
        assert(self@.finished =~= old(self)@.finished.remove(id));
        assert(self@.pending =~= old(self)@.pending.remove(id));
        res
    }

    /// Waits for the end of request `id`: takes records from `reader` and
    /// routes them, those of other requests too, until the request has
    /// ended. Gives the outcome of the request, or the failure of the
    /// connection that came first.
    pub fn receive(&mut self, reader: &mut SliceReader, id: u16) -> (res: ClientResult<
        ClientResult<Response>,
    >)
        ensures
            received_view(res) == old(self)@.receive(old(reader)@, id).0,
            final(self)@ == old(self)@.receive(old(reader)@, id).1,
            final(reader)@ == old(self)@.receive(old(reader)@, id).2,
    {
        loop
            invariant
                self@.receive(reader@, id) == old(self)@.receive(old(reader)@, id),
            decreases reader@.len(),
        {
            proof {
                reveal(DemuxView::receive);
            }
            if let Some(outcome) = self.take(id) {
                return Ok(outcome);
            }
            if !self.is_pending(id) {
                return Err(ClientError::RequestIdNotFound { id });
            }
            let header = match Header::new_from_stream(reader) {
                Ok(header) => header,
                Err(e) => {
                    return Err(e);
                },
            };
            if let Err(e) = self.on_record(&header, reader) {
                return Err(e);
            }
        }
    }
}

/// The records that carry chunks of output for several requests, in
/// order. A chunk is the id of its request, whether it goes to standard
/// error rather than standard output, and its content.
pub open spec fn routed_records(chunks: Seq<(u16, bool, Seq<u8>)>) -> Seq<u8>
    decreases chunks.len(),
{
    if chunks.len() == 0 {
        Seq::empty()
    } else {
        Header::spec_new(
            if chunks[0].1 {
                RequestType::Stderr
            } else {
                RequestType::Stdout
            },
            chunks[0].0,
            chunks[0].2.len(),
        ).record(chunks[0].2) + routed_records(chunks.drop_first())
    }
}

/// The contents of the chunks that go to one of the two streams of request
/// `id`, joined in order.
pub open spec fn collected_for(chunks: Seq<(u16, bool, Seq<u8>)>, id: u16, to_stderr: bool) -> Seq<
    u8,
>
    decreases chunks.len(),
{
    if chunks.len() == 0 {
        Seq::empty()
    } else if chunks[0].0 == id && chunks[0].1 == to_stderr {
        chunks[0].2 + collected_for(chunks.drop_first(), id, to_stderr)
    } else {
        collected_for(chunks.drop_first(), id, to_stderr)
    }
}

/// The output of the waiting requests after the chunks have arrived: each
/// request has, behind what it had, the chunks that carry its id.
pub open spec fn with_chunks(
    pending: Map<u16, (Seq<u8>, Seq<u8>)>,
    chunks: Seq<(u16, bool, Seq<u8>)>,
) -> Map<u16, (Seq<u8>, Seq<u8>)> {
    Map::new(
        |id: u16| pending.contains_key(id),
        |id: u16|
            (
                pending[id].0 + collected_for(chunks, id, false),
                pending[id].1 + collected_for(chunks, id, true),
            ),
    )
}

/// What has arrived for a stream of a request, then the first chunk if it
/// goes to that stream, then what the other chunks add, is what has arrived
/// and what all the chunks add.
proof fn lemma_chunk_joins(
    before: Seq<u8>,
    chunks: Seq<(u16, bool, Seq<u8>)>,
    id: u16,
    to_stderr: bool,
)
    requires
        chunks.len() > 0,
    ensures
        (if chunks[0].0 == id && chunks[0].1 == to_stderr {
            before + chunks[0].2
        } else {
            before
        }) + collected_for(chunks.drop_first(), id, to_stderr) == before + collected_for(
            chunks,
            id,
            to_stderr,
        ),
{
    let others = collected_for(chunks.drop_first(), id, to_stderr);
    if chunks[0].0 == id && chunks[0].1 == to_stderr {
        assert((before + chunks[0].2) + others =~= before + (chunks[0].2 + others));
    }
}

/// Waiting for a request on a stream that starts with a record of output
/// for a request that waits for its end: the content is added to what has
/// arrived for that request, and the wait goes on after the record.
proof fn lemma_receive_of_output(
    held: DemuxView,
    id: u16,
    chunk: (u16, bool, Seq<u8>),
    tail: Seq<u8>,
)
    requires
        held.pending.contains_key(id),
        !held.finished.contains_key(id),
        held.pending.contains_key(chunk.0),
        chunk.2.len() <= MAX_LENGTH,
    ensures
        ({
            let request_type = if chunk.1 {
                RequestType::Stderr
            } else {
                RequestType::Stdout
            };
            let before = held.pending[chunk.0];
            let after = if chunk.1 {
                (before.0, before.1 + chunk.2)
            } else {
                (before.0 + chunk.2, before.1)
            };
            held.receive(
                Header::spec_new(request_type, chunk.0, chunk.2.len()).record(chunk.2) + tail,
                id,
            ) == (DemuxView {
                pending: held.pending.insert(chunk.0, after),
                finished: held.finished,
            }).receive(tail, id)
        }),
{
    reveal(DemuxView::receive);
    let before = held.pending[chunk.0];
    lemma_effect_of_output(chunk.0, chunk.1, chunk.2, tail, before.0, before.1);
}

/// Waiting for a request on a stream that starts with the record that ends
/// it: the wait is over, with the outcome that the statuses give.
proof fn lemma_receive_of_end(
    held: DemuxView,
    id: u16,
    app_status: u32,
    protocol_status: ProtocolStatus,
    rest: Seq<u8>,
)
    requires
        held.pending.contains_key(id),
        !held.finished.contains_key(id),
    ensures
        held.receive(end_record(id, app_status, protocol_status) + rest, id) == (
            Ok::<Result<ResponseView, ClientError>, ClientError>(
                outcome_of(app_status, protocol_status, held.pending[id].0, held.pending[id].1),
            ),
            DemuxView { pending: held.pending.remove(id), finished: held.finished },
            rest,
        ),
{
    reveal(DemuxView::receive);
    let out = held.pending[id].0;
    let err = held.pending[id].1;
    lemma_effect_of_end(id, app_status, protocol_status, rest, out, err);
    let result = outcome_of(app_status, protocol_status, out, err);
    let ended = DemuxView {
        pending: held.pending.remove(id),
        finished: held.finished.insert(id, result),
    };
    assert(held.receive(end_record(id, app_status, protocol_status) + rest, id) == ended.receive(
        rest,
        id,
    ));
    assert(ended.finished.remove(id) =~= held.finished);
    assert(ended.pending.remove(id) =~= held.pending.remove(id));
}

/// The first chunk and then the others add to the waiting requests what
/// all the chunks add.
proof fn lemma_with_chunks_step(
    pending: Map<u16, (Seq<u8>, Seq<u8>)>,
    chunks: Seq<(u16, bool, Seq<u8>)>,
)
    requires
        chunks.len() > 0,
        pending.contains_key(chunks[0].0),
    ensures
        ({
            let before = pending[chunks[0].0];
            let after = if chunks[0].1 {
                (before.0, before.1 + chunks[0].2)
            } else {
                (before.0 + chunks[0].2, before.1)
            };
            with_chunks(pending.insert(chunks[0].0, after), chunks.drop_first()) == with_chunks(
                pending,
                chunks,
            )
        }),
{
    let before = pending[chunks[0].0];
    let after = if chunks[0].1 {
        (before.0, before.1 + chunks[0].2)
    } else {
        (before.0 + chunks[0].2, before.1)
    };
    let next = pending.insert(chunks[0].0, after);
    assert forall|k: u16| pending.contains_key(k) implies with_chunks(next, chunks.drop_first())[k]
        == with_chunks(pending, chunks)[k] by {
        lemma_chunk_joins(pending[k].0, chunks, k, false);
        lemma_chunk_joins(pending[k].1, chunks, k, true);
    }
    assert(with_chunks(next, chunks.drop_first()) =~= with_chunks(pending, chunks));
}

/// Without chunks the waiting requests have what they had.
proof fn lemma_with_no_chunks(
    pending: Map<u16, (Seq<u8>, Seq<u8>)>,
    chunks: Seq<(u16, bool, Seq<u8>)>,
)
    requires
        chunks.len() == 0,
    ensures
        with_chunks(pending, chunks) == pending,
{
    assert forall|k: u16| pending.contains_key(k) implies with_chunks(pending, chunks)[k]
        == pending[k] by {
        assert(pending[k].0 + collected_for(chunks, k, false) =~= pending[k].0);
        assert(pending[k].1 + collected_for(chunks, k, true) =~= pending[k].1);
    }
    assert(with_chunks(pending, chunks) =~= pending);
}

/// Records of several requests may arrive in any order, and each request
/// still gets its own output. Take any chunks of output for requests that
/// wait for their end, each of at most 65535 octets, sent as one record
/// each and followed by the record that ends request `id`. Waiting for
/// request `id` gives the outcome that the statuses of that record stand
/// for, with the contents of the chunks of request `id` joined in their
/// order behind what had arrived for it before. The other requests keep
/// waiting, each with its own chunks added, and nothing after the record
/// that ends request `id` is read.
pub proof fn lemma_receive_of_records(
    held: DemuxView,
    id: u16,
    chunks: Seq<(u16, bool, Seq<u8>)>,
    app_status: u32,
    protocol_status: ProtocolStatus,
    rest: Seq<u8>,
)
    requires
        held.pending.contains_key(id),
        !held.finished.contains_key(id),
        forall|i: int|
            0 <= i < chunks.len() ==> held.pending.contains_key((#[trigger] chunks[i]).0)
                && chunks[i].2.len() <= MAX_LENGTH,
    ensures
        held.receive(
            routed_records(chunks) + end_record(id, app_status, protocol_status) + rest,
            id,
        ) == (
            Ok::<Result<ResponseView, ClientError>, ClientError>(
                outcome_of(
                    app_status,
                    protocol_status,
                    held.pending[id].0 + collected_for(chunks, id, false),
                    held.pending[id].1 + collected_for(chunks, id, true),
                ),
            ),
            DemuxView {
                pending: with_chunks(held.pending, chunks).remove(id),
                finished: held.finished,
            },
            rest,
        ),
    decreases chunks.len(),
{
    let end = end_record(id, app_status, protocol_status);
    let stream = routed_records(chunks) + end + rest;
    if chunks.len() == 0 {
        assert(stream =~= end + rest);
        lemma_receive_of_end(held, id, app_status, protocol_status, rest);
        lemma_with_no_chunks(held.pending, chunks);
    } else {
        let first = chunks[0];
        let others = chunks.drop_first();
        let request_type = if first.1 {
            RequestType::Stderr
        } else {
            RequestType::Stdout
        };
        let tail = routed_records(others) + end + rest;
        assert(stream =~= Header::spec_new(request_type, first.0, first.2.len()).record(first.2)
            + tail);
        lemma_receive_of_output(held, id, first, tail);
        let before = held.pending[first.0];
        let after = if first.1 {
            (before.0, before.1 + first.2)
        } else {
            (before.0 + first.2, before.1)
        };
        let next = DemuxView {
            pending: held.pending.insert(first.0, after),
            finished: held.finished,
        };
        assert forall|i: int| 0 <= i < others.len() implies next.pending.contains_key(
            (#[trigger] others[i]).0,
        ) && others[i].2.len() <= MAX_LENGTH by {
            assert(others[i] == chunks[i + 1]);
        }
        lemma_receive_of_records(next, id, others, app_status, protocol_status, rest);
        lemma_with_chunks_step(held.pending, chunks);
        assert(with_chunks(next.pending, others)[id] == with_chunks(held.pending, chunks)[id]);
    }
}

/// Waiting for a request never looks back: what is left of the stream is
/// its end.
pub proof fn lemma_receive_rest(held: DemuxView, stream: Seq<u8>, id: u16)
    ensures
        held.receive(stream, id).2.len() <= stream.len(),
        held.receive(stream, id).2 == stream.skip(stream.len() - held.receive(stream, id).2.len()),
    decreases stream.len(),
{
    reveal(DemuxView::receive);
    let rest = held.receive(stream, id).2;
    if held.finished.contains_key(id) || !held.pending.contains_key(id) {
        assert(rest =~= stream.skip(0));
    } else {
        match Header::spec_from_stream(stream) {
            None => {
                assert(rest =~= stream.skip(stream.len() - rest.len()));
            },
            Some(header) => {
                let body = stream.skip(HEADER_LEN as int);
                let routed = held.route(header, body);
                assert(routed.2.len() <= body.len());
                assert(routed.2 =~= stream.skip(stream.len() - routed.2.len()));
                match routed.0 {
                    Ok(_) => {
                        lemma_receive_rest(routed.1, routed.2, id);
                        assert(rest =~= stream.skip(stream.len() - rest.len()));
                    },
                    Err(_) => {},
                }
            },
        }
    }
}

/// Waiting for a request makes no request known that was not known before;
/// and where the wait ends with the outcome of the request, that request is
/// not known any more.
pub proof fn lemma_receive_tracks(held: DemuxView, stream: Seq<u8>, id: u16)
    ensures
        forall|k: u16| #[trigger] held.receive(stream, id).1.tracks(k) ==> held.tracks(k),
        held.receive(stream, id).0 is Ok ==> !held.receive(stream, id).1.tracks(id),
    decreases stream.len(),
{
    reveal(DemuxView::receive);
    if held.finished.contains_key(id) || !held.pending.contains_key(id) {
    } else {
        match Header::spec_from_stream(stream) {
            None => {},
            Some(header) => {
                let routed = held.route(header, stream.skip(HEADER_LEN as int));
                assert forall|k: u16| #[trigger] routed.1.tracks(k) implies held.tracks(k) by {}
                match routed.0 {
                    Ok(_) => {
                        lemma_receive_tracks(routed.1, routed.2, id);
                    },
                    Err(_) => {},
                }
            },
        }
    }
}

} // verus!
