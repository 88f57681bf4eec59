//! A GetObject request for a large range that is carried out as a sequence of requests for chunks.

use crate::body::GetBodyPart;
use crate::client::S3CrtClient;
use crate::error::{Headers, ObjectClientError, S3RequestError};
use crate::event::S3GetObjectEvent;
use crate::request::GetObjectParams;
use crate::single::GetObjectSingle;
use std::ops::Range;
use vstd::prelude::*;

verus! {

/// What the worker is waiting for.
#[derive(Debug, Clone, Copy, PartialEq, Eq, Structural)]
pub enum SplitPhase {
    /// To be started.
    Start,
    /// The response to the request for a chunk.
    Opening,
    /// The headers to be forwarded.
    SendingHeaders,
    /// The next part of the chunk.
    Reading,
    /// A part to be forwarded.
    SendingPart,
    /// Nothing.
    Finished,
}

/// Requests the chunks of a range one after another, and merges the responses into one.
#[derive(Debug)]
pub struct SplitWorker {
    pub client: S3CrtClient,
    pub bucket: String,
    pub key: String,
    /// The parameters of the whole request.
    pub params: GetObjectParams,
    /// The end of the range, exclusively.
    pub end: u64,
    /// The largest size of a chunk.
    pub chunk_size: u64,
    /// The start of the current chunk, or of the next one if there is none.
    pub offset: u64,
    /// Whether the headers of the first chunk have been forwarded.
    pub headers_sent: bool,
    pub phase: SplitPhase,
}

/// Something that the worker was waiting for.
#[derive(Debug)]
pub enum SplitEvent<S, E> {
    /// The worker is started.
    Start,
    /// The response to the request for a chunk has begun with these headers, or failed.
    Opened(Result<Headers, ObjectClientError<S, S3RequestError<E>>>),
    /// An event was forwarded, and whether there was still someone to receive it.
    Forwarded(bool),
    /// The next part of the chunk, a failure, or the end of the chunk.
    Part(Option<Result<GetBodyPart, ObjectClientError<S, S3RequestError<E>>>>),
}

/// What the worker wants done.
#[derive(Debug)]
pub enum SplitAction<S, E> {
    /// Carry out the request for a chunk.
    OpenChunk(GetObjectSingle),
    /// Forward an event.
    Forward(S3GetObjectEvent<S, E>),
    /// Get the next part of the chunk.
    ReadPart,
    /// Forward an error, whether or not there is someone to receive it, and end the events.
    Abort(ObjectClientError<S, S3RequestError<E>>),
    /// End the events.
    Close,
    /// Stop, as nobody receives the events any more.
    Exit,
}

/// The earlier of two offsets.
pub open spec fn earlier(a: int, b: int) -> int {
    if a <= b {
        a
    } else {
        b
    }
}

impl SplitWorker {
    /// Whether this is the worker for a request that has just begun.
    pub open spec fn is_new(
        self,
        client: S3CrtClient,
        bucket: Seq<char>,
        key: Seq<char>,
        params: GetObjectParams,
    ) -> bool {
        &&& self.client == client
        &&& self.bucket@ == bucket
        &&& self.key@ == key
        &&& self.params == params
        &&& params.range == Some(Range { start: self.offset, end: self.end })
        &&& self.chunk_size == client.read_part_size
        &&& !self.headers_sent
        &&& self.phase == SplitPhase::Start
    }

    /// The request for a chunk. It is a request of its own, so it follows its own redirects. The
    /// runtime must not split it any further, and flow control is left to the response that the
    /// chunks are merged into.
    pub open spec fn chunk_request(self, chunk: Range<u64>) -> GetObjectSingle {
        GetObjectSingle {
            client: self.client,
            bucket: self.bucket,
            key: self.key,
            params: GetObjectParams { range: Some(chunk), ..self.params },
            use_default_request_type: true,
            disable_backpressure: true,
            redirect_count: 0,
            redirect_location: None,
        }
    }

    /// The end of the chunk that starts at the current offset.
    pub open spec fn chunk_end(self) -> int {
        earlier(self.offset + self.chunk_size, self.end as int)
    }

    /// Whether the worker is waiting for an event of this kind.
    pub open spec fn expects<S, E>(self, event: SplitEvent<S, E>) -> bool {
        match event {
            SplitEvent::Start => self.phase == SplitPhase::Start,
            SplitEvent::Opened(_) => self.phase == SplitPhase::Opening,
            SplitEvent::Forwarded(_) => self.phase == SplitPhase::SendingHeaders || self.phase
                == SplitPhase::SendingPart,
            SplitEvent::Part(_) => self.phase == SplitPhase::Reading,
        }
    }

    /// This worker in another phase.
    pub open spec fn in_phase(self, phase: SplitPhase) -> Self {
        SplitWorker { phase, ..self }
    }

    /// This worker at the end of the current chunk.
    pub open spec fn past_chunk(self) -> Self {
        SplitWorker { offset: self.chunk_end() as u64, ..self }
    }

    /// The next chunk is requested unless the range has been read.
    pub open spec fn advanced<S, E>(self) -> (Self, SplitAction<S, E>) {
        if self.offset < self.end {
            (
                self.in_phase(SplitPhase::Opening),
                SplitAction::OpenChunk(
                    self.chunk_request(
                        Range { start: self.offset, end: self.chunk_end() as u64 },
                    ),
                ),
            )
        } else {
            (self.in_phase(SplitPhase::Finished), SplitAction::Close)
        }
    }

    /// What the worker becomes, and what it wants done, after an event that it expects.
    pub open spec fn stepped<S, E>(self, event: SplitEvent<S, E>) -> (Self, SplitAction<S, E>) {
        match event {
            SplitEvent::Start => self.advanced(),
            SplitEvent::Opened(Ok(headers)) => if self.headers_sent {
                (self.in_phase(SplitPhase::Reading), SplitAction::ReadPart)
            } else {
                (
                    self.in_phase(SplitPhase::SendingHeaders),
                    SplitAction::Forward(S3GetObjectEvent::Headers(headers)),
                )
            },
            SplitEvent::Forwarded(true) => (
                SplitWorker {
                    headers_sent: self.headers_sent || self.phase == SplitPhase::SendingHeaders,
                    phase: SplitPhase::Reading,
                    ..self
                },
                SplitAction::ReadPart,
            ),
            SplitEvent::Forwarded(false) => (
                self.in_phase(SplitPhase::Finished),
                SplitAction::Exit,
            ),
            SplitEvent::Part(Some(Ok(part))) => (
                self.in_phase(SplitPhase::SendingPart),
                SplitAction::Forward(S3GetObjectEvent::BodyPart(part)),
            ),
            SplitEvent::Part(None) => self.past_chunk().advanced(),
            SplitEvent::Opened(Err(error)) | SplitEvent::Part(Some(Err(error))) => (
                self.in_phase(SplitPhase::Finished),
                SplitAction::Abort(error),
            ),
        }
    }

    /// Whether the worker is waiting for an event of this kind.
    pub fn is_ready_for<S, E>(&self, event: &SplitEvent<S, E>) -> (ready: bool)
        ensures
            ready == self.expects(*event),
    {
        match event {
            SplitEvent::Start => self.phase == SplitPhase::Start,
            SplitEvent::Opened(_) => self.phase == SplitPhase::Opening,
            SplitEvent::Forwarded(_) => self.phase == SplitPhase::SendingHeaders || self.phase
                == SplitPhase::SendingPart,
            SplitEvent::Part(_) => self.phase == SplitPhase::Reading,
        }
    }

    fn current_chunk_end(&self) -> (end: u64)
        ensures
            end == self.chunk_end(),
    {
        if self.offset >= self.end || self.end - self.offset <= self.chunk_size {
            self.end
        } else {
            self.offset + self.chunk_size
        }
    }

    fn begin_chunk(&self, chunk: Range<u64>) -> (request: GetObjectSingle)
        ensures
            request == self.chunk_request(chunk),
    {
        GetObjectSingle {
            client: self.client,
            bucket: self.bucket.clone(),
            key: self.key.clone(),
            params: self.params.with_range(Some(chunk)),
            use_default_request_type: true,
            disable_backpressure: true,
            redirect_count: 0,
            redirect_location: None,
        }
    }

    fn advance<S, E>(&mut self) -> (action: SplitAction<S, E>)
        ensures
            (*final(self), action) == old(self).advanced::<S, E>(),
    {
        if self.offset < self.end {
            self.phase = SplitPhase::Opening;
            let chunk = Range { start: self.offset, end: self.current_chunk_end() };
            SplitAction::OpenChunk(self.begin_chunk(chunk))
        } else {
            self.phase = SplitPhase::Finished;
            SplitAction::Close
        }
    }

    /// Handles an event that the worker was waiting for.
    pub fn step<S, E>(&mut self, event: SplitEvent<S, E>) -> (action: SplitAction<S, E>)
        requires
            old(self).expects(event),
        ensures
            (*final(self), action) == old(self).stepped(event),
    {
        match event {
            SplitEvent::Start => self.advance(),
            SplitEvent::Opened(Ok(headers)) => {
                if self.headers_sent {
                    self.phase = SplitPhase::Reading;
                    SplitAction::ReadPart
                } else {
                    // Only the headers of the first chunk are forwarded.
                    self.phase = SplitPhase::SendingHeaders;
                    SplitAction::Forward(S3GetObjectEvent::Headers(headers))
                }
            },
            SplitEvent::Forwarded(received) => {
                if received {
                    if self.phase == SplitPhase::SendingHeaders {
                        self.headers_sent = true;
                    }
                    self.phase = SplitPhase::Reading;
                    SplitAction::ReadPart
                } else {
                    self.phase = SplitPhase::Finished;
                    SplitAction::Exit
                }
            },
            SplitEvent::Part(Some(Ok(part))) => {
                self.phase = SplitPhase::SendingPart;
                SplitAction::Forward(S3GetObjectEvent::BodyPart(part))
            },
            SplitEvent::Part(None) => {
                self.offset = self.current_chunk_end();
                self.advance()
            },
            SplitEvent::Opened(Err(error)) => {
                self.phase = SplitPhase::Finished;
                SplitAction::Abort(error)
            },
            SplitEvent::Part(Some(Err(error))) => {
                self.phase = SplitPhase::Finished;
                SplitAction::Abort(error)
            },
        }
    }
}

} // verus!
