//! How the client carries out GetObject requests.

use crate::backpressure::S3BackpressureHandle;
use crate::body::{
    are_placed, covers, data_covers, law_placed_data_covers, GetBodyPart, ReceivedData,
};
use crate::error::{Headers, ObjectClientError, ResponseHeadersError, S3RequestError};
use crate::event::S3GetObjectEvent;
use crate::request::{ChecksumMode, GetObjectParams};
use crate::response::{
    law_window_follows_calls, polled, response_after, PolledPart, ReceivedEvent, ResponseStep,
    S3GetObjectResponse,
};
use crate::single::{
    is_redirect_chain, law_redirects_bounded, law_redirects_keep_options, GetObjectSingle,
    RedirectInfo,
};
use crate::split::{SplitPhase, SplitWorker};
use crate::split_laws::{chunks, law_chunks_tile_range};
use std::ops::Range;
use vstd::prelude::*;

verus! {

/// The settings of a client that GetObject requests depend on.
#[derive(Debug, Clone, Copy)]
pub struct S3CrtClient {
    pub follow_redirects: bool,
    /// How many redirects are followed, where redirects are followed.
    pub max_redirects: u32,
    /// The size of the parts into which large requests are split.
    pub read_part_size: usize,
    pub enable_backpressure: bool,
    /// The size of the read window that a response begins with.
    pub initial_read_window_size: usize,
}

impl S3CrtClient {
    /// The number of redirects that a request may follow.
    pub open spec fn redirect_limit(self) -> u32 {
        if self.follow_redirects {
            self.max_redirects
        } else {
            0
        }
    }

    /// The number of redirects that a request may follow.
    pub fn max_redirects_to_follow(&self) -> (limit: u32)
        ensures
            limit == self.redirect_limit(),
    {
        if self.follow_redirects {
            self.max_redirects
        } else {
            0
        }
    }

    /// Begins a GetObject request for one range.
    ///
    /// With `use_default_request_type`, the runtime does not split the request into several ranged
    /// ones. With `disable_backpressure`, the response has no flow control.
    pub fn get_object_single(
        &self,
        bucket: &str,
        key: &str,
        params: &GetObjectParams,
        use_default_request_type: bool,
        disable_backpressure: bool,
    ) -> (request: GetObjectSingle)
        ensures
            request.is_new(
                *self,
                bucket@,
                key@,
                *params,
                use_default_request_type,
                disable_backpressure,
            ),
            request.wf(),
    {
        GetObjectSingle {
            client: *self,
            bucket: bucket.to_owned(),
            key: key.to_owned(),
            params: params.clone(),
            use_default_request_type,
            disable_backpressure,
            redirect_count: 0,
            redirect_location: None,
        }
    }

    /// Whether a request is split into one request per chunk of its range.
    ///
    /// This is needed where redirects are followed and the range is larger than a part: the runtime
    /// would send all its ranged requests to the target of the same redirect, but that target is
    /// good for one range only.
    pub open spec fn needs_split(self, params: GetObjectParams) -> bool {
        self.follow_redirects && (params.range matches Some(range) && range.end - range.start
            > self.read_part_size)
    }

    /// Whether this is how a GetObject request is carried out.
    pub open spec fn is_plan(
        self,
        bucket: Seq<char>,
        key: Seq<char>,
        params: GetObjectParams,
        plan: GetObjectPlan,
    ) -> bool {
        match plan {
            GetObjectPlan::Split(worker) => {
                &&& self.needs_split(params)
                &&& worker.is_new(self, bucket, key, params)
            },
            GetObjectPlan::Single(request) => {
                &&& !self.needs_split(params)
                &&& request.is_new(self, bucket, key, params, false, false)
                &&& request.wf()
            },
        }
    }

    /// Begins a GetObject request.
    pub fn get_object(&self, bucket: &str, key: &str, params: &GetObjectParams) -> (plan:
        GetObjectPlan)
        ensures
            self.is_plan(bucket@, key@, *params, plan),
    {
        if self.follow_redirects {
            if let Some(range) = &params.range {
                if range.end.saturating_sub(range.start) > self.read_part_size as u64 {
                    return GetObjectPlan::Split(self.get_object_split(bucket, key, params));
                }
            }
        }
        GetObjectPlan::Single(self.get_object_single(bucket, key, params, false, false))
    }

    /// Begins a GetObject request that is split into one request per chunk of its range.
    pub fn get_object_split(&self, bucket: &str, key: &str, params: &GetObjectParams) -> (worker:
        SplitWorker)
        requires
            params.range is Some,
        ensures
            worker.is_new(*self, bucket@, key@, *params),
    {
        let range = params.range.as_ref().unwrap();
        SplitWorker {
            client: *self,
            bucket: bucket.to_owned(),
            key: key.to_owned(),
            params: params.clone(),
            end: range.end,
            chunk_size: self.read_part_size as u64,
            offset: range.start,
            headers_sent: false,
            phase: SplitPhase::Start,
        }
    }

    /// The response of a split request that begins with the given headers. Its flow control, if it
    /// is enabled, allows unlimited reading.
    pub open spec fn split_response(
        self,
        params: GetObjectParams,
        headers: Headers,
    ) -> S3GetObjectResponse {
        S3GetObjectResponse {
            requested_checksums: params.wants_checksums(),
            backpressure_handle: if self.enable_backpressure {
                Some(S3BackpressureHandle { read_window_end_offset: u64::MAX, meta_request: false })
            } else {
                None
            },
            headers,
            next_offset: params.first_offset(),
        }
    }

    /// What the first event that a split request forwards leads to.
    pub open spec fn first_split_result<S, E>(
        self,
        params: GetObjectParams,
        event: Option<S3GetObjectEvent<S, E>>,
    ) -> Result<S3GetObjectResponse, ObjectClientError<S, S3RequestError<E>>> {
        match event {
            Some(S3GetObjectEvent::Headers(headers)) => Ok(self.split_response(params, headers)),
            Some(S3GetObjectEvent::Error(error)) => Err(error),
            _ => Err(
                ObjectClientError::<S, S3RequestError<E>>::ClientError(
                    S3RequestError::InternalError(ResponseHeadersError::MissingHeaders),
                ),
            ),
        }
    }

    /// Handles the first event that a split request forwards, or `None` if the events ended without
    /// one.
    pub fn on_first_split_event<S, E>(
        &self,
        params: &GetObjectParams,
        event: Option<S3GetObjectEvent<S, E>>,
    ) -> (response: Result<S3GetObjectResponse, ObjectClientError<S, S3RequestError<E>>>)
        ensures
            response == self.first_split_result(*params, event),
            response matches Ok(begun) ==> begun.wf(),
    {
        match event {
            Some(S3GetObjectEvent::Headers(headers)) => {
                let backpressure_handle = if self.enable_backpressure {
                    Some(S3BackpressureHandle::dummy())
                } else {
                    None
                };
                Ok(
                    S3GetObjectResponse {
                        requested_checksums: params.requested_checksums(),
                        backpressure_handle,
                        headers,
                        next_offset: params.start_offset(),
                    },
                )
            },
            Some(S3GetObjectEvent::Error(error)) => Err(error),
            _ => Err(
                ObjectClientError::ClientError(
                    S3RequestError::InternalError(ResponseHeadersError::MissingHeaders),
                ),
            ),
        }
    }
}

/// How a GetObject request is carried out.
#[derive(Debug)]
pub enum GetObjectPlan {
    /// As one request.
    Single(GetObjectSingle),
    /// As one request per chunk of its range.
    Split(SplitWorker),
}

/// A request is split only if there is more than one chunk to it, and none of the chunks would be
/// split again.
pub proof fn law_split_has_several_chunks(
    client: S3CrtClient,
    params: GetObjectParams,
    range: Range<u64>,
    i: int,
)
    requires
        client.read_part_size > 0,
        client.needs_split(params),
        params.range == Some(range),
    ensures
        chunks(range.start, range.end, client.read_part_size as u64).len() >= 2,
        0 <= i < chunks(range.start, range.end, client.read_part_size as u64).len()
            ==> !client.needs_split(
            (GetObjectParams {
                range: Some(chunks(range.start, range.end, client.read_part_size as u64)[i]),
                ..params
            }),
        ),
{
    let size = client.read_part_size as u64;
    law_chunks_tile_range(range.start, range.end, size);
    let all = chunks(range.start, range.end, size);
    if all.len() == 1 {
        assert(all[0] == all.last());
    }
}

/// The runtime counts the data of a chunk from the start of the chunk. If what it receives covers
/// the first `len` bytes of the chunk one after another, the parts that hold it, placed with the
/// adjustment of the request, cover these bytes at their position within the object. This holds
/// however many redirects the request for the chunk has followed.
pub proof fn law_chunk_data_covers<S, E>(
    worker: SplitWorker,
    chunk: Range<u64>,
    states: Seq<GetObjectSingle>,
    events: Seq<Option<S3GetObjectEvent<S, E>>>,
    redirects: Seq<RedirectInfo>,
    data: Seq<ReceivedData>,
    parts: Seq<GetBodyPart>,
    len: int,
)
    requires
        is_redirect_chain(states, events, redirects),
        states[0] == worker.chunk_request(chunk),
        data_covers(data, 0, len),
        are_placed(parts, data, states.last().request_options().offset_adjustment),
    ensures
        states.last().request_options().offset_adjustment == chunk.start,
        covers(parts, chunk.start as int, chunk.start + len),
        len == chunk.end - chunk.start ==> covers(parts, chunk.start as int, chunk.end as int),
{
    law_redirects_keep_options(states, events, redirects);
    law_placed_data_covers(parts, data, chunk.start, 0, len);
}

/// The request for a chunk is one for the same object, with the same parameters but for the range.
pub proof fn law_chunk_request_is_new(worker: SplitWorker, chunk: Range<u64>)
    ensures
        worker.chunk_request(chunk).is_new(
            worker.client,
            worker.bucket@,
            worker.key@,
            (GetObjectParams { range: Some(chunk), ..worker.params }),
            true,
            true,
        ),
        worker.chunk_request(chunk).wf(),
{
}

/// A response that is not merged from chunks has flow control, whenever it is asked for, if and
/// only if the client has it enabled, however many redirects led to the response.
pub proof fn law_single_handle_iff_enabled<S, E>(
    client: S3CrtClient,
    bucket: Seq<char>,
    key: Seq<char>,
    params: GetObjectParams,
    states: Seq<GetObjectSingle>,
    events: Seq<Option<S3GetObjectEvent<S, E>>>,
    redirects: Seq<RedirectInfo>,
    headers: Headers,
    steps: Seq<ResponseStep<S, E>>,
)
    requires
        is_redirect_chain(states, events, redirects),
        states[0].is_new(client, bucket, key, params, false, false),
    ensures
        response_after(states.last().response(headers), steps).backpressure_handle is Some
            <==> client.enable_backpressure,
{
    law_redirects_bounded(states, events, redirects);
    law_window_follows_calls(states.last().response(headers), steps);
}

/// The response of a split request has flow control, whenever it is asked for, if and only if the
/// client has it enabled.
pub proof fn law_split_handle_iff_enabled<S, E>(
    client: S3CrtClient,
    params: GetObjectParams,
    headers: Headers,
    steps: Seq<ResponseStep<S, E>>,
)
    ensures
        response_after(client.split_response(params, headers), steps).backpressure_handle is Some
            <==> client.enable_backpressure,
{
    law_window_follows_calls(client.split_response(params, headers), steps);
}

/// The response of a split request never fails for want of a read window, however it is read and
/// however its flow control is used.
pub proof fn law_split_response_never_blocks<S, E>(
    client: S3CrtClient,
    params: GetObjectParams,
    headers: Headers,
    steps: Seq<ResponseStep<S, E>>,
)
    ensures
        response_after(client.split_response(params, headers), steps).backpressure_handle
            == client.split_response(params, headers).backpressure_handle,
        polled(
            response_after(client.split_response(params, headers), steps),
            ReceivedEvent::<S, E>::Pending,
        ).1 == PolledPart::<S, E>::Pending,
    decreases steps.len(),
{
    if steps.len() > 0 {
        law_split_response_never_blocks(client, params, headers, steps.drop_last());
    }
}

/// A request is split exactly if redirects are followed and its range has more bytes than a part.
/// So it is carried out as one request only if redirects are not followed, if there is no range, or
/// if the range fits into one part.
pub proof fn law_split_exactly_if_larger_than_a_part(
    client: S3CrtClient,
    bucket: Seq<char>,
    key: Seq<char>,
    params: GetObjectParams,
    plan: GetObjectPlan,
)
    requires
        client.is_plan(bucket, key, params, plan),
    ensures
        plan is Split <==> client.follow_redirects && (params.range matches Some(range) && range.end
            - range.start > client.read_part_size),
{
}

/// However a request is carried out, it is for the object and the parameters that were given. As
/// one request, it is executed as the runtime sees fit, with flow control if the client has it, and
/// has followed no redirect yet. Split, it covers the range in chunks of the size of a part.
pub proof fn law_plan_is_for_the_request(
    client: S3CrtClient,
    bucket: Seq<char>,
    key: Seq<char>,
    params: GetObjectParams,
    plan: GetObjectPlan,
)
    requires
        client.is_plan(bucket, key, params, plan),
    ensures
        match plan {
            GetObjectPlan::Single(request) => {
                &&& request.client == client
                &&& request.bucket@ == bucket
                &&& request.key@ == key
                &&& request.params == params
                &&& !request.use_default_request_type
                &&& !request.disable_backpressure
                &&& request.redirect_count == 0
                &&& request.redirect_location is None
            },
            GetObjectPlan::Split(worker) => {
                &&& worker.client == client
                &&& worker.bucket@ == bucket
                &&& worker.key@ == key
                &&& worker.params == params
                &&& params.range matches Some(range) && range.start == worker.offset && range.end
                    == worker.end
                &&& worker.chunk_size == client.read_part_size
                &&& !worker.headers_sent
                &&& worker.phase == SplitPhase::Start
            },
        },
{
}

/// A client that follows redirects follows as many as it is set to; any other one follows none.
pub proof fn law_redirect_limit_is_as_set(client: S3CrtClient)
    ensures
        client.follow_redirects ==> client.redirect_limit() == client.max_redirects,
        !client.follow_redirects ==> client.redirect_limit() == 0,
{
}

/// A split request responds as soon as headers are forwarded, and only then. The response begins at
/// the start of the range, or of the object if there is none. A failure is passed on; if anything
/// else comes first, or nothing, the headers are missing.
pub proof fn law_first_split_event_decides<S, E>(
    client: S3CrtClient,
    params: GetObjectParams,
    event: Option<S3GetObjectEvent<S, E>>,
)
    ensures
        match event {
            Some(S3GetObjectEvent::Headers(headers)) => client.first_split_result(
                params,
                event,
            ) matches Ok(response) && {
                &&& response.headers == headers
                &&& params.range matches Some(range) ==> response.next_offset == range.start
                &&& params.range is None ==> response.next_offset == 0
                &&& response.requested_checksums <==> params.checksum_mode == Some(
                    ChecksumMode::Enabled,
                )
                &&& match response.backpressure_handle {
                    Some(handle) => client.enable_backpressure && !handle.meta_request
                        && handle.read_window_end_offset == u64::MAX,
                    None => !client.enable_backpressure,
                }
            },
            Some(S3GetObjectEvent::Error(error)) => client.first_split_result(params, event)
                == Err::<S3GetObjectResponse, _>(error),
            _ => client.first_split_result(params, event) matches Err(
                ObjectClientError::ClientError(
                    S3RequestError::InternalError(ResponseHeadersError::MissingHeaders),
                ),
            ),
        },
{
}

} // verus!
