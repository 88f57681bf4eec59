//! A GetObject request for one range, with the redirects that it is answered with.

use crate::backpressure::S3BackpressureHandle;
use crate::client::S3CrtClient;
use crate::error::{
    Headers, MetaRequestResult, ObjectClientError, ResponseHeadersError, S3RequestError,
};
use crate::event::S3GetObjectEvent;
use crate::request::{
    build_message_steps, law_steps_set_headers, law_steps_set_target, message_steps, step_views,
    steps_set_header, ChecksumMode, GetObjectParams, MessageStep, MetaRequestOptions,
    MetaRequestType, OptionsView, RequestPlan,
};
use crate::response::{polled, PolledPart, ReceivedEvent, S3GetObjectResponse};
use crate::text::{decimal, lossy_utf8, text_view, utf8_text_lossy};
use vstd::prelude::*;
use vstd::utf8::{decode_utf8, valid_utf8};

verus! {

/// A GetObject request for one range.
#[derive(Debug)]
pub struct GetObjectSingle {
    pub client: S3CrtClient,
    pub bucket: String,
    pub key: String,
    pub params: GetObjectParams,
    /// Whether the runtime must not split the request into several ranged ones.
    pub use_default_request_type: bool,
    /// Whether the response has no flow control, because something around it has.
    pub disable_backpressure: bool,
    /// The number of redirects that have been followed.
    pub redirect_count: u32,
    /// Where the last redirect pointed to.
    pub redirect_location: Option<String>,
}

/// The header that says where a redirect points to.
pub const LOCATION_HEADER: &'static str = "Location";

/// What the client makes of an error response.
#[derive(Debug)]
pub struct RedirectInfo {
    /// Whether the status of the response is that of a redirect.
    pub is_redirect: bool,
    /// The value of the `LOCATION_HEADER` among the headers of the response.
    pub location: Option<Vec<u8>>,
}

/// What to do after the first event of a request.
#[derive(Debug)]
pub enum SingleOutcome<S, E> {
    /// Send the request again, to the location of the redirect.
    FollowRedirect,
    /// The response has begun.
    Respond(S3GetObjectResponse),
    /// The request has failed.
    Fail(ObjectClientError<S, S3RequestError<E>>),
}

/// The error response that an error stands for, if it stands for one.
pub open spec fn error_response<S, E>(error: ObjectClientError<S, S3RequestError<E>>) -> Option<
    MetaRequestResult,
> {
    match error {
        ObjectClientError::ClientError(S3RequestError::ResponseError(result)) => Some(result),
        _ => None,
    }
}

impl GetObjectSingle {
    /// Whether this request has just been made from the given arguments.
    pub open spec fn is_new(
        self,
        client: S3CrtClient,
        bucket: Seq<char>,
        key: Seq<char>,
        params: GetObjectParams,
        use_default_request_type: bool,
        disable_backpressure: bool,
    ) -> bool {
        &&& self.client == client
        &&& self.bucket@ == bucket
        &&& self.key@ == key
        &&& self.params == params
        &&& self.use_default_request_type == use_default_request_type
        &&& self.disable_backpressure == disable_backpressure
        &&& self.redirect_count == 0
        &&& self.redirect_location is None
    }

    /// No more redirects are followed than the client allows, and the location of the last one is
    /// known if any was followed.
    pub open spec fn wf(self) -> bool {
        &&& self.redirect_count <= self.client.redirect_limit()
        &&& self.redirect_location is Some <==> self.redirect_count > 0
    }

    /// Whether the response gets flow control.
    pub open spec fn has_backpressure(self) -> bool {
        self.client.enable_backpressure && !self.disable_backpressure
    }

    /// Whether the end of the read window that the response begins with can be computed.
    pub open spec fn window_fits(self) -> bool {
        self.has_backpressure() ==> self.params.first_offset()
            + self.client.initial_read_window_size <= u64::MAX
    }

    /// The options of the request.
    pub open spec fn request_options(self) -> OptionsView {
        if self.use_default_request_type {
            OptionsView {
                request_type: MetaRequestType::Default,
                operation_name: Some("GetObject"@),
                part_size: None,
                custom_id: self.params.custom_id,
                offset_adjustment: self.params.first_offset(),
            }
        } else {
            OptionsView {
                request_type: MetaRequestType::GetObject,
                operation_name: None,
                part_size: Some(self.client.read_part_size as u64),
                custom_id: self.params.custom_id,
                offset_adjustment: 0,
            }
        }
    }

    /// The response that begins with the given headers.
    pub open spec fn response(self, headers: Headers) -> S3GetObjectResponse {
        S3GetObjectResponse {
            requested_checksums: self.params.wants_checksums(),
            backpressure_handle: if self.has_backpressure() {
                Some(
                    S3BackpressureHandle {
                        read_window_end_offset: (self.params.first_offset()
                            + self.client.initial_read_window_size) as u64,
                        meta_request: true,
                    },
                )
            } else {
                None
            },
            headers,
            next_offset: self.params.first_offset(),
        }
    }

    /// Whether a response is a redirect that says where to go.
    pub open spec fn names_location(result: MetaRequestResult, redirect: RedirectInfo) -> bool {
        redirect.is_redirect && result.error_response_headers is Some && redirect.location is Some
    }

    /// Whether `after` is this request once it has followed a redirect to a location.
    pub open spec fn followed(self, location: Seq<u8>, after: Self) -> bool {
        &&& after.redirect_count == self.redirect_count + 1
        &&& after.redirect_location matches Some(text) && text@ == lossy_utf8(location) && (
        valid_utf8(location) ==> text@ == decode_utf8(location))
        &&& after.client == self.client
        &&& after.bucket == self.bucket
        &&& after.key == self.key
        &&& after.params == self.params
        &&& after.use_default_request_type == self.use_default_request_type
        &&& after.disable_backpressure == self.disable_backpressure
    }

    /// What the first event of the request leads to.
    pub open spec fn outcome<S, E>(
        self,
        event: Option<S3GetObjectEvent<S, E>>,
        redirect: RedirectInfo,
    ) -> SingleOutcome<S, E> {
        match event {
            Some(S3GetObjectEvent::Headers(headers)) => SingleOutcome::Respond(
                self.response(headers),
            ),
            Some(S3GetObjectEvent::Error(error)) => match error_response(error) {
                Some(result) if redirect.is_redirect => {
                    if self.redirect_count >= self.client.redirect_limit() {
                        SingleOutcome::Fail(
                            ObjectClientError::ClientError(
                                S3RequestError::MaxRedirectsExceeded(self.client.redirect_limit()),
                            ),
                        )
                    } else if Self::names_location(result, redirect) {
                        SingleOutcome::FollowRedirect
                    } else {
                        SingleOutcome::Fail(error)
                    }
                },
                _ => SingleOutcome::Fail(error),
            },
            _ => SingleOutcome::Fail(
                ObjectClientError::ClientError(
                    S3RequestError::InternalError(ResponseHeadersError::MissingHeaders),
                ),
            ),
        }
    }

    /// Whether `after` is what becomes of this request with its first event.
    pub open spec fn is_succeeded_by<S, E>(
        self,
        event: Option<S3GetObjectEvent<S, E>>,
        redirect: RedirectInfo,
        after: Self,
    ) -> bool {
        if self.outcome(event, redirect) is FollowRedirect {
            redirect.location matches Some(location) && self.followed(location@, after)
        } else {
            after == self
        }
    }

    /// Whether this is the request to send.
    pub open spec fn is_sent_as(self, plan: RequestPlan) -> bool {
        &&& plan.method@ == "GET"@
        &&& plan.bucket@ == self.bucket@
        &&& step_views(plan.steps@) == message_steps(
            self.params,
            self.key@,
            text_view(self.redirect_location),
        )
        &&& plan.options@ == self.request_options()
    }

    /// Whether the end of the read window that the response begins with can be computed.
    pub fn initial_window_fits(&self) -> (fits: bool)
        ensures
            fits == self.window_fits(),
    {
        !self.client.enable_backpressure || self.disable_backpressure || self.params.start_offset()
            <= u64::MAX - self.client.initial_read_window_size as u64
    }

    /// The request to send, to the object itself or to where the last redirect pointed.
    pub fn request(&self) -> (plan: RequestPlan)
        ensures
            self.is_sent_as(plan),
    {
        let options = if self.use_default_request_type {
            // The runtime reports offsets relative to the response with this type.
            MetaRequestOptions {
                request_type: MetaRequestType::Default,
                operation_name: Some("GetObject".to_owned()),
                part_size: None,
                custom_id: self.params.custom_id,
                offset_adjustment: self.params.start_offset(),
            }
        } else {
            MetaRequestOptions {
                request_type: MetaRequestType::GetObject,
                operation_name: None,
                part_size: Some(self.client.read_part_size as u64),
                custom_id: self.params.custom_id,
                offset_adjustment: 0,
            }
        };
        RequestPlan {
            method: "GET".to_owned(),
            bucket: self.bucket.clone(),
            steps: build_message_steps(
                &self.params,
                self.key.as_str(),
                &self.redirect_location,
            ),
            options,
        }
    }

    /// Handles the first event of the request, or `None` if the events ended without one.
    ///
    /// `redirect` describes the error response; it counts only where the event is one.
    pub fn on_first_event<S, E>(
        &mut self,
        event: Option<S3GetObjectEvent<S, E>>,
        redirect: RedirectInfo,
    ) -> (outcome: SingleOutcome<S, E>)
        requires
            old(self).wf(),
            event matches Some(S3GetObjectEvent::Headers(_)) ==> old(self).window_fits(),
        ensures
            outcome == old(self).outcome(event, redirect),
            final(self).wf(),
            outcome matches SingleOutcome::Respond(response) ==> response.wf(),
            old(self).is_succeeded_by(event, redirect, *final(self)),
    {
        match event {
            Some(S3GetObjectEvent::Headers(headers)) => {
                let next_offset = self.params.start_offset();
                let backpressure_handle = if self.client.enable_backpressure
                    && !self.disable_backpressure {
                    Some(
                        S3BackpressureHandle::new(
                            next_offset + self.client.initial_read_window_size as u64,
                        ),
                    )
                } else {
                    None
                };
                SingleOutcome::Respond(
                    S3GetObjectResponse {
                        requested_checksums: self.params.requested_checksums(),
                        backpressure_handle,
                        headers,
                        next_offset,
                    },
                )
            },
            Some(S3GetObjectEvent::Error(error)) => {
                let max_redirects = self.client.max_redirects_to_follow();
                if let ObjectClientError::ClientError(S3RequestError::ResponseError(result))
                    = &error {
                    if redirect.is_redirect && self.redirect_count < max_redirects
                        && result.error_response_headers.is_some() {
                        if let Some(location) = &redirect.location {
                            self.redirect_location = Some(utf8_text_lossy(location.as_slice()));
                            self.redirect_count = self.redirect_count + 1;
                            return SingleOutcome::FollowRedirect;
                        }
                    }
                    if redirect.is_redirect && self.redirect_count >= max_redirects {
                        return SingleOutcome::Fail(
                            ObjectClientError::ClientError(
                                S3RequestError::MaxRedirectsExceeded(max_redirects),
                            ),
                        );
                    }
                }
                SingleOutcome::Fail(error)
            },
            _ => {
                // If the headers were not received first, the request must have failed.
                SingleOutcome::Fail(
                    ObjectClientError::ClientError(
                        S3RequestError::InternalError(ResponseHeadersError::MissingHeaders),
                    ),
                )
            },
        }
    }
}

/// Whether a request went through these states by following a redirect after each but the last one.
/// `events` and `redirects` are what it received in the states that it left.
pub open spec fn is_redirect_chain<S, E>(
    states: Seq<GetObjectSingle>,
    events: Seq<Option<S3GetObjectEvent<S, E>>>,
    redirects: Seq<RedirectInfo>,
) -> bool {
    &&& states.len() == events.len() + 1
    &&& states.len() == redirects.len() + 1
    &&& forall|i: int|
        0 <= i < events.len() ==> {
            &&& (#[trigger] states[i]).outcome(events[i], redirects[i]) is FollowRedirect
            &&& redirects[i].location matches Some(location)
            &&& states[i].followed(location@, states[i + 1])
        }
}

/// A request follows no more redirects than the client allows. It is the same request throughout,
/// and it counts the redirects correctly.
pub proof fn law_redirects_bounded<S, E>(
    states: Seq<GetObjectSingle>,
    events: Seq<Option<S3GetObjectEvent<S, E>>>,
    redirects: Seq<RedirectInfo>,
)
    requires
        is_redirect_chain(states, events, redirects),
        states[0].redirect_count == 0,
    ensures
        events.len() <= states[0].client.redirect_limit(),
        states.last().redirect_count == events.len(),
        states.last().client == states[0].client,
        states.last().bucket == states[0].bucket,
        states.last().key == states[0].key,
        states.last().params == states[0].params,
        states.last().use_default_request_type == states[0].use_default_request_type,
        states.last().disable_backpressure == states[0].disable_backpressure,
    decreases events.len(),
{
    if events.len() > 0 {
        let n = events.len() - 1;
        assert forall|i: int| 0 <= i < n implies {
            &&& (#[trigger] states.drop_last()[i]).outcome(
                events.drop_last()[i],
                redirects.drop_last()[i],
            ) is FollowRedirect
            &&& redirects.drop_last()[i].location matches Some(location)
            &&& states.drop_last()[i].followed(location@, states.drop_last()[i + 1])
        } by {
            assert(states[i].outcome(events[i], redirects[i]) is FollowRedirect);
        }
        law_redirects_bounded(states.drop_last(), events.drop_last(), redirects.drop_last());
        assert(states[n].outcome(events[n], redirects[n]) is FollowRedirect);
    }
}

/// A request keeps its options when it follows redirects, so data is placed as without them.
pub proof fn law_redirects_keep_options<S, E>(
    states: Seq<GetObjectSingle>,
    events: Seq<Option<S3GetObjectEvent<S, E>>>,
    redirects: Seq<RedirectInfo>,
)
    requires
        is_redirect_chain(states, events, redirects),
        states[0].redirect_count == 0,
    ensures
        states.last().request_options() == states[0].request_options(),
{
    law_redirects_bounded(states, events, redirects);
}

/// A redirect that is received after as many as the client allows is answered with an error that
/// says how many that are. A client that does not follow redirects allows none.
pub proof fn law_redirect_limit<S, E>(
    request: GetObjectSingle,
    result: MetaRequestResult,
    redirect: RedirectInfo,
)
    requires
        request.wf(),
        redirect.is_redirect,
        request.redirect_count == request.client.redirect_limit()
            || !request.client.follow_redirects,
    ensures
        request.outcome(
            Some(
                S3GetObjectEvent::<S, E>::Error(
                    ObjectClientError::ClientError(S3RequestError::ResponseError(result)),
                ),
            ),
            redirect,
        ) == SingleOutcome::<S, E>::Fail(
            ObjectClientError::ClientError(
                S3RequestError::MaxRedirectsExceeded(request.client.redirect_limit()),
            ),
        ),
        !request.client.follow_redirects ==> request.client.redirect_limit() == 0,
{
}

/// A failure that is not a redirect, and a redirect below the limit that does not say where to go,
/// is passed on as it is.
pub proof fn law_other_failures_unchanged<S, E>(
    request: GetObjectSingle,
    error: ObjectClientError<S, S3RequestError<E>>,
    redirect: RedirectInfo,
)
    requires
        error_response(error) matches Some(result) ==> !redirect.is_redirect || (
        request.redirect_count < request.client.redirect_limit()
            && !GetObjectSingle::names_location(result, redirect)),
    ensures
        request.outcome(Some(S3GetObjectEvent::Error(error)), redirect) == SingleOutcome::Fail(
            error,
        ),
{
}

/// A redirect is followed exactly if the first event is an error response that is a redirect, has
/// headers and names a location, and the client follows redirects and has not yet followed as many
/// as it is set to. Nothing else about the response counts.
pub proof fn law_redirects_are_followed<S, E>(
    request: GetObjectSingle,
    event: Option<S3GetObjectEvent<S, E>>,
    redirect: RedirectInfo,
)
    ensures
        request.outcome(event, redirect) is FollowRedirect <==> {
            &&& match event {
                Some(S3GetObjectEvent::Error(ObjectClientError::ClientError(
                    S3RequestError::ResponseError(result),
                ))) => result.error_response_headers is Some,
                _ => false,
            }
            &&& redirect.is_redirect
            &&& redirect.location is Some
            &&& request.client.follow_redirects
            &&& request.redirect_count < request.client.max_redirects
        },
{
}

/// A request that follows a redirect counts it and goes to the location that the redirect names. It
/// is the same request otherwise. A request that does not follow a redirect does not change.
pub proof fn law_followed_redirects_lead_on<S, E>(
    request: GetObjectSingle,
    event: Option<S3GetObjectEvent<S, E>>,
    redirect: RedirectInfo,
    after: GetObjectSingle,
    plan: RequestPlan,
)
    requires
        request.is_succeeded_by(event, redirect, after),
        after.is_sent_as(plan),
    ensures
        request.outcome(event, redirect) is FollowRedirect ==> {
            &&& after.redirect_count == request.redirect_count + 1
            &&& redirect.location matches Some(location) && {
                &&& after.redirect_location matches Some(target) && target@ == lossy_utf8(
                    location@,
                )
                &&& plan.steps@[0] matches MessageStep::RedirectTo(target) && target@ == lossy_utf8(
                    location@,
                ) && (valid_utf8(location@) ==> target@ == decode_utf8(location@))
            }
        },
        !(request.outcome(event, redirect) is FollowRedirect) ==> after.redirect_count
            == request.redirect_count && after.redirect_location == request.redirect_location,
        after.client == request.client,
        after.bucket == request.bucket,
        after.key == request.key,
        after.params == request.params,
        after.use_default_request_type == request.use_default_request_type,
        after.disable_backpressure == request.disable_backpressure,
{
    assert(plan.steps@.len() > 0) by {
        assert(step_views(plan.steps@).len() == plan.steps@.len());
    }
    law_steps_set_target(after.params, after.key@, after.redirect_location, plan.steps@, 0, 0);
}

/// A redirect that cannot be followed, because the client follows none or has followed as many as it
/// is set to, is answered with an error that says how many that are.
pub proof fn law_redirects_beyond_the_limit_fail<S, E>(
    request: GetObjectSingle,
    result: MetaRequestResult,
    redirect: RedirectInfo,
)
    requires
        redirect.is_redirect,
        !request.client.follow_redirects || request.redirect_count
            >= request.client.max_redirects,
    ensures
        request.outcome(
            Some(
                S3GetObjectEvent::<S, E>::Error(
                    ObjectClientError::ClientError(S3RequestError::ResponseError(result)),
                ),
            ),
            redirect,
        ) matches SingleOutcome::Fail(
            ObjectClientError::ClientError(S3RequestError::MaxRedirectsExceeded(limit)),
        ) && limit == if request.client.follow_redirects {
            request.client.max_redirects
        } else {
            0
        },
{
}

/// Any other failure is passed on as it is: one that is no error response, one that is no redirect,
/// and a redirect that could be followed but does not say where to.
pub proof fn law_failures_are_passed_on<S, E>(
    request: GetObjectSingle,
    error: ObjectClientError<S, S3RequestError<E>>,
    redirect: RedirectInfo,
)
    requires
        match error {
            ObjectClientError::ClientError(S3RequestError::ResponseError(result)) => {
                ||| !redirect.is_redirect
                ||| request.client.follow_redirects && request.redirect_count
                    < request.client.max_redirects && (result.error_response_headers is None
                    || redirect.location is None)
            },
            _ => true,
        },
    ensures
        request.outcome(Some(S3GetObjectEvent::Error(error)), redirect) == SingleOutcome::Fail(
            error,
        ),
{
}

/// If data comes before the headers, or the events end without any, the headers are missing.
pub proof fn law_headers_have_to_come_first<S, E>(
    request: GetObjectSingle,
    event: Option<S3GetObjectEvent<S, E>>,
    redirect: RedirectInfo,
)
    requires
        event matches Some(first) ==> first is BodyPart,
    ensures
        request.outcome(event, redirect) matches SingleOutcome::Fail(
            ObjectClientError::ClientError(
                S3RequestError::InternalError(ResponseHeadersError::MissingHeaders),
            ),
        ),
{
}

/// Headers begin the response, whatever came before. It begins with the first byte of the range, or
/// of the object if there is none. With flow control, its window ends just as many bytes after that
/// as the client is set to begin with. So a poll that finds no event waits if that is more than
/// none, and fails if it is none.
pub proof fn law_headers_begin_the_response<S, E>(
    request: GetObjectSingle,
    headers: Headers,
    redirect: RedirectInfo,
    first: int,
)
    requires
        first == (match request.params.range {
            Some(range) => range.start as int,
            None => 0,
        }),
        first + request.client.initial_read_window_size <= u64::MAX
            || !request.client.enable_backpressure || request.disable_backpressure,
    ensures
        request.outcome(
            Some(S3GetObjectEvent::<S, E>::Headers(headers)),
            redirect,
        ) matches SingleOutcome::Respond(response) && {
            &&& response.headers == headers
            &&& response.next_offset == first
            &&& response.requested_checksums <==> request.params.checksum_mode == Some(
                ChecksumMode::Enabled,
            )
            &&& match response.backpressure_handle {
                Some(handle) => {
                    &&& request.client.enable_backpressure
                    &&& !request.disable_backpressure
                    &&& handle.meta_request
                    &&& handle.read_window_end_offset - first
                        == request.client.initial_read_window_size
                },
                None => !request.client.enable_backpressure || request.disable_backpressure,
            }
            &&& polled(response, ReceivedEvent::<S, E>::Pending).1 is Pending
                <==> request.client.initial_read_window_size > 0
                || !request.client.enable_backpressure || request.disable_backpressure
        },
{
}

/// The window that a response begins with can be computed exactly if there is no flow control or the
/// window ends at an offset.
pub proof fn law_window_fits_exactly(request: GetObjectSingle)
    ensures
        request.window_fits() <==> {
            ||| !request.client.enable_backpressure
            ||| request.disable_backpressure
            ||| match request.params.range {
                Some(range) => range.start + request.client.initial_read_window_size <= u64::MAX,
                None => request.client.initial_read_window_size <= u64::MAX,
            }
        },
{
}

/// A new request is for the object and the parameters that it was made from, and has followed no
/// redirect.
pub proof fn law_new_request(
    request: GetObjectSingle,
    client: S3CrtClient,
    bucket: Seq<char>,
    key: Seq<char>,
    params: GetObjectParams,
    use_default_request_type: bool,
    disable_backpressure: bool,
)
    requires
        request.is_new(
            client,
            bucket,
            key,
            params,
            use_default_request_type,
            disable_backpressure,
        ),
    ensures
        request.client == client,
        request.bucket@ == bucket,
        request.key@ == key,
        request.params == params,
        request.use_default_request_type == use_default_request_type,
        request.disable_backpressure == disable_backpressure,
        request.redirect_count == 0,
        request.redirect_location is None,
{
}

/// What is sent is a GET request to the bucket. It sets the headers that its parameters ask for, and
/// no others.
pub proof fn law_sent_headers(
    request: GetObjectSingle,
    plan: RequestPlan,
    name: Seq<char>,
    value: Seq<char>,
)
    requires
        request.is_sent_as(plan),
    ensures
        plan.method@ == "GET"@,
        plan.bucket@ == request.bucket@,
        steps_set_header(plan.steps@, name, value) <==> {
            ||| name == "accept"@ && value == "*/*"@
            ||| name == "x-amz-checksum-mode"@ && value == "enabled"@
                && request.params.checksum_mode == Some(ChecksumMode::Enabled)
            ||| name == "If-Match"@ && request.redirect_location is None && (
            request.params.if_match matches Some(etag) && value == etag@)
            ||| name == "Range"@ && (request.params.range matches Some(range) && value == "bytes="@
                + decimal(range.start as nat) + "-"@ + decimal(
                if range.end > 0 {
                    (range.end - 1) as nat
                } else {
                    0
                },
            ))
        },
{
    law_steps_set_headers(
        request.params,
        request.key@,
        request.redirect_location,
        plan.steps@,
        name,
        value,
    );
}

/// What is sent goes to where the last redirect pointed, and otherwise asks for the key. It does so
/// in its first and its last step, and in no other one, and sets no header twice.
pub proof fn law_sent_target(request: GetObjectSingle, plan: RequestPlan, i: int, j: int)
    requires
        request.is_sent_as(plan),
        0 <= i < plan.steps@.len(),
        0 <= j < plan.steps@.len(),
    ensures
        match plan.steps@[i] {
            MessageStep::RedirectTo(location) => i == 0 && (
            request.redirect_location matches Some(target) && location@ == target@),
            MessageStep::SetRequestPath(path) => i == plan.steps@.len() - 1
                && request.redirect_location is None && path@ == "/"@ + request.key@,
            MessageStep::SetHeader(name, _) => plan.steps@[j] matches MessageStep::SetHeader(
                other,
                _,
            ) && other@ == name@ ==> i == j,
        },
        request.redirect_location is Some ==> plan.steps@[0] is RedirectTo,
        request.redirect_location is None ==> plan.steps@.last() is SetRequestPath,
{
    law_steps_set_target(
        request.params,
        request.key@,
        request.redirect_location,
        plan.steps@,
        i,
        j,
    );
}

/// A request that the runtime must not split is executed with the default type, which has to name
/// its operation and may not say how large parts are; its data is counted from the start of the
/// range. Any other request may be split into parts of the size that the client is set to; its data
/// is counted from the start of the object. Both carry the identifier of the caller.
pub proof fn law_sent_options(request: GetObjectSingle, plan: RequestPlan)
    requires
        request.is_sent_as(plan),
    ensures
        plan.options.custom_id == request.params.custom_id,
        request.use_default_request_type ==> {
            &&& plan.options.request_type == MetaRequestType::Default
            &&& plan.options.operation_name matches Some(name) && name@ == "GetObject"@
            &&& plan.options.part_size is None
            &&& plan.options.offset_adjustment == match request.params.range {
                Some(range) => range.start,
                None => 0,
            }
        },
        !request.use_default_request_type ==> {
            &&& plan.options.request_type == MetaRequestType::GetObject
            &&& plan.options.operation_name is None
            &&& plan.options.part_size matches Some(size) && size == request.client.read_part_size
            &&& plan.options.offset_adjustment == 0
        },
{
}

/// A redirect says where it points to in the `Location` header.
pub proof fn law_location_header_name()
    ensures
        LOCATION_HEADER@ == "Location"@,
{
}

} // verus!
