//! What is reported while a GetObject request is executed.

use crate::body::{content, is_placed, part_buffer, GetBodyPart, ReceivedData};
use crate::error::{Headers, ObjectClientError, S3RequestError};
use bytes::Bytes;
use vstd::prelude::*;

verus! {

/// Something that happened to a GetObject request.
#[derive(Debug)]
pub enum S3GetObjectEvent<S, E> {
    Headers(Headers),
    BodyPart(GetBodyPart),
    Error(ObjectClientError<S, S3RequestError<E>>),
}

/// Whether a status says that a request succeeded.
pub open spec fn is_success(status: i32) -> bool {
    200 <= status < 300
}

/// A report of the runtime that executes a request.
pub enum Report<S, E> {
    Headers(i32, Headers),
    Body(GetBodyPart),
    Finish(Result<(), ObjectClientError<S, S3RequestError<E>>>),
}

/// The event that a report leads to, if any, where `filter` says what came before.
pub open spec fn event_of<S, E>(filter: HeadersFilter, report: Report<S, E>) -> Option<
    S3GetObjectEvent<S, E>,
> {
    match report {
        Report::Headers(status, headers) => if is_success(status) && !filter.sent {
            Some(S3GetObjectEvent::Headers(headers))
        } else {
            None
        },
        Report::Body(part) => Some(S3GetObjectEvent::BodyPart(part)),
        Report::Finish(Err(error)) => Some(S3GetObjectEvent::Error(error)),
        Report::Finish(Ok(())) => None,
    }
}

/// Lets the headers of a response through once.
///
/// Headers can be received several times, but what is read from them does not change.
#[derive(Debug)]
pub struct HeadersFilter {
    /// Whether headers have been let through.
    pub sent: bool,
}

impl HeadersFilter {
    /// The filter after headers with the given status were received.
    pub open spec fn after(self, status: i32) -> Self {
        HeadersFilter { sent: self.sent || is_success(status) }
    }

    /// A filter that has not let any headers through.
    pub fn new() -> (filter: Self)
        ensures
            !filter.sent,
    {
        HeadersFilter { sent: false }
    }

    /// Handles headers that were received. The first ones of a successful response are reported.
    /// If only other ones arrive, the result of the request will be an error.
    pub fn on_headers<S, E>(&mut self, status: i32, headers: Headers) -> (event: Option<
        S3GetObjectEvent<S, E>,
    >)
        ensures
            *final(self) == old(self).after(status),
            event == event_of(*old(self), Report::<S, E>::Headers(status, headers)),
    {
        if 200 <= status && status < 300 && !self.sent {
            self.sent = true;
            Some(S3GetObjectEvent::Headers(headers))
        } else {
            None
        }
    }
}

/// The bytes that were received: those of `owned`, where their storage can be taken over.
pub open spec fn received_bytes(owned: Option<Bytes>, data: Seq<u8>) -> Seq<u8> {
    match owned {
        Some(taken) => content(taken),
        None => data,
    }
}

/// Whether an event reports data that was received.
pub open spec fn is_body_event<S, E>(
    event: S3GetObjectEvent<S, E>,
    offset: u64,
    offset_adjustment: u64,
    owned: Option<Bytes>,
    data: Seq<u8>,
) -> bool {
    event matches S3GetObjectEvent::BodyPart(part) && {
        &&& is_placed(
            part,
            ReceivedData { offset, bytes: received_bytes(owned, data) },
            offset_adjustment,
        )
        &&& owned matches Some(taken) ==> part.data == taken
    }
}

/// Handles data that was received. `offset` is where the runtime says the data starts;
/// `offset_adjustment` is what it leaves out of that. `owned` holds the data where its storage can
/// be taken over; otherwise the data is copied.
pub fn on_body<S, E>(
    offset: u64,
    offset_adjustment: u64,
    owned: Option<Bytes>,
    data: &[u8],
) -> (event: S3GetObjectEvent<S, E>)
    requires
        offset + offset_adjustment <= u64::MAX,
    ensures
        is_body_event(event, offset, offset_adjustment, owned, data@),
{
    S3GetObjectEvent::BodyPart(
        GetBodyPart { offset: offset + offset_adjustment, data: part_buffer(owned, data) },
    )
}

/// Handles the end of a request. Only a failure is reported.
pub fn on_finish<S, E>(result: Result<(), ObjectClientError<S, S3RequestError<E>>>) -> (event:
    Option<S3GetObjectEvent<S, E>>)
    ensures
        forall|filter: HeadersFilter| event == #[trigger] event_of(filter, Report::Finish(result)),
{
    match result {
        Ok(()) => None,
        Err(error) => Some(S3GetObjectEvent::Error(error)),
    }
}

/// The filter after a sequence of reports.
pub open spec fn filter_after<S, E>(reports: Seq<Report<S, E>>) -> HeadersFilter
    decreases reports.len(),
{
    if reports.len() == 0 {
        HeadersFilter { sent: false }
    } else {
        match reports.last() {
            Report::Headers(status, _) => filter_after(reports.drop_last()).after(status),
            _ => filter_after(reports.drop_last()),
        }
    }
}

/// The events that a sequence of reports leads to.
pub open spec fn events_of<S, E>(reports: Seq<Report<S, E>>) -> Seq<S3GetObjectEvent<S, E>>
    decreases reports.len(),
{
    if reports.len() == 0 {
        seq![]
    } else {
        let before = events_of(reports.drop_last());
        match event_of(filter_after(reports.drop_last()), reports.last()) {
            Some(event) => before.push(event),
            None => before,
        }
    }
}

/// The headers of a response are reported at most once.
pub proof fn law_headers_reported_once<S, E>(reports: Seq<Report<S, E>>, i: int, j: int)
    requires
        0 <= i < events_of(reports).len(),
        0 <= j < events_of(reports).len(),
        events_of(reports)[i] is Headers,
        events_of(reports)[j] is Headers,
    ensures
        i == j,
{
    lemma_headers_unique(reports);
}

/// Once the headers are the first thing that was reported, no later event holds headers.
pub proof fn law_no_headers_after_the_first<S, E>(reports: Seq<Report<S, E>>, i: int)
    requires
        0 < i < events_of(reports).len(),
        events_of(reports)[0] is Headers,
    ensures
        !(events_of(reports)[i] is Headers),
{
    lemma_headers_unique(reports);
}

/// The headers that are reported are the first ones that came with a successful status.
pub proof fn law_first_successful_headers<S, E>(reports: Seq<Report<S, E>>, i: int)
    requires
        0 <= i < events_of(reports).len(),
        events_of(reports)[i] is Headers,
    ensures
        exists|k: int|
            {
                &&& 0 <= k < reports.len()
                &&& #[trigger] reports[k] matches Report::Headers(status, headers)
                &&& is_success(status)
                &&& events_of(reports)[i] == S3GetObjectEvent::<S, E>::Headers(headers)
                &&& forall|j: int|
                    0 <= j < k ==> !(#[trigger] reports[j] matches Report::Headers(s, _)
                        && is_success(s))
            },
    decreases reports.len(),
{
    let before = reports.drop_last();
    let old_events = events_of(before);
    if i < old_events.len() {
        assert(events_of(reports)[i] == old_events[i]);
        law_first_successful_headers(before, i);
        let k = choose|k: int|
            {
                &&& 0 <= k < before.len()
                &&& #[trigger] before[k] matches Report::Headers(status, headers)
                &&& is_success(status)
                &&& old_events[i] == S3GetObjectEvent::<S, E>::Headers(headers)
                &&& forall|j: int|
                    0 <= j < k ==> !(#[trigger] before[j] matches Report::Headers(s, _)
                        && is_success(s))
            };
        assert(reports[k] == before[k]);
        assert forall|j: int| 0 <= j < k implies !(#[trigger] reports[j] matches Report::Headers(
            s,
            _,
        ) && is_success(s)) by {
            assert(reports[j] == before[j]);
        }
    } else {
        let k = reports.len() - 1;
        lemma_open_filter(before);
        assert(reports[k] == reports.last());
        assert forall|j: int| 0 <= j < k implies !(#[trigger] reports[j] matches Report::Headers(
            s,
            _,
        ) && is_success(s)) by {
            assert(reports[j] == before[j]);
        }
    }
}

/// A filter is open as long as no successful headers were received.
proof fn lemma_open_filter<S, E>(reports: Seq<Report<S, E>>)
    requires
        !filter_after(reports).sent,
    ensures
        forall|j: int|
            0 <= j < reports.len() ==> !(#[trigger] reports[j] matches Report::Headers(s, _)
                && is_success(s)),
    decreases reports.len(),
{
    if reports.len() > 0 {
        lemma_open_filter(reports.drop_last());
        assert forall|j: int| 0 <= j < reports.len() implies !(
        #[trigger] reports[j] matches Report::Headers(s, _) && is_success(s)) by {
            if j < reports.len() - 1 {
                assert(reports[j] == reports.drop_last()[j]);
            }
        }
    }
}

proof fn lemma_filter_open_means_no_headers<S, E>(reports: Seq<Report<S, E>>)
    ensures
        !filter_after(reports).sent ==> forall|i: int|
            0 <= i < events_of(reports).len() ==> !(#[trigger] events_of(reports)[i] is Headers),
    decreases reports.len(),
{
    if reports.len() > 0 {
        lemma_filter_open_means_no_headers(reports.drop_last());
    }
}

proof fn lemma_headers_unique<S, E>(reports: Seq<Report<S, E>>)
    ensures
        forall|i: int, j: int|
            0 <= i < j < events_of(reports).len() && #[trigger] events_of(reports)[i] is Headers
                ==> !(#[trigger] events_of(reports)[j] is Headers),
    decreases reports.len(),
{
    if reports.len() > 0 {
        lemma_headers_unique(reports.drop_last());
        lemma_filter_open_means_no_headers(reports.drop_last());
        let events = events_of(reports);
        let before = events_of(reports.drop_last());
        assert forall|i: int, j: int|
            0 <= i < j < events.len() && #[trigger] events[i] is Headers implies !(
        #[trigger] events[j] is Headers) by {
            assert(events[i] == before[i]);
            if j < before.len() {
                assert(events[j] == before[j]);
            }
        }
    }
}

/// The parts in a sequence of reports.
pub open spec fn reported_parts<S, E>(reports: Seq<Report<S, E>>) -> Seq<GetBodyPart>
    decreases reports.len(),
{
    if reports.len() == 0 {
        seq![]
    } else {
        match reports.last() {
            Report::Body(part) => reported_parts(reports.drop_last()).push(part),
            _ => reported_parts(reports.drop_last()),
        }
    }
}

/// The parts in a sequence of events.
pub open spec fn event_parts<S, E>(events: Seq<S3GetObjectEvent<S, E>>) -> Seq<GetBodyPart>
    decreases events.len(),
{
    if events.len() == 0 {
        seq![]
    } else {
        match events.last() {
            S3GetObjectEvent::BodyPart(part) => event_parts(events.drop_last()).push(part),
            _ => event_parts(events.drop_last()),
        }
    }
}

/// All the parts that the runtime reports become events, unchanged and in the same order.
pub proof fn law_parts_reported_in_order<S, E>(reports: Seq<Report<S, E>>)
    ensures
        event_parts(events_of(reports)) == reported_parts(reports),
    decreases reports.len(),
{
    if reports.len() > 0 {
        law_parts_reported_in_order(reports.drop_last());
        let before = events_of(reports.drop_last());
        if let Some(event) = event_of(filter_after(reports.drop_last()), reports.last()) {
            assert(before.push(event).drop_last() =~= before);
        }
    }
}

/// Each report leads to its own event: headers to headers, if they are the first with a status from
/// 200 to 299; data to a part; a failure to an error. Nothing else is reported.
pub proof fn law_reports_become_events<S, E>(
    filter: HeadersFilter,
    status: i32,
    headers: Headers,
    part: GetBodyPart,
    error: ObjectClientError<S, S3RequestError<E>>,
)
    ensures
        200 <= status <= 299 && !filter.sent ==> event_of(
            filter,
            Report::<S, E>::Headers(status, headers),
        ) == Some(S3GetObjectEvent::<S, E>::Headers(headers)),
        status < 200 || status > 299 || filter.sent ==> event_of(
            filter,
            Report::<S, E>::Headers(status, headers),
        ) is None,
        event_of(filter, Report::<S, E>::Body(part)) == Some(
            S3GetObjectEvent::<S, E>::BodyPart(part),
        ),
        event_of(filter, Report::Finish(Err(error))) == Some(S3GetObjectEvent::Error(error)),
        event_of(filter, Report::<S, E>::Finish(Ok(()))) is None,
        filter.after(status).sent <==> filter.sent || 200 <= status <= 299,
{
}

/// Data that was received is reported as a part at its position within the object, with its bytes.
/// Storage that can be taken over is taken over.
pub proof fn law_body_event_holds_data<S, E>(
    event: S3GetObjectEvent<S, E>,
    offset: u64,
    offset_adjustment: u64,
    owned: Option<Bytes>,
    data: Seq<u8>,
)
    requires
        is_body_event(event, offset, offset_adjustment, owned, data),
    ensures
        event matches S3GetObjectEvent::BodyPart(part) && {
            &&& part.offset == offset + offset_adjustment
            &&& match owned {
                Some(taken) => part.data == taken,
                None => content(part.data) == data,
            }
        },
{
}

/// The first headers with a status from 200 to 299 are reported, whatever is received before and
/// after them.
pub proof fn law_successful_headers_are_reported<S, E>(
    reports: Seq<Report<S, E>>,
    k: int,
    status: i32,
    headers: Headers,
)
    requires
        0 <= k < reports.len(),
        reports[k] == Report::<S, E>::Headers(status, headers),
        200 <= status <= 299,
        forall|j: int|
            0 <= j < k ==> !(#[trigger] reports[j] matches Report::Headers(s, _) && 200 <= s
                <= 299),
    ensures
        exists|i: int|
            0 <= i < events_of(reports).len() && #[trigger] events_of(reports)[i]
                == S3GetObjectEvent::<S, E>::Headers(headers),
    decreases reports.len(),
{
    let before = reports.drop_last();
    let events = events_of(reports);
    if k < reports.len() - 1 {
        assert forall|j: int| 0 <= j < k implies !(#[trigger] before[j] matches Report::Headers(
            s,
            _,
        ) && 200 <= s <= 299) by {
            assert(before[j] == reports[j]);
        }
        law_successful_headers_are_reported(before, k, status, headers);
        let i = choose|i: int|
            0 <= i < events_of(before).len() && #[trigger] events_of(before)[i]
                == S3GetObjectEvent::<S, E>::Headers(headers);
        assert(events[i] == events_of(before)[i]);
    } else {
        lemma_filter_stays_open(before);
        assert(events == events_of(before).push(S3GetObjectEvent::Headers(headers)));
        assert(events[events.len() - 1] == S3GetObjectEvent::<S, E>::Headers(headers));
    }
}

proof fn lemma_filter_stays_open<S, E>(reports: Seq<Report<S, E>>)
    requires
        forall|j: int|
            0 <= j < reports.len() ==> !(#[trigger] reports[j] matches Report::Headers(s, _)
                && 200 <= s <= 299),
    ensures
        !filter_after(reports).sent,
    decreases reports.len(),
{
    if reports.len() > 0 {
        let before = reports.drop_last();
        assert forall|j: int| 0 <= j < before.len() implies !(
        #[trigger] before[j] matches Report::Headers(s, _) && 200 <= s <= 299) by {
            assert(before[j] == reports[j]);
        }
        lemma_filter_stays_open(before);
        assert(reports[reports.len() - 1] == reports.last());
    }
}

/// The failures in a sequence of reports.
pub open spec fn reported_failures<S, E>(reports: Seq<Report<S, E>>) -> Seq<
    ObjectClientError<S, S3RequestError<E>>,
>
    decreases reports.len(),
{
    if reports.len() == 0 {
        seq![]
    } else {
        match reports.last() {
            Report::Finish(Err(error)) => reported_failures(reports.drop_last()).push(error),
            _ => reported_failures(reports.drop_last()),
        }
    }
}

/// The errors in a sequence of events.
pub open spec fn event_errors<S, E>(events: Seq<S3GetObjectEvent<S, E>>) -> Seq<
    ObjectClientError<S, S3RequestError<E>>,
>
    decreases events.len(),
{
    if events.len() == 0 {
        seq![]
    } else {
        match events.last() {
            S3GetObjectEvent::Error(error) => event_errors(events.drop_last()).push(error),
            _ => event_errors(events.drop_last()),
        }
    }
}

/// All the failures that the runtime reports become events, unchanged and in the same order.
pub proof fn law_failures_reported_in_order<S, E>(reports: Seq<Report<S, E>>)
    ensures
        event_errors(events_of(reports)) == reported_failures(reports),
    decreases reports.len(),
{
    if reports.len() > 0 {
        law_failures_reported_in_order(reports.drop_last());
        let before = events_of(reports.drop_last());
        if let Some(event) = event_of(filter_after(reports.drop_last()), reports.last()) {
            assert(before.push(event).drop_last() =~= before);
        }
    }
}

} // verus!
