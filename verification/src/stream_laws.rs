//! What holds of the data that a response yields.

use crate::body::{
    are_placed, covers, data_covers, is_data_of, is_part_of, is_placed, joined,
    law_parts_join_to_range, law_placed_data_covers, law_placed_data_is_of_object, GetBodyPart,
    ReceivedData,
};
use crate::client::{law_chunk_data_covers, S3CrtClient};
use crate::error::Headers;
use crate::event::{
    event_parts, events_of, law_parts_reported_in_order, reported_parts, Report, S3GetObjectEvent,
};
use crate::request::GetObjectParams;
use crate::response::{
    law_parts_yielded_in_order, received_events, yielded_parts, ResponseStep, S3GetObjectResponse,
};
use crate::single::{
    is_redirect_chain, law_redirects_keep_options, GetObjectSingle, RedirectInfo,
};
use crate::split::{SplitEvent, SplitWorker};
use crate::split_laws::{
    chunks_deliver, end_of, first_headers, follows_chunk, forwarded, has_ended, is_fresh, is_run,
    last_action, law_chunks_deliver, law_opened_within_range, law_parts_forwarded_in_order,
    law_range_bytes_delivered, law_received_parts_come_from_chunks, law_requests_match_chunks,
    merged, opened, parts_from, position, received, requested,
};
use std::ops::Range;
use vstd::prelude::*;

verus! {

/// Leaving out a first event that is not a part leaves the parts as they are.
proof fn lemma_parts_after_first<S, E>(events: Seq<S3GetObjectEvent<S, E>>)
    requires
        events.len() > 0,
        !(events[0] is BodyPart),
    ensures
        event_parts(events.skip(1)) == event_parts(events),
    decreases events.len(),
{
    let rest = events.skip(1);
    if events.len() == 1 {
        assert(events.drop_last() =~= seq![]);
        assert(rest =~= seq![]);
    } else {
        lemma_parts_after_first(events.drop_last());
        assert(rest.drop_last() =~= events.drop_last().skip(1));
        assert(rest.last() == events.last());
    }
}

proof fn lemma_parts_of_merged<S, E>(headers: Headers, parts: Seq<GetBodyPart>)
    ensures
        event_parts(merged::<S, E>(headers, parts)) == parts,
    decreases parts.len(),
{
    let events = merged::<S, E>(headers, parts);
    if parts.len() == 0 {
        assert(events.drop_last() =~= seq![]);
        assert(event_parts(events.drop_last()) =~= parts);
    } else {
        lemma_parts_of_merged::<S, E>(headers, parts.drop_last());
        assert(events.drop_last() =~= merged(headers, parts.drop_last()));
        assert(events.last() == S3GetObjectEvent::<S, E>::BodyPart(parts.last()));
        assert(parts =~= parts.drop_last().push(parts.last()));
    }
}

/// A response that is not merged from chunks yields the object's bytes from `start` to `end`, if
/// the runtime reports parts that cover these bytes one after another and that hold what the object
/// has there. The first event holds the headers; the response receives the others, with anything
/// else happening in between.
pub proof fn law_single_yields_object<S, E>(
    reports: Seq<Report<S, E>>,
    response: S3GetObjectResponse,
    steps: Seq<ResponseStep<S, E>>,
    start: int,
    end: int,
    object: Seq<u8>,
)
    requires
        events_of(reports).len() > 0,
        events_of(reports)[0] is Headers,
        received_events(steps) == events_of(reports).skip(1),
        0 <= start <= object.len(),
        covers(reported_parts(reports), start, end),
        forall|i: int|
            0 <= i < reported_parts(reports).len() ==> is_part_of(
                #[trigger] reported_parts(reports)[i],
                object,
            ),
    ensures
        joined(yielded_parts(response, steps)) == object.subrange(start, end),
{
    law_parts_yielded_in_order(response, steps);
    lemma_parts_after_first(events_of(reports));
    law_parts_reported_in_order(reports);
    law_parts_join_to_range(reported_parts(reports), start, end, object);
}

/// The response of a split request yields the object's bytes of the range, if each chunk delivers
/// its bytes in order and all of them, as parts that hold what the object has there: at any time
/// the bytes up to some point, and all of them when the worker has ended the events without an
/// error. The first event that is forwarded holds the headers; the response receives the others,
/// with anything else happening in between.
pub proof fn law_split_yields_object<S, E>(
    worker: SplitWorker,
    events: Seq<SplitEvent<S, E>>,
    response: S3GetObjectResponse,
    steps: Seq<ResponseStep<S, E>>,
    object: Seq<u8>,
)
    requires
        is_fresh(worker),
        worker.offset <= worker.end <= object.len(),
        is_run(worker, events),
        chunks_deliver(worker, events),
        forall|i: int|
            0 <= i < received(events).len() ==> is_part_of(#[trigger] received(events)[i], object),
        forwarded(worker, events).len() > 0,
        received_events(steps) == forwarded(worker, events).skip(1),
    ensures
        joined(yielded_parts(response, steps)) == object.subrange(
            worker.offset as int,
            position(worker, events),
        ),
        events.len() > 0 && last_action(worker, events) is Close ==> joined(
            yielded_parts(response, steps),
        ) == object.subrange(worker.offset as int, worker.end as int),
{
    law_parts_yielded_in_order(response, steps);
    law_parts_forwarded_in_order(worker, events);
    let headers = first_headers(events)->0;
    lemma_parts_after_first(forwarded(worker, events));
    lemma_parts_of_merged::<S, E>(headers, received(events));
    law_range_bytes_delivered(worker, events, object);
}

/// A request that is not split, from what the runtime receives to the bytes that the response
/// yields: if the received data covers the bytes from `start` to `end` one after another and is what
/// the object has there, and each report holds data placed with the adjustment of the request, the
/// response yields these bytes. This holds however many redirects the request has followed.
pub proof fn law_single_reads_object<S, E>(
    client: S3CrtClient,
    bucket: Seq<char>,
    key: Seq<char>,
    params: GetObjectParams,
    states: Seq<GetObjectSingle>,
    redirect_events: Seq<Option<S3GetObjectEvent<S, E>>>,
    redirects: Seq<RedirectInfo>,
    data: Seq<ReceivedData>,
    reports: Seq<Report<S, E>>,
    response: S3GetObjectResponse,
    steps: Seq<ResponseStep<S, E>>,
    start: int,
    end: int,
    object: Seq<u8>,
)
    requires
        is_redirect_chain(states, redirect_events, redirects),
        states[0].is_new(client, bucket, key, params, false, false),
        0 <= start <= object.len(),
        data_covers(data, start, end),
        forall|i: int| 0 <= i < data.len() ==> is_data_of(#[trigger] data[i], object),
        are_placed(
            reported_parts(reports),
            data,
            states.last().request_options().offset_adjustment,
        ),
        events_of(reports).len() > 0,
        events_of(reports)[0] is Headers,
        received_events(steps) == events_of(reports).skip(1),
    ensures
        joined(yielded_parts(response, steps)) == object.subrange(start, end),
{
    let parts = reported_parts(reports);
    law_redirects_keep_options(states, redirect_events, redirects);
    law_placed_data_covers(parts, data, 0, start, end);
    assert forall|i: int| 0 <= i < parts.len() implies is_part_of(#[trigger] parts[i], object) by {
        assert(is_placed(parts[i], data[i], 0));
        assert(object =~= object.subrange(0, object.len() as int));
        law_placed_data_is_of_object(parts[i], data[i], 0, object, object);
    }
    law_single_yields_object(reports, response, steps, start, end, object);
}

/// What happens to the request for one chunk.
pub struct ChunkRead<S, E> {
    /// The states that the request goes through by following redirects, with what it received in
    /// those that it left.
    pub states: Seq<GetObjectSingle>,
    pub redirect_events: Seq<Option<S3GetObjectEvent<S, E>>>,
    pub redirects: Seq<RedirectInfo>,
    /// What the runtime receives for the chunk, and how many bytes of the chunk that covers.
    pub data: Seq<ReceivedData>,
    pub len: int,
    /// What the runtime reports for the chunk.
    pub reports: Seq<Report<S, E>>,
    /// The response for the chunk, and what has happened to it so far.
    pub response: S3GetObjectResponse,
    pub steps: Seq<ResponseStep<S, E>>,
}

/// The events after the first one.
pub open spec fn later_events<S, E>(events: Seq<S3GetObjectEvent<S, E>>) -> Seq<
    S3GetObjectEvent<S, E>,
> {
    if events.len() == 0 {
        seq![]
    } else {
        events.skip(1)
    }
}

impl<S, E> ChunkRead<S, E> {
    /// Whether this is a faithful read of a chunk of an object, where `parts` is what the worker has
    /// received from the chunk and `ended` says whether the chunk has ended without an error.
    ///
    /// What the runtime receives covers the chunk from its start on, counted from 0, and is what the
    /// object has in the chunk. It is reported with the adjustment of the request, but not before
    /// the headers. The response for the chunk receives the events in order, and the worker receives
    /// what that response yields. A chunk that has ended was received completely.
    pub open spec fn is_faithful(
        self,
        request: GetObjectSingle,
        chunk: Range<u64>,
        parts: Seq<GetBodyPart>,
        ended: bool,
        object: Seq<u8>,
    ) -> bool {
        &&& is_redirect_chain(self.states, self.redirect_events, self.redirects)
        &&& self.states[0] == request
        &&& self.len <= chunk.end - chunk.start
        &&& data_covers(self.data, 0, self.len)
        &&& forall|k: int|
            0 <= k < self.data.len() ==> is_data_of(
                #[trigger] self.data[k],
                object.subrange(chunk.start as int, chunk.end as int),
            )
        &&& are_placed(
            reported_parts(self.reports),
            self.data,
            self.states.last().request_options().offset_adjustment,
        )
        &&& events_of(self.reports).len() > 0 ==> !(events_of(self.reports)[0] is BodyPart)
        &&& received_events(self.steps).is_prefix_of(later_events(events_of(self.reports)))
        &&& parts == yielded_parts(self.response, self.steps)
        &&& ended ==> {
            &&& self.len == chunk.end - chunk.start
            &&& received_events(self.steps) == later_events(events_of(self.reports))
        }
    }
}

/// The parts in the first of some events are the first of the parts in all of them.
proof fn lemma_parts_of_prefix<S, E>(
    first: Seq<S3GetObjectEvent<S, E>>,
    all: Seq<S3GetObjectEvent<S, E>>,
)
    requires
        first.is_prefix_of(all),
    ensures
        event_parts(first).is_prefix_of(event_parts(all)),
    decreases all.len(),
{
    if first.len() == all.len() {
        assert(first =~= all);
    } else {
        assert(first =~= all.drop_last().take(first.len() as int));
        lemma_parts_of_prefix(first, all.drop_last());
        let parts = event_parts(first);
        let before = event_parts(all.drop_last());
        assert(parts =~= event_parts(all).take(parts.len() as int)) by {
            assert(parts =~= before.take(parts.len() as int));
        }
    }
}

/// What the worker receives from a chunk that is read faithfully.
proof fn lemma_faithful_read<S, E>(
    worker: SplitWorker,
    read: ChunkRead<S, E>,
    chunk: Range<u64>,
    parts: Seq<GetBodyPart>,
    ended: bool,
    object: Seq<u8>,
)
    requires
        read.is_faithful(worker.chunk_request(chunk), chunk, parts, ended, object),
        chunk.start <= chunk.end <= object.len(),
    ensures
        follows_chunk(parts, ended, reported_parts(read.reports), chunk),
        forall|k: int| 0 <= k < parts.len() ==> is_part_of(#[trigger] parts[k], object),
{
    let all = reported_parts(read.reports);
    let events = events_of(read.reports);
    let body = object.subrange(chunk.start as int, chunk.end as int);
    law_chunk_data_covers(
        worker,
        chunk,
        read.states,
        read.redirect_events,
        read.redirects,
        read.data,
        all,
        read.len,
    );
    assert(end_of(all, chunk.start as int) == chunk.start + read.len);
    law_parts_reported_in_order(read.reports);
    if events.len() > 0 {
        lemma_parts_after_first(events);
    }
    assert(event_parts(later_events(events)) == all);
    law_parts_yielded_in_order(read.response, read.steps);
    lemma_parts_of_prefix(received_events(read.steps), later_events(events));
    assert forall|k: int| 0 <= k < parts.len() implies is_part_of(#[trigger] parts[k], object) by {
        assert(parts[k] == all[k]);
        assert(is_placed(all[k], read.data[k], chunk.start));
        assert(is_data_of(read.data[k], body));
        law_placed_data_is_of_object(all[k], read.data[k], chunk.start, body, object);
    }
}

/// If each chunk is read faithfully, each chunk delivers its bytes in order, and all of them before
/// it ends, and every part that the worker receives holds what the object has at its offset.
pub proof fn law_faithful_reads_deliver<S, E>(
    worker: SplitWorker,
    events: Seq<SplitEvent<S, E>>,
    reads: Seq<ChunkRead<S, E>>,
    object: Seq<u8>,
)
    requires
        is_fresh(worker),
        worker.end <= object.len(),
        is_run(worker, events),
        reads.len() == opened(worker, events).len(),
        forall|i: int|
            0 <= i < reads.len() ==> (#[trigger] reads[i]).is_faithful(
                requested(worker, events)[i],
                opened(worker, events)[i],
                parts_from(worker, events, i),
                has_ended(worker, events, i),
                object,
            ),
    ensures
        chunks_deliver(worker, events),
        forall|k: int|
            0 <= k < received(events).len() ==> is_part_of(#[trigger] received(events)[k], object),
{
    let reported = Seq::new(reads.len(), |i: int| reported_parts(reads[i].reports));
    law_requests_match_chunks(worker, events);
    law_opened_within_range(worker, events);
    assert forall|i: int| 0 <= i < opened(worker, events).len() implies #[trigger] follows_chunk(
        parts_from(worker, events, i),
        has_ended(worker, events, i),
        reported[i],
        opened(worker, events)[i],
    ) by {
        lemma_faithful_read(
            worker,
            reads[i],
            opened(worker, events)[i],
            parts_from(worker, events, i),
            has_ended(worker, events, i),
            object,
        );
    }
    law_chunks_deliver(worker, events, reported);
    assert forall|k: int| 0 <= k < received(events).len() implies is_part_of(
        #[trigger] received(events)[k],
        object,
    ) by {
        law_received_parts_come_from_chunks(worker, events, k);
        let (i, j) = choose|i: int, j: int|
            {
                &&& 0 <= i < opened(worker, events).len()
                &&& 0 <= j < parts_from(worker, events, i).len()
                &&& #[trigger] parts_from(worker, events, i)[j] == received(events)[k]
            };
        lemma_faithful_read(
            worker,
            reads[i],
            opened(worker, events)[i],
            parts_from(worker, events, i),
            has_ended(worker, events, i),
            object,
        );
        assert(is_part_of(parts_from(worker, events, i)[j], object));
    }
}

/// A request that is split, from what the runtime receives for each chunk to the bytes that the
/// merged response yields: if each chunk is read faithfully, these are the object's bytes of the
/// range, at any time those up to some point, and all of them when the worker has ended the events
/// without an error.
pub proof fn law_split_reads_object<S, E>(
    client: S3CrtClient,
    bucket: Seq<char>,
    key: Seq<char>,
    params: GetObjectParams,
    range: Range<u64>,
    worker: SplitWorker,
    events: Seq<SplitEvent<S, E>>,
    reads: Seq<ChunkRead<S, E>>,
    response: S3GetObjectResponse,
    steps: Seq<ResponseStep<S, E>>,
    object: Seq<u8>,
)
    requires
        worker.is_new(client, bucket, key, params),
        params.range == Some(range),
        range.start <= range.end <= object.len(),
        is_run(worker, events),
        reads.len() == opened(worker, events).len(),
        forall|i: int|
            0 <= i < reads.len() ==> (#[trigger] reads[i]).is_faithful(
                requested(worker, events)[i],
                opened(worker, events)[i],
                parts_from(worker, events, i),
                has_ended(worker, events, i),
                object,
            ),
        forwarded(worker, events).len() > 0,
        received_events(steps) == forwarded(worker, events).skip(1),
    ensures
        joined(yielded_parts(response, steps)) == object.subrange(
            range.start as int,
            position(worker, events),
        ),
        events.len() > 0 && last_action(worker, events) is Close ==> joined(
            yielded_parts(response, steps),
        ) == object.subrange(range.start as int, range.end as int),
{
    law_faithful_reads_deliver(worker, events, reads, object);
    law_split_yields_object(worker, events, response, steps, object);
}

} // verus!
