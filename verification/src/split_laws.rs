//! What holds of every run of a split request.

use crate::body::{covers, is_part_of, joined, law_parts_join_to_range, GetBodyPart};
use crate::client::S3CrtClient;
use crate::error::{Headers, ObjectClientError, S3RequestError};
use crate::event::S3GetObjectEvent;
use crate::request::GetObjectParams;
use crate::single::GetObjectSingle;
use crate::split::{earlier, SplitAction, SplitEvent, SplitPhase, SplitWorker};
use std::ops::Range;
use vstd::prelude::*;

verus! {

/// The chunks of at most `chunk_size` bytes into which the range from `start` to `end` is split.
pub open spec fn chunks(start: u64, end: u64, chunk_size: u64) -> Seq<Range<u64>>
    decreases end - start,
{
    if start < end && chunk_size > 0 {
        let chunk_end = earlier(start + chunk_size, end as int) as u64;
        seq![Range { start, end: chunk_end }] + chunks(chunk_end, end, chunk_size)
    } else {
        seq![]
    }
}

/// The chunks of a range lie one after another, begin where the range begins and end where it ends.
/// None is empty, none is larger than allowed, and only the last one may be smaller.
pub proof fn law_chunks_tile_range(start: u64, end: u64, chunk_size: u64)
    requires
        start < end,
        chunk_size > 0,
    ensures
        chunks(start, end, chunk_size).len() > 0,
        chunks(start, end, chunk_size)[0].start == start,
        chunks(start, end, chunk_size).last().end == end,
        forall|i: int|
            0 <= i < chunks(start, end, chunk_size).len() ==> {
                let chunk = #[trigger] chunks(start, end, chunk_size)[i];
                &&& start <= chunk.start < chunk.end <= end
                &&& chunk.end - chunk.start <= chunk_size
                &&& i < chunks(start, end, chunk_size).len() - 1 ==> chunk.end - chunk.start
                    == chunk_size
            },
        forall|i: int, j: int|
            0 <= i < chunks(start, end, chunk_size).len() - 1 && j == i + 1
                ==> #[trigger] chunks(start, end, chunk_size)[i].end == #[trigger] chunks(
                start,
                end,
                chunk_size,
            )[j].start,
    decreases end - start,
{
    let chunk_end = earlier(start + chunk_size, end as int) as u64;
    let all = chunks(start, end, chunk_size);
    let rest = chunks(chunk_end, end, chunk_size);
    assert(all[0] == Range { start, end: chunk_end });
    if chunk_end < end {
        law_chunks_tile_range(chunk_end, end, chunk_size);
        assert(all.last() == rest.last());
        assert forall|i: int| 0 < i < all.len() implies #[trigger] all[i] == rest[i - 1] by {}
        assert forall|i: int, j: int|
            0 <= i < all.len() - 1 && j == i + 1 implies #[trigger] all[i].end
            == #[trigger] all[j].start by {
            if i > 0 {
                assert(all[i] == rest[i - 1]);
                assert(all[j] == rest[j - 1]);
            }
        }
    } else {
        assert(rest =~= seq![]);
    }
}

/// Every byte of a range belongs to exactly one of its chunks.
pub proof fn law_byte_in_one_chunk(start: u64, end: u64, chunk_size: u64, offset: u64)
    requires
        start <= offset < end,
        chunk_size > 0,
    ensures
        exists|i: int|
            {
                &&& 0 <= i < chunks(start, end, chunk_size).len()
                &&& (#[trigger] chunks(start, end, chunk_size)[i]).start <= offset
                &&& offset < chunks(start, end, chunk_size)[i].end
            },
        forall|i: int, j: int|
            {
                &&& 0 <= i < chunks(start, end, chunk_size).len()
                &&& 0 <= j < chunks(start, end, chunk_size).len()
                &&& (#[trigger] chunks(start, end, chunk_size)[i]).start <= offset
                &&& offset < chunks(start, end, chunk_size)[i].end
                &&& (#[trigger] chunks(start, end, chunk_size)[j]).start <= offset
                &&& offset < chunks(start, end, chunk_size)[j].end
            } ==> i == j,
    decreases end - start,
{
    let chunk_end = earlier(start + chunk_size, end as int) as u64;
    let all = chunks(start, end, chunk_size);
    let rest = chunks(chunk_end, end, chunk_size);
    assert(all[0] == Range { start, end: chunk_end });
    assert forall|i: int| 0 < i < all.len() implies #[trigger] all[i] == rest[i - 1] by {}
    if chunk_end < end {
        law_chunks_tile_range(chunk_end, end, chunk_size);
    } else {
        assert(rest =~= seq![]);
    }
    if offset >= chunk_end {
        law_byte_in_one_chunk(chunk_end, end, chunk_size, offset);
        let k = choose|k: int|
            {
                &&& 0 <= k < rest.len()
                &&& (#[trigger] rest[k]).start <= offset
                &&& offset < rest[k].end
            };
        assert(all[k + 1] == rest[k]);
        assert forall|i: int, j: int|
            {
                &&& 0 <= i < all.len()
                &&& 0 <= j < all.len()
                &&& (#[trigger] all[i]).start <= offset
                &&& offset < all[i].end
                &&& (#[trigger] all[j]).start <= offset
                &&& offset < all[j].end
            } implies i == j by {
            assert(all[i] == rest[i - 1]);
            assert(all[j] == rest[j - 1]);
        }
    }
}

/// The worker after a sequence of events.
pub open spec fn after<S, E>(worker: SplitWorker, events: Seq<SplitEvent<S, E>>) -> SplitWorker
    decreases events.len(),
{
    if events.len() == 0 {
        worker
    } else {
        after(worker, events.drop_last()).stepped(events.last()).0
    }
}

/// What the worker wants done after the last of a sequence of events.
pub open spec fn last_action<S, E>(
    worker: SplitWorker,
    events: Seq<SplitEvent<S, E>>,
) -> SplitAction<S, E> {
    after(worker, events.drop_last()).stepped(events.last()).1
}

/// Whether the worker expects each of a sequence of events when it comes.
pub open spec fn is_run<S, E>(worker: SplitWorker, events: Seq<SplitEvent<S, E>>) -> bool
    decreases events.len(),
{
    events.len() > 0 ==> {
        &&& is_run(worker, events.drop_last())
        &&& after(worker, events.drop_last()).expects(events.last())
    }
}

/// What the worker wants done says what it waits for next: the response to the chunk that it
/// requests, whether an event was forwarded, or the next part. After anything else it waits for
/// nothing.
pub proof fn law_action_names_next_event<S, E>(
    worker: SplitWorker,
    event: SplitEvent<S, E>,
    next: SplitEvent<S, E>,
)
    requires
        worker.expects(event),
    ensures
        worker.stepped(event).0.expects(next) <==> match worker.stepped(event).1 {
            SplitAction::OpenChunk(_) => next is Opened,
            SplitAction::Forward(_) => next is Forwarded,
            SplitAction::ReadPart => next is Part,
            _ => false,
        },
{
}

/// The chunks that the worker requests in the course of a sequence of events.
pub open spec fn opened<S, E>(worker: SplitWorker, events: Seq<SplitEvent<S, E>>) -> Seq<Range<u64>>
    decreases events.len(),
{
    if events.len() == 0 {
        seq![]
    } else {
        match last_action(worker, events) {
            SplitAction::OpenChunk(request) => opened(worker, events.drop_last()).push(
                request.params.range->0,
            ),
            _ => opened(worker, events.drop_last()),
        }
    }
}

/// The requests for chunks that the worker wants carried out in the course of a sequence of events.
pub open spec fn requested<S, E>(worker: SplitWorker, events: Seq<SplitEvent<S, E>>) -> Seq<
    GetObjectSingle,
>
    decreases events.len(),
{
    if events.len() == 0 {
        seq![]
    } else {
        match last_action(worker, events) {
            SplitAction::OpenChunk(request) => requested(worker, events.drop_last()).push(request),
            _ => requested(worker, events.drop_last()),
        }
    }
}

/// The events that the worker forwards in the course of a sequence of events.
pub open spec fn forwarded<S, E>(worker: SplitWorker, events: Seq<SplitEvent<S, E>>) -> Seq<
    S3GetObjectEvent<S, E>,
>
    decreases events.len(),
{
    if events.len() == 0 {
        seq![]
    } else {
        match last_action(worker, events) {
            SplitAction::Forward(event) => forwarded(worker, events.drop_last()).push(event),
            _ => forwarded(worker, events.drop_last()),
        }
    }
}

/// The parts that the chunks deliver in the course of a sequence of events.
pub open spec fn received<S, E>(events: Seq<SplitEvent<S, E>>) -> Seq<GetBodyPart>
    decreases events.len(),
{
    if events.len() == 0 {
        seq![]
    } else {
        match events.last() {
            SplitEvent::Part(Some(Ok(part))) => received(events.drop_last()).push(part),
            _ => received(events.drop_last()),
        }
    }
}

/// A worker that has not been started.
pub open spec fn is_fresh(worker: SplitWorker) -> bool {
    worker.phase == SplitPhase::Start && !worker.headers_sent
}

/// The chunks that a worker has still to request.
spec fn remaining(worker: SplitWorker) -> Seq<Range<u64>> {
    if worker.phase == SplitPhase::Start {
        chunks(worker.offset, worker.end, worker.chunk_size)
    } else {
        chunks(worker.chunk_end() as u64, worker.end, worker.chunk_size)
    }
}

proof fn lemma_opened<S, E>(worker: SplitWorker, events: Seq<SplitEvent<S, E>>)
    requires
        is_fresh(worker),
        worker.chunk_size > 0,
        is_run(worker, events),
    ensures
        ({
            let now = after(worker, events);
            let all = chunks(worker.offset, worker.end, worker.chunk_size);
            &&& now.end == worker.end
            &&& now.chunk_size == worker.chunk_size
            &&& opened(worker, events).is_prefix_of(all)
            &&& now.phase != SplitPhase::Finished ==> opened(worker, events) + remaining(now)
                == all
            &&& events.len() > 0 && last_action(worker, events) is Close ==> opened(worker, events)
                == all
        }),
    decreases events.len(),
{
    let all = chunks(worker.offset, worker.end, worker.chunk_size);
    if events.len() == 0 {
        assert(seq![] + all =~= all);
    } else {
        let before = events.drop_last();
        lemma_opened(worker, before);
        let was = after(worker, before);
        let now = after(worker, events);
        match events.last() {
            SplitEvent::Start => {
                lemma_opened_advance(was, opened(worker, before), all);
            },
            SplitEvent::Part(None) => {
                lemma_opened_advance(was.past_chunk(), opened(worker, before), all);
            },
            _ => {
                assert(now.chunk_end() == was.chunk_end());
            },
        }
    }
}

proof fn lemma_opened_advance(was: SplitWorker, done: Seq<Range<u64>>, all: Seq<Range<u64>>)
    requires
        was.chunk_size > 0,
        done + chunks(was.offset, was.end, was.chunk_size) == all,
    ensures
        was.offset < was.end ==> ({
            let chunk = Range { start: was.offset, end: was.chunk_end() as u64 };
            &&& done.push(chunk) + chunks(was.chunk_end() as u64, was.end, was.chunk_size) == all
            &&& done.push(chunk).is_prefix_of(all)
        }),
        was.offset >= was.end ==> done == all,
{
    let rest = chunks(was.offset, was.end, was.chunk_size);
    if was.offset < was.end {
        let chunk = Range { start: was.offset, end: was.chunk_end() as u64 };
        let tail = chunks(was.chunk_end() as u64, was.end, was.chunk_size);
        assert(rest == seq![chunk] + tail);
        assert(done.push(chunk) + tail =~= done + rest);
        assert(done.push(chunk) =~= all.take(done.len() as int + 1));
    } else {
        assert(done + rest =~= done);
    }
}

/// The worker requests the chunks of its range in order, each once, and no others. If it ends the
/// events without an error, it has requested them all.
pub proof fn law_chunks_requested_in_order<S, E>(
    worker: SplitWorker,
    events: Seq<SplitEvent<S, E>>,
)
    requires
        is_fresh(worker),
        worker.chunk_size > 0,
        is_run(worker, events),
    ensures
        opened(worker, events).is_prefix_of(
            chunks(worker.offset, worker.end, worker.chunk_size),
        ),
        events.len() > 0 && last_action(worker, events) is Close ==> opened(worker, events)
            == chunks(worker.offset, worker.end, worker.chunk_size),
{
    lemma_opened(worker, events);
}

/// Each chunk is requested for the same object, with the same parameters but for the range.
pub proof fn law_requests_match_chunks<S, E>(worker: SplitWorker, events: Seq<SplitEvent<S, E>>)
    ensures
        requested(worker, events).len() == opened(worker, events).len(),
        forall|i: int|
            0 <= i < opened(worker, events).len() ==> #[trigger] requested(worker, events)[i]
                == worker.chunk_request(opened(worker, events)[i]),
        after(worker, events).client == worker.client,
        after(worker, events).bucket == worker.bucket,
        after(worker, events).key == worker.key,
        after(worker, events).params == worker.params,
    decreases events.len(),
{
    if events.len() > 0 {
        law_requests_match_chunks(worker, events.drop_last());
    }
}

/// The headers with which the first chunk begins.
pub open spec fn first_headers<S, E>(events: Seq<SplitEvent<S, E>>) -> Option<Headers>
    decreases events.len(),
{
    if events.len() == 0 {
        None
    } else {
        match (first_headers(events.drop_last()), events.last()) {
            (None, SplitEvent::Opened(Ok(headers))) => Some(headers),
            (found, _) => found,
        }
    }
}

/// Events that report the given headers and then the given parts.
pub open spec fn merged<S, E>(headers: Headers, parts: Seq<GetBodyPart>) -> Seq<
    S3GetObjectEvent<S, E>,
> {
    seq![S3GetObjectEvent::Headers(headers)] + parts.map_values(
        |part: GetBodyPart| S3GetObjectEvent::<S, E>::BodyPart(part),
    )
}

proof fn lemma_forwarded<S, E>(worker: SplitWorker, events: Seq<SplitEvent<S, E>>)
    requires
        is_fresh(worker),
        is_run(worker, events),
    ensures
        match first_headers(events) {
            Some(headers) => forwarded(worker, events) == merged::<S, E>(
                headers,
                received(events),
            ),
            None => forwarded(worker, events).len() == 0 && received(events).len() == 0,
        },
        ({
            let now = after(worker, events);
            &&& now.phase != SplitPhase::Finished ==> (first_headers(events) is Some
                <==> now.headers_sent || now.phase == SplitPhase::SendingHeaders)
            &&& now.phase == SplitPhase::Reading || now.phase == SplitPhase::SendingPart
                ==> now.headers_sent
        }),
    decreases events.len(),
{
    if events.len() > 0 {
        let before = events.drop_last();
        lemma_forwarded(worker, before);
        let was = after(worker, before);
        match events.last() {
            SplitEvent::Opened(Ok(headers)) => {
                if first_headers(before) is None {
                    assert(received(before) =~= seq![]);
                    assert(forwarded(worker, events) =~= merged(headers, received(events)));
                }
            },
            SplitEvent::Part(Some(Ok(part))) => {
                let headers = first_headers(before)->0;
                assert(merged::<S, E>(headers, received(before)).push(
                    S3GetObjectEvent::BodyPart(part),
                ) =~= merged(headers, received(events)));
            },
            _ => {},
        }
    }
}

/// What the worker forwards is the headers of the first chunk, followed by all the parts of all the
/// chunks, unchanged and in the order in which they were received. The headers are forwarded once.
pub proof fn law_parts_forwarded_in_order<S, E>(worker: SplitWorker, events: Seq<SplitEvent<S, E>>)
    requires
        is_fresh(worker),
        is_run(worker, events),
    ensures
        match first_headers(events) {
            Some(headers) => forwarded(worker, events) == merged::<S, E>(
                headers,
                received(events),
            ),
            None => forwarded(worker, events).len() == 0 && received(events).len() == 0,
        },
{
    lemma_forwarded(worker, events);
}

/// The first event that the worker forwards holds headers, and no other one does.
pub proof fn law_split_headers_first<S, E>(
    worker: SplitWorker,
    events: Seq<SplitEvent<S, E>>,
    i: int,
)
    requires
        is_fresh(worker),
        is_run(worker, events),
        0 <= i < forwarded(worker, events).len(),
    ensures
        forwarded(worker, events)[i] is Headers <==> i == 0,
{
    lemma_forwarded(worker, events);
}

/// Where parts that begin at `start` end.
pub open spec fn end_of(parts: Seq<GetBodyPart>, start: int) -> int {
    if parts.len() == 0 {
        start
    } else {
        parts.last().end()
    }
}

/// Where the parts end that were received so far.
pub open spec fn position<S, E>(worker: SplitWorker, events: Seq<SplitEvent<S, E>>) -> int {
    end_of(received(events), worker.offset as int)
}

/// Whether each chunk delivers its bytes in order, and all of them before it ends.
pub open spec fn chunks_deliver<S, E>(worker: SplitWorker, events: Seq<SplitEvent<S, E>>) -> bool
    decreases events.len(),
{
    events.len() > 0 ==> {
        let before = events.drop_last();
        let chunk_end = after(worker, before).chunk_end();
        &&& chunks_deliver(worker, before)
        &&& match events.last() {
            SplitEvent::Part(Some(Ok(part))) => part.offset == position(worker, before)
                && part.end() <= chunk_end,
            SplitEvent::Part(None) => position(worker, before) == chunk_end,
            _ => true,
        }
    }
}

proof fn lemma_delivered<S, E>(worker: SplitWorker, events: Seq<SplitEvent<S, E>>)
    requires
        is_fresh(worker),
        worker.offset <= worker.end,
        is_run(worker, events),
        chunks_deliver(worker, events),
    ensures
        covers(received(events), worker.offset as int, position(worker, events)),
        ({
            let now = after(worker, events);
            &&& now.end == worker.end
            &&& now.offset <= now.end
            &&& worker.offset <= now.offset <= position(worker, events) <= now.chunk_end()
            &&& (now.phase == SplitPhase::Start || now.phase == SplitPhase::Opening || now.phase
                == SplitPhase::SendingHeaders) ==> position(worker, events) == now.offset
            &&& events.len() > 0 && last_action(worker, events) is Close ==> position(
                worker,
                events,
            ) == now.end
        }),
    decreases events.len(),
{
    if events.len() > 0 {
        let before = events.drop_last();
        lemma_delivered(worker, before);
        match events.last() {
            SplitEvent::Part(Some(Ok(part))) => {
                assert(received(events).drop_last() =~= received(before));
            },
            _ => {
                assert(received(events) == received(before));
            },
        }
    }
}

/// If each chunk delivers its bytes in order and all of them, the forwarded parts deliver the bytes
/// of the whole range in order: at any time all those up to some point, and all of them when the
/// worker ends the events without an error.
pub proof fn law_range_delivered_in_order<S, E>(worker: SplitWorker, events: Seq<SplitEvent<S, E>>)
    requires
        is_fresh(worker),
        worker.offset <= worker.end,
        is_run(worker, events),
        chunks_deliver(worker, events),
    ensures
        covers(received(events), worker.offset as int, position(worker, events)),
        worker.offset <= position(worker, events) <= worker.end,
        events.len() > 0 && last_action(worker, events) is Close ==> position(worker, events)
            == worker.end,
{
    lemma_delivered(worker, events);
}

/// If, moreover, each part holds the object's bytes at its offset, the parts joined are the object's
/// bytes of the range: at any time those up to some point, and all of them when the worker ends the
/// events without an error.
pub proof fn law_range_bytes_delivered<S, E>(
    worker: SplitWorker,
    events: Seq<SplitEvent<S, E>>,
    object: Seq<u8>,
)
    requires
        is_fresh(worker),
        worker.offset <= worker.end <= object.len(),
        is_run(worker, events),
        chunks_deliver(worker, events),
        forall|i: int|
            0 <= i < received(events).len() ==> is_part_of(#[trigger] received(events)[i], object),
    ensures
        joined(received(events)) == object.subrange(
            worker.offset as int,
            position(worker, events),
        ),
        events.len() > 0 && last_action(worker, events) is Close ==> joined(received(events))
            == object.subrange(worker.offset as int, worker.end as int),
{
    lemma_delivered(worker, events);
    law_parts_join_to_range(
        received(events),
        worker.offset as int,
        position(worker, events),
        object,
    );
}

/// The parts that the worker receives from the chunk with the given index.
pub open spec fn parts_from<S, E>(
    worker: SplitWorker,
    events: Seq<SplitEvent<S, E>>,
    i: int,
) -> Seq<GetBodyPart>
    decreases events.len(),
{
    if events.len() == 0 {
        seq![]
    } else {
        let before = events.drop_last();
        match events.last() {
            SplitEvent::Part(Some(Ok(part))) if i == opened(worker, before).len() - 1 => parts_from(
                worker,
                before,
                i,
            ).push(part),
            _ => parts_from(worker, before, i),
        }
    }
}

/// Whether the chunk with the given index has ended without an error.
pub open spec fn has_ended<S, E>(
    worker: SplitWorker,
    events: Seq<SplitEvent<S, E>>,
    i: int,
) -> bool
    decreases events.len(),
{
    events.len() > 0 && {
        let before = events.drop_last();
        ||| has_ended(worker, before, i)
        ||| events.last() == SplitEvent::<S, E>::Part(None) && i == opened(worker, before).len() - 1
    }
}

/// Whether the parts that the worker has received from a chunk are the first ones of `all`, which
/// cover bytes of the chunk from its start on, and whether they are all of them, and cover the
/// whole chunk, if it has ended without an error.
pub open spec fn follows_chunk(
    parts: Seq<GetBodyPart>,
    ended: bool,
    all: Seq<GetBodyPart>,
    chunk: Range<u64>,
) -> bool {
    let end = end_of(all, chunk.start as int);
    &&& parts.is_prefix_of(all)
    &&& covers(all, chunk.start as int, end)
    &&& end <= chunk.end
    &&& ended ==> parts == all && end == chunk.end
}

/// Where each of the parts that cover a range begins and how far it reaches.
proof fn lemma_covering_parts(parts: Seq<GetBodyPart>, start: int, end: int)
    requires
        covers(parts, start, end),
    ensures
        end == end_of(parts, start),
        start <= end,
        forall|k: int|
            0 <= k < parts.len() ==> (#[trigger] parts[k]).offset == end_of(parts.take(k), start)
                && parts[k].end() <= end,
    decreases parts.len(),
{
    if parts.len() > 0 {
        let before = parts.drop_last();
        let last = parts.len() - 1;
        lemma_covering_parts(before, start, parts.last().offset as int);
        assert forall|k: int| 0 <= k < parts.len() implies (#[trigger] parts[k]).offset == end_of(
            parts.take(k),
            start,
        ) && parts[k].end() <= end by {
            if k < last {
                assert(before[k] == parts[k]);
                assert(before.take(k) =~= parts.take(k));
            } else {
                assert(parts.take(k) =~= before);
            }
        }
    }
}

/// What is known about the current chunk in the course of a run.
proof fn lemma_current_chunk<S, E>(worker: SplitWorker, events: Seq<SplitEvent<S, E>>)
    requires
        is_fresh(worker),
        is_run(worker, events),
    ensures
        ({
            let now = after(worker, events);
            let count = opened(worker, events).len() as int;
            &&& now.end == worker.end
            &&& now.chunk_size == worker.chunk_size
            &&& now.offset >= worker.offset || now.offset >= now.end
            &&& forall|i: int|
                i >= count ==> (#[trigger] parts_from(worker, events, i)).len() == 0
            &&& forall|i: int| i >= count ==> !(#[trigger] has_ended(worker, events, i))
            &&& forall|i: int|
                0 <= i < count ==> {
                    let chunk = #[trigger] opened(worker, events)[i];
                    worker.offset <= chunk.start < worker.end && chunk.start <= chunk.end
                        <= worker.end
                }
            &&& now.phase == SplitPhase::Start ==> now.offset == worker.offset && received(
                events,
            ).len() == 0
            &&& now.phase != SplitPhase::Start && now.phase != SplitPhase::Finished ==> {
                &&& count > 0
                &&& opened(worker, events).last() == (Range {
                    start: now.offset,
                    end: now.chunk_end() as u64,
                })
                &&& now.offset < now.end
                &&& !has_ended(worker, events, count - 1)
            }
        }),
    decreases events.len(),
{
    if events.len() > 0 {
        let before = events.drop_last();
        lemma_current_chunk(worker, before);
        let chunks_before = opened(worker, before);
        let chunks_now = opened(worker, events);
        let was = after(worker, before);
        assert(was.expects(events.last()));
        assert forall|i: int| i >= chunks_now.len() implies (#[trigger] parts_from(
            worker,
            events,
            i,
        )).len() == 0 by {
            assert(parts_from(worker, before, i).len() == 0);
        }
        assert forall|i: int| i >= chunks_now.len() implies !(#[trigger] has_ended(
            worker,
            events,
            i,
        )) by {
            assert(!has_ended(worker, before, i));
        }
        assert forall|i: int| 0 <= i < chunks_now.len() implies {
            let chunk = #[trigger] chunks_now[i];
            worker.offset <= chunk.start < worker.end && chunk.start <= chunk.end <= worker.end
        } by {
            if i < chunks_before.len() {
                assert(chunks_now[i] == chunks_before[i]);
            }
        }
        assert(!has_ended(worker, before, chunks_before.len() as int));
    }
}

/// Every chunk that the worker requests lies within its range.
pub proof fn law_opened_within_range<S, E>(worker: SplitWorker, events: Seq<SplitEvent<S, E>>)
    requires
        is_fresh(worker),
        is_run(worker, events),
    ensures
        forall|i: int|
            0 <= i < opened(worker, events).len() ==> {
                let chunk = #[trigger] opened(worker, events)[i];
                worker.offset <= chunk.start < worker.end && chunk.start <= chunk.end <= worker.end
            },
{
    lemma_current_chunk(worker, events);
}

proof fn lemma_follows_before<S, E>(
    worker: SplitWorker,
    events: Seq<SplitEvent<S, E>>,
    reported: Seq<Seq<GetBodyPart>>,
    i: int,
)
    requires
        is_fresh(worker),
        is_run(worker, events),
        events.len() > 0,
        0 <= i < opened(worker, events.drop_last()).len(),
        follows_chunk(
            parts_from(worker, events, i),
            has_ended(worker, events, i),
            reported[i],
            opened(worker, events)[i],
        ),
    ensures
        follows_chunk(
            parts_from(worker, events.drop_last(), i),
            has_ended(worker, events.drop_last(), i),
            reported[i],
            opened(worker, events.drop_last())[i],
        ),
{
    let before = events.drop_last();
    lemma_current_chunk(worker, before);
    assert(opened(worker, events)[i] == opened(worker, before)[i]);
    let old_parts = parts_from(worker, before, i);
    let parts = parts_from(worker, events, i);
    assert(old_parts =~= parts.take(old_parts.len() as int));
    assert(old_parts =~= reported[i].take(old_parts.len() as int));
}

/// If, for each chunk that was requested, the worker has received the first of some parts that
/// cover the chunk from its start on, and all of them, covering the whole chunk, where the chunk
/// has ended without an error, then each chunk delivers its bytes in order, and all of them before
/// it ends.
pub proof fn law_chunks_deliver<S, E>(
    worker: SplitWorker,
    events: Seq<SplitEvent<S, E>>,
    reported: Seq<Seq<GetBodyPart>>,
)
    requires
        is_fresh(worker),
        is_run(worker, events),
        reported.len() >= opened(worker, events).len(),
        forall|i: int|
            0 <= i < opened(worker, events).len() ==> #[trigger] follows_chunk(
                parts_from(worker, events, i),
                has_ended(worker, events, i),
                reported[i],
                opened(worker, events)[i],
            ),
    ensures
        chunks_deliver(worker, events),
{
    lemma_chunks_deliver(worker, events, reported);
}

proof fn lemma_chunks_deliver<S, E>(
    worker: SplitWorker,
    events: Seq<SplitEvent<S, E>>,
    reported: Seq<Seq<GetBodyPart>>,
)
    requires
        is_fresh(worker),
        is_run(worker, events),
        reported.len() >= opened(worker, events).len(),
        forall|i: int|
            0 <= i < opened(worker, events).len() ==> #[trigger] follows_chunk(
                parts_from(worker, events, i),
                has_ended(worker, events, i),
                reported[i],
                opened(worker, events)[i],
            ),
    ensures
        chunks_deliver(worker, events),
        ({
            let now = after(worker, events);
            let current = opened(worker, events).len() - 1;
            now.phase != SplitPhase::Start && now.phase != SplitPhase::Finished ==> position(
                worker,
                events,
            ) == end_of(parts_from(worker, events, current), now.offset as int)
        }),
    decreases events.len(),
{
    if events.len() > 0 {
        let before = events.drop_last();
        assert forall|i: int| 0 <= i < opened(worker, before).len() implies #[trigger]
        follows_chunk(
            parts_from(worker, before, i),
            has_ended(worker, before, i),
            reported[i],
            opened(worker, before)[i],
        ) by {
            assert(opened(worker, before).len() <= opened(worker, events).len());
            assert(follows_chunk(
                parts_from(worker, events, i),
                has_ended(worker, events, i),
                reported[i],
                opened(worker, events)[i],
            ));
            lemma_follows_before(worker, events, reported, i);
        }
        lemma_chunks_deliver(worker, before, reported);
        lemma_current_chunk(worker, before);
        lemma_current_chunk(worker, events);
        let was = after(worker, before);
        let i = opened(worker, before).len() - 1;
        match events.last() {
            SplitEvent::Part(Some(Ok(part))) => {
                let all = reported[i];
                let parts = parts_from(worker, events, i);
                let k = parts.len() - 1;
                assert(follows_chunk(
                    parts,
                    has_ended(worker, events, i),
                    all,
                    opened(worker, events)[i],
                ));
                lemma_covering_parts(all, was.offset as int, end_of(all, was.offset as int));
                assert(parts[k] == all[k]);
                assert(all.take(k) =~= parts_from(worker, before, i));
            },
            SplitEvent::Part(None) => {
                assert(follows_chunk(
                    parts_from(worker, events, i),
                    has_ended(worker, events, i),
                    reported[i],
                    opened(worker, events)[i],
                ));
                assert(parts_from(worker, before, i + 1).len() == 0);
            },
            SplitEvent::Start => {
                assert(parts_from(worker, before, i + 1).len() == 0);
            },
            _ => {},
        }
    }
}

/// Every part that the worker receives comes from one of the chunks that it has requested.
pub proof fn law_received_parts_come_from_chunks<S, E>(
    worker: SplitWorker,
    events: Seq<SplitEvent<S, E>>,
    k: int,
)
    requires
        is_fresh(worker),
        is_run(worker, events),
        0 <= k < received(events).len(),
    ensures
        exists|i: int, j: int|
            {
                &&& 0 <= i < opened(worker, events).len()
                &&& 0 <= j < parts_from(worker, events, i).len()
                &&& #[trigger] parts_from(worker, events, i)[j] == received(events)[k]
            },
    decreases events.len(),
{
    let before = events.drop_last();
    lemma_current_chunk(worker, before);
    if k < received(before).len() {
        law_received_parts_come_from_chunks(worker, before, k);
        let (i, j) = choose|i: int, j: int|
            {
                &&& 0 <= i < opened(worker, before).len()
                &&& 0 <= j < parts_from(worker, before, i).len()
                &&& #[trigger] parts_from(worker, before, i)[j] == received(before)[k]
            };
        assert(parts_from(worker, events, i)[j] == received(events)[k]);
    } else {
        let i = opened(worker, before).len() - 1;
        let j = parts_from(worker, before, i).len() as int;
        assert(parts_from(worker, events, i)[j] == received(events)[k]);
    }
}

/// A failure of a chunk is forwarded as it is, and is the last thing that the worker wants done.
pub proof fn law_failure_ends_run<S, E>(
    worker: SplitWorker,
    events: Seq<SplitEvent<S, E>>,
    error: ObjectClientError<S, S3RequestError<E>>,
    next: SplitEvent<S, E>,
)
    requires
        events.len() > 0,
        is_run(worker, events),
        events.last() == SplitEvent::<S, E>::Opened(Err(error)) || events.last()
            == SplitEvent::<S, E>::Part(Some(Err(error))),
    ensures
        last_action(worker, events) == SplitAction::<S, E>::Abort(error),
        !is_run(worker, events.push(next)),
{
    assert(events.push(next).drop_last() =~= events);
}

/// The worker stops as soon as nobody receives what it forwards.
pub proof fn law_unheard_worker_stops<S, E>(
    worker: SplitWorker,
    events: Seq<SplitEvent<S, E>>,
    next: SplitEvent<S, E>,
)
    requires
        events.len() > 0,
        is_run(worker, events),
        events.last() == SplitEvent::<S, E>::Forwarded(false),
    ensures
        last_action(worker, events) == SplitAction::<S, E>::Exit,
        !is_run(worker, events.push(next)),
{
    assert(events.push(next).drop_last() =~= events);
}

/// What the worker wants done after each event. With the next chunk at hand it requests it, and if
/// the range has been read it ends the events. The headers of the first chunk are forwarded, those
/// of the others are not; every part is forwarded; a failure is passed on and ends the events. It
/// stops without a word exactly if nobody receives what it forwards.
pub proof fn law_steps_are_exact<S, E>(worker: SplitWorker, event: SplitEvent<S, E>)
    ensures
        ({
            let (after, action) = worker.stepped(event);
            let next = if event is Start {
                worker.offset as int
            } else if worker.offset + worker.chunk_size <= worker.end {
                worker.offset + worker.chunk_size
            } else {
                worker.end as int
            };
            &&& match event {
                SplitEvent::Start | SplitEvent::Part(None) => {
                    &&& after.offset == next
                    &&& next >= worker.end ==> action is Close
                    &&& next < worker.end ==> (action matches SplitAction::OpenChunk(request) && (
                    request.params.range matches Some(chunk) && chunk.start == next && (chunk.end
                        == next + worker.chunk_size && chunk.end <= worker.end || chunk.end
                        == worker.end && worker.end <= next + worker.chunk_size)))
                },
                SplitEvent::Opened(Ok(headers)) => action == if worker.headers_sent {
                    SplitAction::<S, E>::ReadPart
                } else {
                    SplitAction::Forward(S3GetObjectEvent::Headers(headers))
                },
                SplitEvent::Part(Some(Ok(part))) => action == SplitAction::<S, E>::Forward(
                    S3GetObjectEvent::BodyPart(part),
                ),
                SplitEvent::Opened(Err(error)) | SplitEvent::Part(Some(Err(error))) => action
                    == SplitAction::<S, E>::Abort(error),
                SplitEvent::Forwarded(received) => action == if received {
                    SplitAction::<S, E>::ReadPart
                } else {
                    SplitAction::Exit
                },
            }
            &&& !(event is Start) && !(event == SplitEvent::<S, E>::Part(None)) ==> after.offset
                == worker.offset
            &&& after.end == worker.end
            &&& after.chunk_size == worker.chunk_size
            &&& after.headers_sent <==> worker.headers_sent || worker.phase
                == SplitPhase::SendingHeaders && event == SplitEvent::<S, E>::Forwarded(true)
        }),
{
}

/// A worker waits to be started before anything else, and for nothing once it is finished.
pub proof fn law_workers_start_and_finish<S, E>(worker: SplitWorker, event: SplitEvent<S, E>)
    ensures
        worker.phase == SplitPhase::Start ==> (worker.expects(event) <==> event is Start),
        worker.phase == SplitPhase::Finished ==> !worker.expects(event),
{
}

/// A new worker is for the object and the parameters that it was made from. It has all of the range
/// before it, in chunks of the size of a part, and waits to be started.
pub proof fn law_new_worker(
    worker: SplitWorker,
    client: S3CrtClient,
    bucket: Seq<char>,
    key: Seq<char>,
    params: GetObjectParams,
)
    requires
        worker.is_new(client, bucket, key, params),
    ensures
        worker.client == client,
        worker.bucket@ == bucket,
        worker.key@ == key,
        worker.params == params,
        params.range matches Some(range) && range.start == worker.offset && range.end == worker.end,
        worker.chunk_size == client.read_part_size,
        !worker.headers_sent,
        worker.phase == SplitPhase::Start,
{
}

/// The request for a chunk is for the same object, with the same parameters but for the range. The
/// runtime must not split it, it has no flow control, and it has followed no redirect.
pub proof fn law_chunk_requests_are_exact(worker: SplitWorker, chunk: Range<u64>)
    ensures
        ({
            let request = worker.chunk_request(chunk);
            &&& request.client == worker.client
            &&& request.bucket == worker.bucket
            &&& request.key == worker.key
            &&& request.params.range == Some(chunk)
            &&& request.params.if_match == worker.params.if_match
            &&& request.params.checksum_mode == worker.params.checksum_mode
            &&& request.params.custom_id == worker.params.custom_id
            &&& request.use_default_request_type
            &&& request.disable_backpressure
            &&& request.redirect_count == 0
            &&& request.redirect_location is None
        }),
{
}

/// A run ends the events without an error exactly when the last event says that there is nothing
/// more to read and all chunks of the range have been requested.
pub proof fn law_close_exactly_at_the_end<S, E>(worker: SplitWorker, events: Seq<SplitEvent<S, E>>)
    requires
        is_fresh(worker),
        worker.chunk_size > 0,
        worker.offset <= worker.end,
        is_run(worker, events),
        events.len() > 0,
    ensures
        last_action(worker, events) is Close <==> {
            &&& events.last() is Start || events.last() == SplitEvent::<S, E>::Part(None)
            &&& opened(worker, events) == chunks(worker.offset, worker.end, worker.chunk_size)
            &&& !(last_action(worker, events) is OpenChunk)
        },
        last_action(worker, events) is Exit <==> events.last() == SplitEvent::<S, E>::Forwarded(
            false,
        ),
        last_action(worker, events) is Abort <==> (events.last() matches SplitEvent::Opened(Err(_)))
            || (events.last() matches SplitEvent::Part(Some(Err(_)))),
{
    lemma_opened(worker, events);
}

} // verus!
