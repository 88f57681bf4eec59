//! The streaming response to a GetObject request.

use crate::backpressure::{
    handle_after, law_ensured_window, lengths_of, window_shortfall, S3BackpressureHandle, WindowCall,
};
use crate::body::{content, GetBodyPart};
use crate::error::{Headers, ObjectClientError, S3RequestError};
use crate::event::{event_errors, event_parts, S3GetObjectEvent};
use crate::text::{strip_prefix, utf8_text};
use vstd::pervasive::unreached;
use vstd::prelude::*;
use vstd::utf8::{decode_utf8, valid_utf8};

verus! {

/// A streaming response to a GetObject request.
#[derive(Debug)]
pub struct S3GetObjectResponse {
    /// Whether object checksums were requested.
    pub requested_checksums: bool,
    /// Flow control, if it is enabled.
    pub backpressure_handle: Option<S3BackpressureHandle>,
    pub headers: Headers,
    /// Offset of the next data to be delivered.
    pub next_offset: u64,
}

/// What came out of asking for the next event.
#[derive(Debug)]
pub enum ReceivedEvent<S, E> {
    /// The end of the events had been seen before.
    Terminated,
    /// There are no more events.
    Closed,
    /// The next event.
    Event(S3GetObjectEvent<S, E>),
    /// The next event has not happened yet.
    Pending,
}

/// What a poll for the next part of the body yields.
#[derive(Debug)]
pub enum PolledPart<S, E> {
    /// The body is complete.
    End,
    /// The next part, or a failure.
    Item(Result<GetBodyPart, ObjectClientError<S, S3RequestError<E>>>),
    /// The next part has not been received yet.
    Pending,
}

/// Why there is no checksum.
#[derive(Debug, PartialEq, Eq)]
pub enum ObjectChecksumError<H> {
    DidNotRequestChecksums,
    HeadersError(H),
}

/// Metadata that a user has attached to an object. No name occurs twice. It is a list so that callers
/// can walk it: the maps with text keys that can be reasoned about offer lookup only.
#[derive(Debug)]
pub struct ObjectMetadata {
    pub entries: Vec<(String, String)>,
}

impl ObjectMetadata {
    /// Whether this is the given mapping from names to values.
    pub open spec fn represents(self, map: Map<Seq<char>, Seq<char>>) -> bool {
        &&& forall|i: int, j: int|
            0 <= i < j < self.entries@.len() ==> (#[trigger] self.entries@[i]).0@ != (
            #[trigger] self.entries@[j]).0@
        &&& forall|i: int|
            0 <= i < self.entries@.len() ==> {
                &&& map.contains_key((#[trigger] self.entries@[i]).0@)
                &&& map[self.entries@[i].0@] == self.entries@[i].1@
            }
        &&& forall|name: Seq<char>| #[trigger]
            map.contains_key(name) ==> exists|i: int|
                0 <= i < self.entries@.len() && (#[trigger] self.entries@[i]).0@ == name
    }

    /// Adds an entry, replacing one with the same name.
    fn insert(&mut self, name: String, value: String, Ghost(map): Ghost<Map<Seq<char>, Seq<char>>>)
        requires
            old(self).represents(map),
        ensures
            final(self).represents(map.insert(name@, value@)),
    {
        let ghost before = self.entries@;
        let mut i: usize = 0;
        while i < self.entries.len()
            invariant
                i <= self.entries@.len(),
                self.entries@ == before,
                before == old(self).entries@,
                old(self).represents(map),
                forall|j: int| 0 <= j < i ==> (#[trigger] before[j]).0@ != name@,
            decreases self.entries@.len() - i,
        {
            if self.entries[i].0 == name {
                self.entries[i] = (name, value);
                proof {
                    let after = self.entries@;
                    let new_map = map.insert(name@, value@);
                    assert(after == before.update(i as int, (name, value)));
                    assert forall|n: Seq<char>| #[trigger]
                        new_map.contains_key(n) implies exists|j: int|
                        0 <= j < after.len() && (#[trigger] after[j]).0@ == n by {
                        if n == name@ {
                            assert(after[i as int].0@ == n);
                        } else {
                            assert(map.contains_key(n));
                            let j = choose|j: int|
                                0 <= j < before.len() && (#[trigger] before[j]).0@ == n;
                            assert(after[j].0@ == n);
                        }
                    }
                }
                return ;
            }
            i += 1;
        }
        self.entries.push((name, value));
        proof {
            let after = self.entries@;
            let new_map = map.insert(name@, value@);
            assert(after[before.len() as int] == (name, value));
            assert forall|n: Seq<char>| #[trigger] new_map.contains_key(n) implies exists|j: int|
                0 <= j < after.len() && (#[trigger] after[j]).0@ == n by {
                if n != name@ {
                    assert(map.contains_key(n));
                    let j = choose|j: int| 0 <= j < before.len() && (#[trigger] before[j]).0@ == n;
                    assert(after[j] == before[j]);
                }
            }
        }
    }
}

/// What a header says about the metadata of an object: a name and its value, if the name of the
/// header has the prefix for metadata and both sides of the header are text.
pub open spec fn metadata_entry(name: Seq<u8>, value: Seq<u8>) -> Option<(Seq<char>, Seq<char>)> {
    if valid_utf8(name) && valid_utf8(value) && "x-amz-meta-"@.is_prefix_of(decode_utf8(name)) {
        Some((decode_utf8(name).skip("x-amz-meta-"@.len() as int), decode_utf8(value)))
    } else {
        None
    }
}

/// The metadata in a sequence of headers. Where a name occurs several times, the last value counts.
pub open spec fn metadata_in(headers: Seq<(Vec<u8>, Vec<u8>)>) -> Map<Seq<char>, Seq<char>>
    decreases headers.len(),
{
    if headers.len() == 0 {
        Map::empty()
    } else {
        let before = metadata_in(headers.drop_last());
        match metadata_entry(headers.last().0@, headers.last().1@) {
            Some((name, value)) => before.insert(name, value),
            None => before,
        }
    }
}

fn read_metadata_entry(name: &[u8], value: &[u8]) -> (entry: Option<(String, String)>)
    ensures
        match entry {
            Some((key, text)) => metadata_entry(name@, value@) == Some((key@, text@)),
            None => metadata_entry(name@, value@) is None,
        },
{
    let key = match utf8_text(name) {
        Some(text) => match strip_prefix(text, "x-amz-meta-") {
            Some(rest) => {
                assert(decode_utf8(name@).skip("x-amz-meta-"@.len() as int) =~= rest@);
                rest
            },
            None => {
                return None;
            },
        },
        None => {
            return None;
        },
    };
    match utf8_text(value) {
        Some(text) => Some((key.to_owned(), text.to_owned())),
        None => None,
    }
}

/// The answer to a request for checksums, given what the headers say about them.
pub open spec fn checksum_of<C, H>(parsed: Result<C, H>) -> Result<C, ObjectChecksumError<H>> {
    match parsed {
        Ok(found) => Ok(found),
        Err(error) => Err(ObjectChecksumError::HeadersError(error)),
    }
}

/// The answer to a request for checksums, given what the headers say about them.
pub fn checksum_result<C, H>(parsed: Result<C, H>) -> (checksum: Result<C, ObjectChecksumError<H>>)
    ensures
        checksum == checksum_of(parsed),
{
    match parsed {
        Ok(found) => Ok(found),
        Err(error) => Err(ObjectChecksumError::HeadersError(error)),
    }
}

/// What the state of a response becomes, and what is yielded, after asking for the next event.
pub open spec fn polled<S, E>(response: S3GetObjectResponse, received: ReceivedEvent<S, E>) -> (
    S3GetObjectResponse,
    PolledPart<S, E>,
) {
    match received {
        ReceivedEvent::Event(S3GetObjectEvent::BodyPart(part)) => (
            S3GetObjectResponse { next_offset: part.end() as u64, ..response },
            PolledPart::Item(Ok(part)),
        ),
        ReceivedEvent::Event(S3GetObjectEvent::Error(error)) => (
            response,
            PolledPart::Item(Err(error)),
        ),
        ReceivedEvent::Pending => if response.is_blocked() {
            (
                response,
                PolledPart::Item(
                    Err(ObjectClientError::ClientError(S3RequestError::EmptyReadWindow)),
                ),
            )
        } else {
            (response, PolledPart::Pending)
        },
        _ => (response, PolledPart::End),
    }
}

impl S3GetObjectResponse {
    /// The flow control is well-formed.
    pub open spec fn wf(self) -> bool {
        self.backpressure_handle matches Some(handle) ==> handle.wf()
    }

    /// Whether nothing can be delivered until the read window is extended.
    pub open spec fn is_blocked(self) -> bool {
        self.backpressure_handle matches Some(handle) && handle.blocks(self.next_offset)
    }

    /// Whether this is the flow control that the response hands out.
    pub open spec fn offers(self, handle: Option<S3BackpressureHandle>) -> bool {
        handle == self.backpressure_handle
    }

    /// The flow control of this response, if it is enabled.
    pub fn backpressure_handle(&mut self) -> (handle: Option<&mut S3BackpressureHandle>)
        ensures
            match old(self).backpressure_handle {
                Some(before) => {
                    &&& handle matches Some(inner)
                    &&& *inner == before
                    &&& *final(self) == (S3GetObjectResponse {
                        backpressure_handle: Some(*final(inner)),
                        ..*old(self)
                    })
                },
                None => handle is None && *final(self) == *old(self),
            },
            match handle {
                Some(inner) => old(self).offers(Some(*inner)),
                None => old(self).offers(None),
            },
    {
        self.backpressure_handle.as_mut()
    }

    /// Whether this is the metadata that the headers of this response hold.
    pub open spec fn has_metadata(self, metadata: ObjectMetadata) -> bool {
        metadata.represents(metadata_in(self.headers.entries@))
    }

    /// The metadata that a user has attached to the object.
    pub fn get_object_metadata(&self) -> (metadata: ObjectMetadata)
        ensures
            metadata.represents(metadata_in(self.headers.entries@)),
            self.has_metadata(metadata),
    {
        let mut metadata = ObjectMetadata { entries: Vec::new() };
        let ghost entries = self.headers.entries@;
        let mut i: usize = 0;
        assert(entries.take(0) =~= seq![]);
        while i < self.headers.entries.len()
            invariant
                i <= entries.len(),
                entries == self.headers.entries@,
                metadata.represents(metadata_in(entries.take(i as int))),
            decreases entries.len() - i,
        {
            let header = &self.headers.entries[i];
            assert(entries.take(i + 1).drop_last() =~= entries.take(i as int));
            assert(entries.take(i + 1).last() == header);
            if let Some((name, value)) = read_metadata_entry(
                header.0.as_slice(),
                header.1.as_slice(),
            ) {
                metadata.insert(name, value, Ghost(metadata_in(entries.take(i as int))));
            }
            i += 1;
        }
        assert(entries.take(entries.len() as int) =~= entries);
        metadata
    }

    /// Whether this is the answer to a request for checksums, where `parse` reads them from headers.
    pub open spec fn is_checksum_answer<C, H, F: FnOnce(&Headers) -> Result<C, H>>(
        self,
        parse: F,
        checksum: Result<C, ObjectChecksumError<H>>,
    ) -> bool {
        &&& !self.requested_checksums ==> checksum == Err::<C, _>(
            ObjectChecksumError::<H>::DidNotRequestChecksums,
        )
        &&& self.requested_checksums ==> exists|parsed: Result<C, H>| #[trigger]
            call_ensures(parse, (&self.headers,), parsed) && checksum == checksum_of(parsed)
    }

    /// The checksums of the object. `parse` reads them from the headers; it is called only if
    /// checksums were requested.
    pub fn get_object_checksum<C, H, F: FnOnce(&Headers) -> Result<C, H>>(
        &self,
        parse: F,
    ) -> (checksum: Result<C, ObjectChecksumError<H>>)
        requires
            self.requested_checksums ==> call_requires(parse, (&self.headers,)),
        ensures
            self.is_checksum_answer(parse, checksum),
    {
        if !self.requested_checksums {
            return Err(ObjectChecksumError::DidNotRequestChecksums);
        }
        let parsed = parse(&self.headers);
        checksum_result(parsed)
    }

    /// Turns what came out of asking for the next event into what a poll for the next part yields.
    ///
    /// A request whose read window is used up would stay blocked for ever unless the window is
    /// extended, so this is reported as an error instead of waiting.
    ///
    /// Headers are reported once, before there is a response, so they are not expected here.
    pub fn poll_next<S, E>(&mut self, received: ReceivedEvent<S, E>) -> (item: PolledPart<S, E>)
        requires
            !(received matches ReceivedEvent::Event(S3GetObjectEvent::Headers(_))),
            received matches ReceivedEvent::Event(S3GetObjectEvent::BodyPart(part)) ==> part.end()
                <= u64::MAX,
        ensures
            (*final(self), item) == polled(*old(self), received),
            old(self).wf() ==> final(self).wf(),
    {
        match received {
            ReceivedEvent::Terminated => PolledPart::End,
            ReceivedEvent::Closed => PolledPart::End,
            ReceivedEvent::Event(S3GetObjectEvent::BodyPart(part)) => {
                self.next_offset = part.end_offset();
                PolledPart::Item(Ok(part))
            },
            ReceivedEvent::Event(S3GetObjectEvent::Headers(_)) => unreached(),
            ReceivedEvent::Event(S3GetObjectEvent::Error(error)) => PolledPart::Item(Err(error)),
            ReceivedEvent::Pending => {
                if let Some(handle) = &self.backpressure_handle {
                    if handle.is_exhausted_at(self.next_offset) {
                        return PolledPart::Item(
                            Err(ObjectClientError::ClientError(S3RequestError::EmptyReadWindow)),
                        );
                    }
                }
                PolledPart::Pending
            },
        }
    }
}

/// A header sets the metadata that it names to its value if no later header names it too.
pub proof fn law_last_header_counts(
    headers: Seq<(Vec<u8>, Vec<u8>)>,
    i: int,
    name: Seq<char>,
    value: Seq<char>,
)
    requires
        0 <= i < headers.len(),
        metadata_entry(headers[i].0@, headers[i].1@) == Some((name, value)),
        forall|j: int|
            i < j < headers.len() ==> !(metadata_entry(
                (#[trigger] headers[j]).0@,
                headers[j].1@,
            ) matches Some((other, _)) && other == name),
    ensures
        metadata_in(headers).contains_key(name),
        metadata_in(headers)[name] == value,
    decreases headers.len(),
{
    if i < headers.len() - 1 {
        let before = headers.drop_last();
        assert forall|j: int| i < j < before.len() implies !(metadata_entry(
            (#[trigger] before[j]).0@,
            before[j].1@,
        ) matches Some((other, _)) && other == name) by {
            assert(before[j] == headers[j]);
        }
        law_last_header_counts(before, i, name, value);
        assert(headers.last() == headers[headers.len() - 1]);
    }
}

/// All metadata comes from a header that names it.
pub proof fn law_metadata_comes_from_headers(headers: Seq<(Vec<u8>, Vec<u8>)>, name: Seq<char>)
    requires
        metadata_in(headers).contains_key(name),
    ensures
        exists|i: int|
            0 <= i < headers.len() && metadata_entry((#[trigger] headers[i]).0@, headers[i].1@)
                == Some((name, metadata_in(headers)[name])),
    decreases headers.len(),
{
    let before = headers.drop_last();
    let last = headers.last();
    assert(last == headers[headers.len() - 1]);
    if metadata_entry(last.0@, last.1@) matches Some((n, _)) && n == name {
    } else {
        law_metadata_comes_from_headers(before, name);
        let i = choose|i: int|
            0 <= i < before.len() && metadata_entry((#[trigger] before[i]).0@, before[i].1@)
                == Some((name, metadata_in(before)[name]));
        assert(headers[i] == before[i]);
    }
}

/// Something that happens to a response while it is read.
pub enum ResponseStep<S, E> {
    /// A poll, and what came out of asking for the next event.
    Poll(ReceivedEvent<S, E>),
    /// A call through the flow control, or through a copy of it.
    Window(WindowCall),
}

impl S3GetObjectResponse {
    /// The response after a step.
    pub open spec fn stepped<S, E>(self, step: ResponseStep<S, E>) -> Self {
        match step {
            ResponseStep::Poll(received) => polled(self, received).0,
            ResponseStep::Window(call) => S3GetObjectResponse {
                backpressure_handle: match self.backpressure_handle {
                    Some(handle) => Some(handle.called(call)),
                    None => None,
                },
                ..self
            },
        }
    }
}

/// A response after a sequence of steps.
pub open spec fn response_after<S, E>(
    response: S3GetObjectResponse,
    steps: Seq<ResponseStep<S, E>>,
) -> S3GetObjectResponse
    decreases steps.len(),
{
    if steps.len() == 0 {
        response
    } else {
        response_after(response, steps.drop_last()).stepped(steps.last())
    }
}

/// The parts that a response yields in the course of a sequence of steps.
pub open spec fn yielded_parts<S, E>(
    response: S3GetObjectResponse,
    steps: Seq<ResponseStep<S, E>>,
) -> Seq<GetBodyPart>
    decreases steps.len(),
{
    if steps.len() == 0 {
        seq![]
    } else {
        let before = yielded_parts(response, steps.drop_last());
        match steps.last() {
            ResponseStep::Poll(received) => match polled(
                response_after(response, steps.drop_last()),
                received,
            ).1 {
                PolledPart::Item(Ok(part)) => before.push(part),
                _ => before,
            },
            ResponseStep::Window(_) => before,
        }
    }
}

/// The events that are received in the course of a sequence of steps.
pub open spec fn received_events<S, E>(steps: Seq<ResponseStep<S, E>>) -> Seq<
    S3GetObjectEvent<S, E>,
>
    decreases steps.len(),
{
    if steps.len() == 0 {
        seq![]
    } else {
        match steps.last() {
            ResponseStep::Poll(ReceivedEvent::Event(event)) => received_events(
                steps.drop_last(),
            ).push(event),
            _ => received_events(steps.drop_last()),
        }
    }
}

/// The calls through the flow control in the course of a sequence of steps.
pub open spec fn window_calls<S, E>(steps: Seq<ResponseStep<S, E>>) -> Seq<WindowCall>
    decreases steps.len(),
{
    if steps.len() == 0 {
        seq![]
    } else {
        match steps.last() {
            ResponseStep::Window(call) => window_calls(steps.drop_last()).push(call),
            _ => window_calls(steps.drop_last()),
        }
    }
}

/// Whatever else happens in between, a response yields the parts in the events that it receives:
/// all of them, unchanged and in the same order, and no others.
pub proof fn law_parts_yielded_in_order<S, E>(
    response: S3GetObjectResponse,
    steps: Seq<ResponseStep<S, E>>,
)
    ensures
        yielded_parts(response, steps) == event_parts(received_events(steps)),
    decreases steps.len(),
{
    if steps.len() > 0 {
        law_parts_yielded_in_order(response, steps.drop_last());
        if let ResponseStep::Poll(ReceivedEvent::Event(event)) = steps.last() {
            let before = received_events(steps.drop_last());
            assert(before.push(event).drop_last() =~= before);
        }
    }
}

/// The next offset of a response is where the last part that it has yielded ends.
pub proof fn law_next_offset_follows_parts<S, E>(
    response: S3GetObjectResponse,
    steps: Seq<ResponseStep<S, E>>,
)
    requires
        forall|i: int|
            0 <= i < yielded_parts(response, steps).len() ==> (#[trigger] yielded_parts(
                response,
                steps,
            )[i]).end() <= u64::MAX,
    ensures
        response_after(response, steps).next_offset == if yielded_parts(response, steps).len()
            == 0 {
            response.next_offset as int
        } else {
            yielded_parts(response, steps).last().end()
        },
    decreases steps.len(),
{
    if steps.len() > 0 {
        let parts = yielded_parts(response, steps);
        let before = yielded_parts(response, steps.drop_last());
        assert forall|i: int| 0 <= i < before.len() implies (#[trigger] before[i]).end()
            <= u64::MAX by {
            assert(before[i] == parts[i]);
        }
        law_next_offset_follows_parts(response, steps.drop_last());
        if parts.len() > before.len() {
            assert(parts.last() == parts[before.len() as int]);
        }
    }
}

/// A response keeps its flow control, or stays without, whatever happens to it. Polls leave the
/// read window alone, so it is what the calls through the flow control have made of it. The headers
/// do not change either.
pub proof fn law_window_follows_calls<S, E>(
    response: S3GetObjectResponse,
    steps: Seq<ResponseStep<S, E>>,
)
    ensures
        response_after(response, steps).backpressure_handle == match response.backpressure_handle {
            Some(handle) => Some(handle_after(handle, lengths_of(handle, window_calls(steps)))),
            None => None,
        },
        response_after(response, steps).headers == response.headers,
        response_after(response, steps).requested_checksums == response.requested_checksums,
    decreases steps.len(),
{
    if steps.len() > 0 {
        law_window_follows_calls(response, steps.drop_last());
        if let ResponseStep::Window(call) = steps.last() {
            if let Some(handle) = response.backpressure_handle {
                let before = window_calls(steps.drop_last());
                let lengths = lengths_of(handle, before);
                assert(before.push(call).drop_last() =~= before);
                assert(lengths_of(handle, before.push(call)).drop_last() =~= lengths);
            }
        }
    }
}

/// A window that is extended through the flow control is the one that later polls go by: a poll
/// that finds no event fails if and only if there is flow control and the window, after all the
/// calls so far, does not reach past the next offset. Otherwise it waits.
pub proof fn law_polls_go_by_window<S, E>(
    response: S3GetObjectResponse,
    steps: Seq<ResponseStep<S, E>>,
)
    ensures
        polled(response_after(response, steps), ReceivedEvent::<S, E>::Pending).1 == if (
        response.backpressure_handle matches Some(handle) && handle_after(
            handle,
            lengths_of(handle, window_calls(steps)),
        ).blocks(response_after(response, steps).next_offset)) {
            PolledPart::<S, E>::Item(
                Err(ObjectClientError::ClientError(S3RequestError::EmptyReadWindow)),
            )
        } else {
            PolledPart::Pending
        },
{
    law_window_follows_calls(response, steps);
}

/// A blocked response waits again, instead of failing, once its read window was made to end after
/// the next offset.
pub proof fn law_wider_window_unblocks<S, E>(
    response: S3GetObjectResponse,
    handle: S3BackpressureHandle,
    desired_end_offset: u64,
)
    requires
        response.backpressure_handle == Some(handle),
        handle.wf(),
        response.next_offset < desired_end_offset,
        window_shortfall(handle.read_window_end_offset, desired_end_offset) <= usize::MAX,
    ensures
        polled(
            S3GetObjectResponse {
                backpressure_handle: Some(
                    handle.extended(handle.extension_to(desired_end_offset)),
                ),
                ..response
            },
            ReceivedEvent::<S, E>::Pending,
        ).1 == PolledPart::<S, E>::Pending,
{
    law_ensured_window(handle, desired_end_offset);
}

/// A response without flow control, or with a handle that has no meta request, never fails for want
/// of a read window.
pub proof fn law_unlimited_reading<S, E>(response: S3GetObjectResponse)
    requires
        response.backpressure_handle matches Some(handle) ==> !handle.meta_request,
    ensures
        polled(response, ReceivedEvent::<S, E>::Pending) == (response, PolledPart::<S, E>::Pending),
{
}

/// What each poll yields, and what it does to the response. A part or a failure that is received is
/// yielded as it is; a part moves the next offset to its end. The end is yielded if there are no
/// more events. If there is no event yet, the poll waits, unless a meta request has used up its
/// window.
pub proof fn law_polls_yield_what_is_received<S, E>(
    response: S3GetObjectResponse,
    part: GetBodyPart,
    error: ObjectClientError<S, S3RequestError<E>>,
)
    requires
        part.offset + content(part.data).len() <= u64::MAX,
    ensures
        ({
            let (after, item) = polled(
                response,
                ReceivedEvent::<S, E>::Event(S3GetObjectEvent::BodyPart(part)),
            );
            &&& item == PolledPart::<S, E>::Item(Ok(part))
            &&& after.next_offset == part.offset + content(part.data).len()
            &&& after.headers == response.headers
            &&& after.requested_checksums == response.requested_checksums
            &&& after.backpressure_handle == response.backpressure_handle
        }),
        polled(response, ReceivedEvent::Event(S3GetObjectEvent::Error(error))) == (
            response,
            PolledPart::Item(Err(error)),
        ),
        polled(response, ReceivedEvent::<S, E>::Closed) == (response, PolledPart::<S, E>::End),
        polled(response, ReceivedEvent::<S, E>::Terminated) == (response, PolledPart::<S, E>::End),
        polled(response, ReceivedEvent::<S, E>::Pending).0 == response,
        match polled(response, ReceivedEvent::<S, E>::Pending).1 {
            PolledPart::Pending => response.backpressure_handle matches Some(handle) ==> (
            handle.meta_request ==> response.next_offset < handle.read_window_end_offset),
            PolledPart::Item(Err(ObjectClientError::ClientError(
                S3RequestError::EmptyReadWindow,
            ))) => response.backpressure_handle matches Some(handle) && handle.meta_request
                && response.next_offset >= handle.read_window_end_offset,
            _ => false,
        },
{
}

/// A poll yields the end only if there are no more events: a body never looks complete because of
/// a failure or because nothing has been received yet.
pub proof fn law_end_only_without_events<S, E>(
    response: S3GetObjectResponse,
    received: ReceivedEvent<S, E>,
)
    requires
        !(received matches ReceivedEvent::Event(S3GetObjectEvent::Headers(_))),
    ensures
        polled(response, received).1 is End <==> received is Closed || received is Terminated,
{
}

/// What a response yields for events in the course of a sequence of steps: parts and failures.
pub open spec fn yielded_items<S, E>(
    response: S3GetObjectResponse,
    steps: Seq<ResponseStep<S, E>>,
) -> Seq<Result<GetBodyPart, ObjectClientError<S, S3RequestError<E>>>>
    decreases steps.len(),
{
    if steps.len() == 0 {
        seq![]
    } else {
        let before = yielded_items(response, steps.drop_last());
        match steps.last() {
            ResponseStep::Poll(ReceivedEvent::Event(event)) => match polled(
                response_after(response, steps.drop_last()),
                ReceivedEvent::Event(event),
            ).1 {
                PolledPart::Item(item) => before.push(item),
                _ => before,
            },
            _ => before,
        }
    }
}

/// The failures among items, in order.
pub open spec fn failures_in<S, E>(
    items: Seq<Result<GetBodyPart, ObjectClientError<S, S3RequestError<E>>>>,
) -> Seq<ObjectClientError<S, S3RequestError<E>>>
    decreases items.len(),
{
    if items.len() == 0 {
        seq![]
    } else {
        match items.last() {
            Err(error) => failures_in(items.drop_last()).push(error),
            Ok(_) => failures_in(items.drop_last()),
        }
    }
}

/// The parts and failures in a sequence of events, in order.
pub open spec fn event_items<S, E>(events: Seq<S3GetObjectEvent<S, E>>) -> Seq<
    Result<GetBodyPart, ObjectClientError<S, S3RequestError<E>>>,
>
    decreases events.len(),
{
    if events.len() == 0 {
        seq![]
    } else {
        let before = event_items(events.drop_last());
        match events.last() {
            S3GetObjectEvent::BodyPart(part) => before.push(Ok(part)),
            S3GetObjectEvent::Error(error) => before.push(Err(error)),
            S3GetObjectEvent::Headers(_) => before,
        }
    }
}

/// Whatever else happens in between, a response yields the parts and the failures in the events that
/// it receives: all of them, unchanged and in the same order, and for events no others.
pub proof fn law_items_yielded_in_order<S, E>(
    response: S3GetObjectResponse,
    steps: Seq<ResponseStep<S, E>>,
)
    ensures
        yielded_items(response, steps) == event_items(received_events(steps)),
    decreases steps.len(),
{
    if steps.len() > 0 {
        law_items_yielded_in_order(response, steps.drop_last());
        if let ResponseStep::Poll(ReceivedEvent::Event(event)) = steps.last() {
            let before = received_events(steps.drop_last());
            assert(before.push(event).drop_last() =~= before);
        }
    }
}

/// The failures that a response yields for events are those in the events that it receives, all of
/// them, unchanged and in the same order.
pub proof fn law_failures_yielded_in_order<S, E>(
    response: S3GetObjectResponse,
    steps: Seq<ResponseStep<S, E>>,
)
    ensures
        failures_in(yielded_items(response, steps)) == event_errors(received_events(steps)),
{
    law_items_yielded_in_order(response, steps);
    lemma_failures_in_items(received_events(steps));
}

proof fn lemma_failures_in_items<S, E>(events: Seq<S3GetObjectEvent<S, E>>)
    ensures
        failures_in(event_items(events)) == event_errors(events),
    decreases events.len(),
{
    if events.len() > 0 {
        let before = event_items(events.drop_last());
        lemma_failures_in_items(events.drop_last());
        match events.last() {
            S3GetObjectEvent::BodyPart(part) => {
                assert(before.push(Ok(part)).drop_last() =~= before);
            },
            S3GetObjectEvent::Error(error) => {
                assert(before.push(Err(error)).drop_last() =~= before);
            },
            S3GetObjectEvent::Headers(_) => {},
        }
    }
}

/// A header holds metadata exactly if its name is text that consists of `x-amz-meta-` and the name
/// of the metadata, and its value is text.
pub proof fn law_metadata_headers(
    name: Seq<u8>,
    value: Seq<u8>,
    key: Seq<char>,
    text: Seq<char>,
)
    ensures
        metadata_entry(name, value) == Some((key, text)) <==> {
            &&& valid_utf8(name)
            &&& decode_utf8(name) == "x-amz-meta-"@ + key
            &&& valid_utf8(value)
            &&& decode_utf8(value) == text
        },
{
    let prefix = "x-amz-meta-"@;
    let decoded = decode_utf8(name);
    if prefix.is_prefix_of(decoded) {
        assert(decoded =~= prefix + decoded.skip(prefix.len() as int));
    }
    if decoded == prefix + key {
        assert(prefix =~= decoded.take(prefix.len() as int));
        assert(decoded.skip(prefix.len() as int) =~= key);
    }
}

/// The metadata of a response holds what a header says if no later header says something of the
/// same name.
pub proof fn law_metadata_is_complete(
    response: S3GetObjectResponse,
    metadata: ObjectMetadata,
    headers: Seq<(Vec<u8>, Vec<u8>)>,
    i: int,
    key: Seq<char>,
)
    requires
        response.has_metadata(metadata),
        headers == response.headers.entries@,
        0 <= i < headers.len(),
        valid_utf8(headers[i].0@),
        decode_utf8(headers[i].0@) == "x-amz-meta-"@ + key,
        valid_utf8(headers[i].1@),
        forall|j: int|
            i < j < headers.len() ==> !(valid_utf8((#[trigger] headers[j]).0@) && decode_utf8(
                headers[j].0@,
            ) == "x-amz-meta-"@ + key && valid_utf8(headers[j].1@)),
    ensures
        exists|k: int|
            0 <= k < metadata.entries@.len() && (#[trigger] metadata.entries@[k]).0@ == key
                && metadata.entries@[k].1@ == decode_utf8(headers[i].1@),
{
    let value = decode_utf8(headers[i].1@);
    law_metadata_headers(headers[i].0@, headers[i].1@, key, value);
    assert forall|j: int| i < j < headers.len() implies !(metadata_entry(
        (#[trigger] headers[j]).0@,
        headers[j].1@,
    ) matches Some((other, _)) && other == key) by {
        law_metadata_headers(headers[j].0@, headers[j].1@, key, decode_utf8(headers[j].1@));
        if let Some((other, text)) = metadata_entry(headers[j].0@, headers[j].1@) {
            law_metadata_headers(headers[j].0@, headers[j].1@, other, text);
        }
    }
    law_last_header_counts(headers, i, key, value);
    assert(metadata_in(headers).contains_key(key));
}

/// Everything in the metadata of a response comes from a header, and no name occurs twice.
pub proof fn law_metadata_is_sound(
    response: S3GetObjectResponse,
    metadata: ObjectMetadata,
    headers: Seq<(Vec<u8>, Vec<u8>)>,
    k: int,
    l: int,
)
    requires
        response.has_metadata(metadata),
        headers == response.headers.entries@,
        0 <= k < metadata.entries@.len(),
        0 <= l < metadata.entries@.len(),
    ensures
        exists|i: int|
            {
                &&& 0 <= i < headers.len()
                &&& valid_utf8((#[trigger] headers[i]).0@)
                &&& decode_utf8(headers[i].0@) == "x-amz-meta-"@ + metadata.entries@[k].0@
                &&& valid_utf8(headers[i].1@)
                &&& decode_utf8(headers[i].1@) == metadata.entries@[k].1@
            },
        metadata.entries@[k].0@ == metadata.entries@[l].0@ ==> k == l,
{
    let key = metadata.entries@[k].0@;
    let other = metadata.entries@[l].0@;
    law_metadata_comes_from_headers(headers, key);
    let i = choose|i: int|
        0 <= i < headers.len() && metadata_entry((#[trigger] headers[i]).0@, headers[i].1@) == Some(
            (key, metadata_in(headers)[key]),
        );
    law_metadata_headers(headers[i].0@, headers[i].1@, key, metadata_in(headers)[key]);
    if k < l {
        assert(metadata.entries@[k].0@ != metadata.entries@[l].0@);
    } else if l < k {
        assert(metadata.entries@[l].0@ != metadata.entries@[k].0@);
    }
}

/// Without a request for checksums the answer is that there was none. Otherwise it is what the
/// headers of the response say, where a failure to read them is passed on as such.
pub proof fn law_checksum_answer<C, H, F: FnOnce(&Headers) -> Result<C, H>>(
    response: S3GetObjectResponse,
    parse: F,
    parsed: Result<C, H>,
    checksum: Result<C, ObjectChecksumError<H>>,
)
    requires
        response.is_checksum_answer(parse, checksum),
        forall|other: Result<C, H>| #[trigger]
            call_ensures(parse, (&response.headers,), other) ==> other == parsed,
    ensures
        !response.requested_checksums ==> checksum == Err::<C, _>(
            ObjectChecksumError::<H>::DidNotRequestChecksums,
        ),
        response.requested_checksums ==> match parsed {
            Ok(found) => checksum == Ok::<C, ObjectChecksumError<H>>(found),
            Err(error) => checksum == Err::<C, _>(ObjectChecksumError::HeadersError(error)),
        },
{
}

/// What headers say about checksums is handed on; a failure to read them is marked as one.
pub proof fn law_checksum_of_headers<C, H>(found: C, error: H)
    ensures
        checksum_of::<C, H>(Ok(found)) == Ok::<C, ObjectChecksumError<H>>(found),
        checksum_of::<C, H>(Err(error)) == Err::<C, _>(ObjectChecksumError::HeadersError(error)),
{
}

/// A response hands out its flow control whenever it has any, with or without a meta request, and
/// however often it is asked.
pub proof fn law_handle_is_handed_out<S, E>(
    response: S3GetObjectResponse,
    steps: Seq<ResponseStep<S, E>>,
    handle: Option<S3BackpressureHandle>,
)
    requires
        response_after(response, steps).offers(handle),
    ensures
        handle is Some <==> response.backpressure_handle is Some,
        handle matches Some(offered) ==> response_after(response, steps).backpressure_handle
            == Some(offered),
{
    law_window_follows_calls(response, steps);
}

} // verus!
