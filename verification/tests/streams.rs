use bytes::Bytes;
use s3_get_object::body::GetBodyPart;
use s3_get_object::client::{GetObjectPlan, S3CrtClient};
use s3_get_object::error::{
    Headers, MetaRequestResult, ObjectClientError, S3RequestError,
};
use s3_get_object::event::{on_body, on_finish, HeadersFilter, S3GetObjectEvent};
use s3_get_object::request::GetObjectParams;
use s3_get_object::response::{PolledPart, ReceivedEvent, S3GetObjectResponse};
use s3_get_object::single::{GetObjectSingle, RedirectInfo, SingleOutcome};
use s3_get_object::split::{SplitAction, SplitEvent};
use std::ops::Range;

type Event = S3GetObjectEvent<u8, u8>;

const OBJECT: &[u8] = b"the quick brown fox jumps over the lazy dog";

fn client(enable_backpressure: bool) -> S3CrtClient {
    S3CrtClient {
        follow_redirects: true,
        max_redirects: 2,
        read_part_size: 8,
        enable_backpressure,
        initial_read_window_size: 4,
    }
}

fn params(range: Range<u64>) -> GetObjectParams {
    GetObjectParams { range: Some(range), if_match: None, checksum_mode: None, custom_id: None }
}

fn headers() -> Headers {
    Headers { entries: vec![] }
}

fn object_part(start: usize, end: usize) -> GetBodyPart {
    GetBodyPart { offset: start as u64, data: Bytes::from_static(&OBJECT[start..end]) }
}

fn follow_redirect(request: &mut GetObjectSingle) {
    let redirect: Event = S3GetObjectEvent::Error(ObjectClientError::ClientError(
        S3RequestError::ResponseError(MetaRequestResult {
            response_status: 307,
            crt_error: 0,
            error_response_headers: Some(headers()),
            error_response_body: None,
        }),
    ));
    let location = RedirectInfo { is_redirect: true, location: Some(b"https://one/x".to_vec()) };
    assert!(matches!(
        request.on_first_event(Some(redirect), location),
        SingleOutcome::FollowRedirect
    ));
}

/// The response to a request that follows a redirect before it succeeds.
fn redirected_response(client: S3CrtClient, range: Range<u64>) -> S3GetObjectResponse {
    let mut request = match client.get_object("bucket", "key", &params(range)) {
        GetObjectPlan::Single(request) => request,
        other => panic!("unexpected {:?}", other),
    };
    follow_redirect(&mut request);
    let no_redirect = RedirectInfo { is_redirect: false, location: None };
    match request.on_first_event::<u8, u8>(Some(S3GetObjectEvent::Headers(headers())), no_redirect)
    {
        SingleOutcome::Respond(response) => response,
        other => panic!("unexpected {:?}", other),
    }
}

fn split_response(client: S3CrtClient, range: Range<u64>) -> S3GetObjectResponse {
    client
        .on_first_split_event::<u8, u8>(
            &params(range),
            Some(S3GetObjectEvent::Headers(headers())),
        )
        .unwrap()
}

/// Polls once for each event, with polls in between that find nothing, and joins the parts.
fn read_all(response: &mut S3GetObjectResponse, events: Vec<Event>) -> Vec<u8> {
    let mut bytes = vec![];
    for event in events {
        response.poll_next::<u8, u8>(ReceivedEvent::Pending);
        if let Some(handle) = response.backpressure_handle() {
            handle.increment_read_window(3);
        }
        match response.poll_next(ReceivedEvent::Event(event)) {
            PolledPart::Item(Ok(part)) => bytes.extend_from_slice(&part.data),
            other => panic!("unexpected {:?}", other),
        }
    }
    assert!(matches!(response.poll_next::<u8, u8>(ReceivedEvent::Closed), PolledPart::End));
    bytes
}

#[test]
fn parts_are_yielded_in_order_whatever_happens_in_between() {
    let mut response = redirected_response(client(true), 0..8);
    let mut yielded = vec![];
    let error = || S3GetObjectEvent::Error(ObjectClientError::ServiceError(5));
    let received: Vec<ReceivedEvent<u8, u8>> = vec![
        ReceivedEvent::Pending,
        ReceivedEvent::Event(S3GetObjectEvent::BodyPart(object_part(0, 4))),
        ReceivedEvent::Pending,
        ReceivedEvent::Event(S3GetObjectEvent::BodyPart(object_part(4, 4))),
        ReceivedEvent::Event(error()),
        ReceivedEvent::Event(S3GetObjectEvent::BodyPart(object_part(4, 7))),
        ReceivedEvent::Closed,
        ReceivedEvent::Terminated,
    ];
    for (i, received) in received.into_iter().enumerate() {
        match response.poll_next(received) {
            PolledPart::Item(Ok(part)) => yielded.push((part.offset, part.data.len())),
            PolledPart::Item(Err(ObjectClientError::ClientError(
                S3RequestError::EmptyReadWindow,
            ))) => {
                assert_eq!(i, 2);
                response.backpressure_handle().unwrap().ensure_read_window(8);
            }
            PolledPart::Item(Err(ObjectClientError::ServiceError(code))) => {
                assert_eq!((i, code), (4, 5));
            }
            PolledPart::Item(Err(other)) => panic!("unexpected {:?}", other),
            PolledPart::Pending => assert_eq!(i, 0),
            PolledPart::End => assert!(i >= 6),
        }
    }
    assert_eq!(yielded, vec![(0, 4), (4, 0), (4, 3)]);
    assert_eq!(response.next_offset, 7);
}

#[test]
fn a_window_that_was_extended_is_the_one_that_polls_go_by() {
    let mut response = redirected_response(client(true), 20..28);
    response.poll_next::<u8, u8>(ReceivedEvent::Event(S3GetObjectEvent::BodyPart(object_part(
        20, 24,
    ))));
    let is_blocked = |response: &mut S3GetObjectResponse| {
        matches!(
            response.poll_next::<u8, u8>(ReceivedEvent::Pending),
            PolledPart::Item(Err(ObjectClientError::ClientError(S3RequestError::EmptyReadWindow)))
        )
    };
    assert!(is_blocked(&mut response));
    assert!(is_blocked(&mut response));
    assert_eq!(response.backpressure_handle().unwrap().increment_read_window(1), Some(1));
    assert!(!is_blocked(&mut response));
    response.poll_next::<u8, u8>(ReceivedEvent::Event(S3GetObjectEvent::BodyPart(object_part(
        24, 25,
    ))));
    assert!(is_blocked(&mut response));
    assert_eq!(response.backpressure_handle().unwrap().read_window_end_offset(), 25);
    assert_eq!(response.backpressure_handle().unwrap().ensure_read_window(28), Some(3));
    assert!(!is_blocked(&mut response));
}

#[test]
fn there_is_flow_control_exactly_where_the_client_enables_it() {
    for enabled in [false, true] {
        let single = redirected_response(client(enabled), 0..8);
        let split = split_response(client(enabled), 0..19);
        for mut response in [single, split] {
            assert_eq!(response.backpressure_handle().is_some(), enabled);
            let event: Event = S3GetObjectEvent::BodyPart(object_part(0, 8));
            response.poll_next(ReceivedEvent::Event(event));
            assert_eq!(response.backpressure_handle().is_some(), enabled);
            if let Some(handle) = response.backpressure_handle() {
                handle.increment_read_window(5);
                handle.ensure_read_window(40);
            }
            response.poll_next::<u8, u8>(ReceivedEvent::Pending);
            response.poll_next::<u8, u8>(ReceivedEvent::Closed);
            assert_eq!(response.backpressure_handle().is_some(), enabled);
        }
    }
}

#[test]
fn a_single_response_yields_the_bytes_of_the_object() {
    let mut filter = HeadersFilter::new();
    assert!(filter.on_headers::<u8, u8>(206, headers()).is_some());
    let mut events: Vec<Event> = vec![on_body(10, 0, None, &OBJECT[10..13])];
    events.extend(filter.on_headers(206, headers()));
    events.push(on_body(13, 0, Some(Bytes::from_static(&OBJECT[13..18])), &OBJECT[13..18]));
    events.extend(on_finish(Ok(())));
    let mut response = redirected_response(client(true), 10..18);
    assert_eq!(read_all(&mut response, events), OBJECT[10..18].to_vec());
    assert_eq!(response.next_offset, 18);
}

#[test]
fn a_split_response_yields_the_bytes_of_the_object() {
    let mut worker = match client(true).get_object("bucket", "key", &params(5..24)) {
        GetObjectPlan::Split(worker) => worker,
        other => panic!("unexpected {:?}", other),
    };
    let mut chunk: Range<u64> = 0..0;
    let mut adjustment = 0;
    let mut position = 0;
    let mut requested = vec![];
    let mut forwarded = vec![];
    let mut event = SplitEvent::Start;
    loop {
        assert!(worker.is_ready_for(&event));
        event = match worker.step(event) {
            SplitAction::OpenChunk(request) => {
                adjustment = request.request().options.offset_adjustment;
                chunk = request.params.range.unwrap();
                requested.push((chunk.start, chunk.end));
                position = 0;
                SplitEvent::Opened(Ok(headers()))
            }
            SplitAction::Forward(next) => {
                forwarded.push(next);
                SplitEvent::Forwarded(true)
            }
            SplitAction::ReadPart if position < chunk.end - chunk.start => {
                // The runtime counts from the start of the chunk.
                let body = &OBJECT[chunk.start as usize..chunk.end as usize];
                let len = (body.len() as u64 - position).min(3);
                let data = &body[position as usize..(position + len) as usize];
                let part = match on_body::<u8, u8>(position, adjustment, None, data) {
                    S3GetObjectEvent::BodyPart(part) => part,
                    other => panic!("unexpected {:?}", other),
                };
                position += len;
                SplitEvent::Part(Some(Ok(part)))
            }
            SplitAction::ReadPart => SplitEvent::Part(None),
            SplitAction::Close => break,
            other => panic!("unexpected {:?}", other),
        };
    }
    assert_eq!(requested, vec![(5, 13), (13, 21), (21, 24)]);
    assert!(matches!(forwarded.remove(0), S3GetObjectEvent::Headers(_)));
    let mut response = split_response(client(true), 5..24);
    assert_eq!(read_all(&mut response, forwarded), OBJECT[5..24].to_vec());
    assert_eq!(response.next_offset, 24);
}

#[test]
fn a_redirected_chunk_keeps_its_place() {
    let mut worker = client(true).get_object_split("bucket", "key", &params(5..24));
    let mut request = match worker.step::<u8, u8>(SplitEvent::Start) {
        SplitAction::OpenChunk(request) => request,
        other => panic!("unexpected {:?}", other),
    };
    for _ in 0..2 {
        follow_redirect(&mut request);
        let adjustment = request.request().options.offset_adjustment;
        match on_body::<u8, u8>(2, adjustment, None, &OBJECT[7..9]) {
            S3GetObjectEvent::BodyPart(part) => {
                let end = part.end_offset();
                assert_eq!(part.data, OBJECT[part.offset as usize..end as usize]);
            }
            other => panic!("unexpected {:?}", other),
        }
    }
    assert_eq!(request.redirect_count, 2);
}
