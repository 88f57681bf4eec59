use bytes::Bytes;
use s3_get_object::body::GetBodyPart;
use s3_get_object::client::{GetObjectPlan, S3CrtClient};
use s3_get_object::error::{Headers, ObjectClientError, ResponseHeadersError, S3RequestError};
use s3_get_object::event::{on_body, S3GetObjectEvent};
use s3_get_object::request::{ChecksumMode, GetObjectParams, MetaRequestType};
use s3_get_object::response::{PolledPart, ReceivedEvent};
use s3_get_object::single::GetObjectSingle;
use s3_get_object::split::{SplitAction, SplitEvent, SplitPhase, SplitWorker};
use std::ops::Range;

type Event = SplitEvent<u8, u8>;
type Action = SplitAction<u8, u8>;

fn client(read_part_size: usize) -> S3CrtClient {
    S3CrtClient {
        follow_redirects: true,
        max_redirects: 3,
        read_part_size,
        enable_backpressure: true,
        initial_read_window_size: 0,
    }
}

fn params(range: Range<u64>) -> GetObjectParams {
    GetObjectParams {
        range: Some(range),
        if_match: Some("tag".to_string()),
        checksum_mode: Some(ChecksumMode::Enabled),
        custom_id: Some(7),
    }
}

fn headers(tag: u8) -> Headers {
    Headers { entries: vec![(vec![tag], vec![])] }
}

fn part(offset: u64, data: &'static [u8]) -> GetBodyPart {
    GetBodyPart { offset, data: Bytes::from_static(data) }
}

fn describe(action: Action) -> String {
    match action {
        Action::OpenChunk(request) => {
            let chunk = request.params.range.unwrap();
            format!("open {}..{}", chunk.start, chunk.end)
        }
        Action::Forward(S3GetObjectEvent::Headers(h)) => format!("headers {}", h.entries[0].0[0]),
        Action::Forward(S3GetObjectEvent::BodyPart(p)) => {
            format!("part {}+{}", p.offset, p.data.len())
        }
        Action::Forward(S3GetObjectEvent::Error(_)) => "error".to_string(),
        Action::ReadPart => "read".to_string(),
        Action::Abort(ObjectClientError::ServiceError(code)) => format!("abort {}", code),
        Action::Abort(ObjectClientError::ClientError(_)) => "abort".to_string(),
        Action::Close => "close".to_string(),
        Action::Exit => "exit".to_string(),
    }
}

/// The request for the second chunk of a range.
fn second_chunk(client: S3CrtClient, range: Range<u64>) -> GetObjectSingle {
    let mut worker = client.get_object_split("bucket", "key", &params(range));
    worker.step(Event::Start);
    worker.step(Event::Opened(Ok(headers(1))));
    worker.step(Event::Forwarded(true));
    match worker.step(Event::Part(None)) {
        Action::OpenChunk(request) => request,
        other => panic!("unexpected {:?}", other),
    }
}

fn run(worker: &mut SplitWorker, events: Vec<Event>) -> Vec<String> {
    events.into_iter().map(|event| describe(worker.step(event))).collect()
}

#[test]
fn chunks_are_read_one_after_another() {
    let mut worker = client(4).get_object_split("bucket", "key", &params(10..19));
    let actions = run(
        &mut worker,
        vec![
            Event::Start,
            Event::Opened(Ok(headers(1))),
            Event::Forwarded(true),
            Event::Part(Some(Ok(part(10, b"ab")))),
            Event::Forwarded(true),
            Event::Part(Some(Ok(part(12, b"cd")))),
            Event::Forwarded(true),
            Event::Part(None),
            Event::Opened(Ok(headers(2))),
            Event::Part(Some(Ok(part(14, b"efgh")))),
            Event::Forwarded(true),
            Event::Part(None),
            Event::Opened(Ok(headers(3))),
            Event::Part(Some(Ok(part(18, b"i")))),
            Event::Forwarded(true),
            Event::Part(None),
        ],
    );
    assert_eq!(
        actions,
        vec![
            "open 10..14",
            "headers 1",
            "read",
            "part 10+2",
            "read",
            "part 12+2",
            "read",
            "open 14..18",
            "read",
            "part 14+4",
            "read",
            "open 18..19",
            "read",
            "part 18+1",
            "read",
            "close",
        ]
    );
    assert_eq!(worker.phase, SplitPhase::Finished);
}

#[test]
fn an_empty_range_is_closed_at_once() {
    let mut worker = client(4).get_object_split("bucket", "key", &params(10..10));
    assert_eq!(run(&mut worker, vec![Event::Start]), vec!["close"]);
}

#[test]
fn failures_end_a_split_request() {
    let mut worker = client(4).get_object_split("bucket", "key", &params(0..9));
    let failed = Event::Opened(Err(ObjectClientError::ServiceError(8)));
    assert_eq!(run(&mut worker, vec![Event::Start, failed]), vec!["open 0..4", "abort 8"]);
    assert_eq!(worker.phase, SplitPhase::Finished);

    let mut worker = client(4).get_object_split("bucket", "key", &params(0..9));
    let actions = run(
        &mut worker,
        vec![
            Event::Start,
            Event::Opened(Ok(headers(1))),
            Event::Forwarded(true),
            Event::Part(Some(Err(ObjectClientError::ServiceError(9)))),
        ],
    );
    assert_eq!(actions, vec!["open 0..4", "headers 1", "read", "abort 9"]);
    assert_eq!(worker.phase, SplitPhase::Finished);
}

#[test]
fn the_worker_stops_when_nobody_listens() {
    let mut worker = client(4).get_object_split("bucket", "key", &params(0..9));
    let actions = run(
        &mut worker,
        vec![Event::Start, Event::Opened(Ok(headers(1))), Event::Forwarded(false)],
    );
    assert_eq!(actions, vec!["open 0..4", "headers 1", "exit"]);
    assert!(!worker.headers_sent);

    let mut worker = client(4).get_object_split("bucket", "key", &params(0..9));
    let actions = run(
        &mut worker,
        vec![
            Event::Start,
            Event::Opened(Ok(headers(1))),
            Event::Forwarded(true),
            Event::Part(Some(Ok(part(0, b"ab")))),
            Event::Forwarded(false),
        ],
    );
    assert_eq!(actions, vec!["open 0..4", "headers 1", "read", "part 0+2", "exit"]);
}

#[test]
fn a_chunk_is_a_request_of_its_own() {
    let request = second_chunk(client(4), 0..9);
    assert_eq!(request.bucket, "bucket");
    assert_eq!(request.key, "key");
    assert_eq!(request.client.read_part_size, 4);
    assert!(request.use_default_request_type);
    assert!(request.disable_backpressure);
    assert_eq!(request.redirect_count, 0);
    assert_eq!(request.params.range, Some(4..8));
    assert_eq!(request.params.if_match, Some("tag".to_string()));
    assert_eq!(request.params.checksum_mode, Some(ChecksumMode::Enabled));
    assert_eq!(request.params.custom_id, Some(7));
    let plan = request.request();
    assert_eq!(plan.options.request_type, MetaRequestType::Default);
    assert_eq!(plan.options.offset_adjustment, 4);
}

#[test]
fn the_first_forwarded_event_decides() {
    let settings = client(4);
    let event = Some(S3GetObjectEvent::<u8, u8>::Headers(headers(1)));
    let mut response = settings.on_first_split_event(&params(10..19), event).unwrap();
    assert!(response.requested_checksums);
    assert_eq!(response.next_offset, 10);
    assert_eq!(response.headers.entries, vec![(vec![1], vec![])]);
    let handle = response.backpressure_handle().unwrap();
    assert!(!handle.meta_request);
    assert_eq!(handle.read_window_end_offset(), u64::MAX);

    let mut settings = client(4);
    settings.enable_backpressure = false;
    let event = Some(S3GetObjectEvent::<u8, u8>::Headers(headers(1)));
    let response = settings.on_first_split_event(&params(10..19), event).unwrap();
    assert!(response.backpressure_handle.is_none());

    let event = Some(S3GetObjectEvent::<u8, u8>::Error(ObjectClientError::ServiceError(2)));
    assert!(matches!(
        settings.on_first_split_event(&params(10..19), event),
        Err(ObjectClientError::ServiceError(2))
    ));
    for event in [None, Some(S3GetObjectEvent::<u8, u8>::BodyPart(part(0, b"")))] {
        assert!(matches!(
            settings.on_first_split_event(&params(10..19), event),
            Err(ObjectClientError::ClientError(S3RequestError::InternalError(
                ResponseHeadersError::MissingHeaders
            )))
        ));
    }
}

#[test]
fn the_worker_knows_what_it_can_handle() {
    let mut worker = client(4).get_object_split("bucket", "key", &params(0..9));
    assert!(worker.is_ready_for(&Event::Start));
    assert!(!worker.is_ready_for(&Event::Part(None)));
    assert!(!worker.is_ready_for(&Event::Forwarded(true)));
    worker.step(Event::Start);
    assert!(!worker.is_ready_for(&Event::Start));
    assert!(worker.is_ready_for(&Event::Opened(Ok(headers(1)))));
}

#[test]
fn a_range_may_end_at_the_last_offset() {
    const MAX: u64 = u64::MAX;
    let mut worker = client(8).get_object_split("bucket", "key", &params(MAX - 10..MAX));
    let actions = run(
        &mut worker,
        vec![
            Event::Start,
            Event::Opened(Ok(headers(1))),
            Event::Forwarded(true),
            Event::Part(Some(Ok(part(MAX - 10, b"abcdefgh")))),
            Event::Forwarded(true),
            Event::Part(None),
            Event::Opened(Ok(headers(2))),
            Event::Part(Some(Ok(part(MAX - 2, b"ij")))),
            Event::Forwarded(true),
            Event::Part(None),
        ],
    );
    assert_eq!(actions[0], format!("open {}..{}", MAX - 10, MAX - 2));
    assert_eq!(actions[5], format!("open {}..{}", MAX - 2, MAX));
    assert_eq!(actions[9], "close");
    assert_eq!(actions.iter().filter(|action| action.starts_with("open")).count(), 2);
}

#[test]
fn chunks_are_not_split_again() {
    let settings = client(4);
    assert!(matches!(
        settings.get_object("bucket", "key", &params(10..19)),
        GetObjectPlan::Split(_)
    ));
    for chunk in [10..14, 14..18, 18..19] {
        assert!(matches!(
            settings.get_object("bucket", "key", &params(chunk)),
            GetObjectPlan::Single(_)
        ));
    }
}

#[test]
fn data_of_a_chunk_keeps_its_position() {
    let request = second_chunk(client(4), 10..19);
    assert_eq!(request.params.range, Some(14..18));
    let adjustment = request.request().options.offset_adjustment;
    match on_body::<u8, u8>(3, adjustment, None, b"h") {
        S3GetObjectEvent::BodyPart(part) => assert_eq!(part.offset, 17),
        other => panic!("unexpected {:?}", other),
    }
}

#[test]
fn a_split_response_never_runs_out_of_window() {
    let event = Some(S3GetObjectEvent::<u8, u8>::Headers(headers(1)));
    let mut response = client(4).on_first_split_event(&params(10..19), event).unwrap();
    let handle = response.backpressure_handle().unwrap();
    assert_eq!(handle.increment_read_window(4), None);
    assert_eq!(handle.ensure_read_window(12), None);
    assert!(matches!(
        response.poll_next(ReceivedEvent::<u8, u8>::Pending),
        PolledPart::Pending
    ));
}
