use s3_get_object::backpressure::S3BackpressureHandle;
use s3_get_object::body::GetBodyPart;
use s3_get_object::client::{GetObjectPlan, S3CrtClient};
use s3_get_object::error::{
    Headers, MetaRequestResult, ObjectClientError, ResponseHeadersError, S3RequestError,
};
use s3_get_object::event::S3GetObjectEvent;
use s3_get_object::request::{
    range_header_value, ChecksumMode, GetObjectParams, MessageStep, MetaRequestType,
};
use s3_get_object::single::{GetObjectSingle, RedirectInfo, SingleOutcome, LOCATION_HEADER};
use s3_get_object::text::decimal_text;

type Event = S3GetObjectEvent<u8, u8>;
type Outcome = SingleOutcome<u8, u8>;

fn client() -> S3CrtClient {
    S3CrtClient {
        follow_redirects: true,
        max_redirects: 2,
        read_part_size: 8,
        enable_backpressure: true,
        initial_read_window_size: 64,
    }
}

fn params(range: Option<std::ops::Range<u64>>) -> GetObjectParams {
    GetObjectParams { range, if_match: None, checksum_mode: None, custom_id: None }
}

fn steps(request: &GetObjectSingle) -> Vec<String> {
    request
        .request()
        .steps
        .iter()
        .map(|step| match step {
            MessageStep::RedirectTo(location) => format!("to {}", location),
            MessageStep::SetHeader(name, value) => format!("{}: {}", name, value),
            MessageStep::SetRequestPath(path) => format!("path {}", path),
        })
        .collect()
}

fn redirect_response(with_headers: bool) -> Option<Event> {
    Some(S3GetObjectEvent::Error(ObjectClientError::ClientError(S3RequestError::ResponseError(
        MetaRequestResult {
            response_status: 307,
            crt_error: 0,
            error_response_headers: if with_headers {
                Some(Headers { entries: vec![] })
            } else {
                None
            },
            error_response_body: None,
        },
    ))))
}

fn redirect_to(location: &[u8]) -> RedirectInfo {
    RedirectInfo { is_redirect: true, location: Some(location.to_vec()) }
}

fn no_redirect() -> RedirectInfo {
    RedirectInfo { is_redirect: false, location: None }
}

#[test]
fn numbers_are_written_in_decimal() {
    assert_eq!(decimal_text(0), "0");
    assert_eq!(decimal_text(9), "9");
    assert_eq!(decimal_text(10), "10");
    assert_eq!(decimal_text(1234567890), "1234567890");
    assert_eq!(decimal_text(u64::MAX), "18446744073709551615");
}

#[test]
fn range_headers_are_inclusive() {
    assert_eq!(range_header_value(&(0..1)), "bytes=0-0");
    assert_eq!(range_header_value(&(100..250)), "bytes=100-249");
    assert_eq!(range_header_value(&(5..5)), "bytes=5-4");
    assert_eq!(range_header_value(&(3..0)), "bytes=3-0");
    assert_eq!(
        range_header_value(&(0..u64::MAX)),
        "bytes=0-18446744073709551614"
    );
}

#[test]
fn a_plain_request_sets_the_path() {
    let request = client().get_object_single("bucket", "some/key", &params(None), false, false);
    assert_eq!(steps(&request), vec!["accept: */*", "path /some/key"]);
    let plan = request.request();
    assert_eq!(plan.method, "GET");
    assert_eq!(plan.bucket, "bucket");
    assert_eq!(plan.options.request_type, MetaRequestType::GetObject);
    assert_eq!(plan.options.operation_name, None);
    assert_eq!(plan.options.part_size, Some(8));
    assert_eq!(plan.options.custom_id, None);
    assert_eq!(plan.options.offset_adjustment, 0);
}

#[test]
fn all_parameters_are_used() {
    let all = GetObjectParams {
        range: Some(16..24),
        if_match: Some("\"tag\"".to_string()),
        checksum_mode: Some(ChecksumMode::Enabled),
        custom_id: Some(42),
    };
    let request = client().get_object_single("bucket", "key", &all, true, false);
    assert_eq!(
        steps(&request),
        vec![
            "accept: */*",
            "x-amz-checksum-mode: enabled",
            "If-Match: \"tag\"",
            "Range: bytes=16-23",
            "path /key",
        ]
    );
    let plan = request.request();
    assert_eq!(plan.options.request_type, MetaRequestType::Default);
    assert_eq!(plan.options.operation_name, Some("GetObject".to_string()));
    assert_eq!(plan.options.part_size, None);
    assert_eq!(plan.options.custom_id, Some(42));
    assert_eq!(plan.options.offset_adjustment, 16);
}

#[test]
fn redirects_are_followed_up_to_the_limit() {
    let tagged = GetObjectParams {
        range: Some(0..8),
        if_match: Some("\"tag\"".to_string()),
        checksum_mode: Some(ChecksumMode::Enabled),
        custom_id: None,
    };
    let mut request = client().get_object_single("bucket", "key", &tagged, false, false);
    let outcome = request.on_first_event(redirect_response(true), redirect_to(b"https://one/x?y"));
    assert!(matches!(outcome, Outcome::FollowRedirect));
    assert_eq!(request.redirect_count, 1);
    assert_eq!(
        steps(&request),
        vec![
            "to https://one/x?y",
            "accept: */*",
            "x-amz-checksum-mode: enabled",
            "Range: bytes=0-7",
        ]
    );
    let outcome = request.on_first_event(redirect_response(true), redirect_to(b"two\xff"));
    assert!(matches!(outcome, Outcome::FollowRedirect));
    assert_eq!(request.redirect_location, Some("two\u{fffd}".to_string()));
    let outcome = request.on_first_event(redirect_response(true), redirect_to(b"three"));
    assert!(matches!(
        outcome,
        Outcome::Fail(ObjectClientError::ClientError(S3RequestError::MaxRedirectsExceeded(2)))
    ));
    assert_eq!(request.redirect_count, 2);
}

#[test]
fn redirects_are_not_followed_unless_enabled() {
    let mut settings = client();
    settings.follow_redirects = false;
    let mut request = settings.get_object_single("bucket", "key", &params(None), false, false);
    let outcome = request.on_first_event(redirect_response(true), redirect_to(b"one"));
    assert!(matches!(
        outcome,
        Outcome::Fail(ObjectClientError::ClientError(S3RequestError::MaxRedirectsExceeded(0)))
    ));
}

#[test]
fn redirects_without_a_location_are_passed_on() {
    let mut request = client().get_object_single("bucket", "key", &params(None), false, false);
    let nowhere = RedirectInfo { is_redirect: true, location: None };
    for (event, info) in [
        (redirect_response(true), nowhere),
        (redirect_response(false), redirect_to(b"one")),
        (redirect_response(true), no_redirect()),
    ] {
        match request.on_first_event(event, info) {
            Outcome::Fail(ObjectClientError::ClientError(S3RequestError::ResponseError(
                result,
            ))) => assert_eq!(result.response_status, 307),
            other => panic!("unexpected {:?}", other),
        }
    }
    assert_eq!(request.redirect_count, 0);
}

#[test]
fn other_errors_are_passed_on() {
    let mut request = client().get_object_single("bucket", "key", &params(None), false, false);
    let rejected = Some(Event::Error(ObjectClientError::ServiceError(5)));
    assert!(matches!(
        request.on_first_event(rejected, redirect_to(b"one")),
        Outcome::Fail(ObjectClientError::ServiceError(5))
    ));
    let broken = Some(Event::Error(ObjectClientError::ClientError(
        S3RequestError::ConstructionFailure(6),
    )));
    assert!(matches!(
        request.on_first_event(broken, redirect_to(b"one")),
        Outcome::Fail(ObjectClientError::ClientError(S3RequestError::ConstructionFailure(6)))
    ));
}

#[test]
fn headers_have_to_come_first() {
    let mut request = client().get_object_single("bucket", "key", &params(None), false, false);
    let part = GetBodyPart { offset: 0, data: bytes::Bytes::new() };
    for event in [None, Some(Event::BodyPart(part))] {
        assert!(matches!(
            request.on_first_event(event, no_redirect()),
            Outcome::Fail(ObjectClientError::ClientError(S3RequestError::InternalError(
                ResponseHeadersError::MissingHeaders
            )))
        ));
    }
}

#[test]
fn headers_begin_the_response() {
    let headers = || Some(Event::Headers(Headers { entries: vec![(vec![1], vec![2])] }));
    let ranged = GetObjectParams {
        checksum_mode: Some(ChecksumMode::Enabled),
        ..params(Some(100..200))
    };
    let mut request = client().get_object_single("bucket", "key", &ranged, false, false);
    match request.on_first_event(headers(), no_redirect()) {
        Outcome::Respond(response) => {
            assert!(response.requested_checksums);
            assert_eq!(response.next_offset, 100);
            assert_eq!(response.headers.entries, vec![(vec![1], vec![2])]);
            let handle: S3BackpressureHandle = response.backpressure_handle.unwrap();
            assert!(handle.meta_request);
            assert_eq!(handle.read_window_end_offset(), 164);
        }
        other => panic!("unexpected {:?}", other),
    }

    let mut request = client().get_object_single("bucket", "key", &params(None), false, true);
    match request.on_first_event(headers(), no_redirect()) {
        Outcome::Respond(response) => {
            assert!(!response.requested_checksums);
            assert_eq!(response.next_offset, 0);
            assert!(response.backpressure_handle.is_none());
        }
        other => panic!("unexpected {:?}", other),
    }

    let mut settings = client();
    settings.enable_backpressure = false;
    let mut request = settings.get_object_single("bucket", "key", &params(None), false, false);
    match request.on_first_event(headers(), no_redirect()) {
        Outcome::Respond(response) => assert!(response.backpressure_handle.is_none()),
        other => panic!("unexpected {:?}", other),
    }
}

#[test]
fn large_ranges_are_split_where_redirects_are_followed() {
    let splits = |settings: S3CrtClient, range: Option<std::ops::Range<u64>>| {
        matches!(settings.get_object("bucket", "key", &params(range)), GetObjectPlan::Split(_))
    };
    assert!(splits(client(), Some(0..9)));
    assert!(splits(client(), Some(1..u64::MAX)));
    assert!(!splits(client(), Some(0..8)));
    assert!(!splits(client(), Some(100..108)));
    assert!(!splits(client(), Some(100..0)));
    assert!(!splits(client(), None));
    let mut settings = client();
    settings.follow_redirects = false;
    assert!(!splits(settings, Some(0..9)));
    match settings.get_object("bucket", "key", &params(Some(0..9))) {
        GetObjectPlan::Single(request) => {
            assert!(!request.use_default_request_type);
            assert!(!request.disable_backpressure);
            assert_eq!(request.bucket, "bucket");
            assert_eq!(request.key, "key");
            assert_eq!(request.params.range, Some(0..9));
        }
        other => panic!("unexpected {:?}", other),
    }
}

#[test]
fn the_initial_window_has_to_end_at_an_offset() {
    let far = params(Some(u64::MAX - 64..u64::MAX));
    assert!(client().get_object_single("b", "k", &far, false, false).initial_window_fits());
    let farther = params(Some(u64::MAX - 63..u64::MAX));
    assert!(!client().get_object_single("b", "k", &farther, false, false).initial_window_fits());
    assert!(client().get_object_single("b", "k", &farther, false, true).initial_window_fits());
    assert_eq!(LOCATION_HEADER, "Location");
}
