use bytes::Bytes;
use s3_get_object::backpressure::S3BackpressureHandle;
use s3_get_object::body::GetBodyPart;
use s3_get_object::error::{Headers, ObjectClientError, S3RequestError};
use s3_get_object::event::S3GetObjectEvent;
use s3_get_object::response::{
    checksum_result, ObjectChecksumError, PolledPart, ReceivedEvent, S3GetObjectResponse,
};

type Received = ReceivedEvent<u8, u8>;

fn response_with(headers: &[(&[u8], &[u8])]) -> S3GetObjectResponse {
    S3GetObjectResponse {
        requested_checksums: false,
        backpressure_handle: None,
        headers: Headers {
            entries: headers.iter().map(|(n, v)| (n.to_vec(), v.to_vec())).collect(),
        },
        next_offset: 0,
    }
}

fn sorted_metadata(headers: &[(&[u8], &[u8])]) -> Vec<(String, String)> {
    let mut entries = response_with(headers).get_object_metadata().entries;
    entries.sort();
    entries
}

fn pair(name: &str, value: &str) -> (String, String) {
    (name.to_string(), value.to_string())
}

#[test]
fn metadata_is_taken_from_prefixed_headers() {
    let found = sorted_metadata(&[
        (b"x-amz-meta-color", b"blue"),
        (b"ETag", b"\"abc\""),
        (b"x-amz-meta-", b"nameless"),
        (b"x-amz-metasize", b"9"),
        (b"X-Amz-Meta-shape", b"round"),
        (b"x-amz-meta-caf\xc3\xa9", b"na\xc3\xafve"),
    ]);
    assert_eq!(
        found,
        vec![pair("", "nameless"), pair("caf\u{e9}", "na\u{ef}ve"), pair("color", "blue")]
    );
}

#[test]
fn metadata_that_is_not_text_is_left_out() {
    let found = sorted_metadata(&[
        (b"x-amz-meta-bad\xff", b"value"),
        (b"x-amz-meta-bad", b"\xc3"),
        (b"x-amz-meta-good", b"value"),
    ]);
    assert_eq!(found, vec![pair("good", "value")]);
}

#[test]
fn the_last_value_of_repeated_metadata_counts() {
    let found = sorted_metadata(&[
        (b"x-amz-meta-a", b"1"),
        (b"x-amz-meta-b", b"2"),
        (b"x-amz-meta-a", b"3"),
        (b"x-amz-meta-a", b"\xff"),
    ]);
    assert_eq!(found, vec![pair("a", "3"), pair("b", "2")]);
    assert_eq!(sorted_metadata(&[]), vec![]);
}

#[test]
fn checksums_have_to_be_requested() {
    let mut response = response_with(&[(b"x-amz-checksum-crc32", b"AAAAAA==")]);
    assert_eq!(
        response.get_object_checksum(|_| -> Result<u8, &str> { panic!("nothing to parse") }),
        Err(ObjectChecksumError::DidNotRequestChecksums)
    );
    response.requested_checksums = true;
    assert_eq!(
        response.get_object_checksum(|headers| -> Result<Vec<u8>, &str> {
            Ok(headers.entries[0].1.clone())
        }),
        Ok(b"AAAAAA==".to_vec())
    );
    assert_eq!(
        response.get_object_checksum(|_| -> Result<u8, &str> { Err("bad header") }),
        Err(ObjectChecksumError::HeadersError("bad header"))
    );
}

#[test]
fn what_the_headers_say_about_checksums_is_passed_on() {
    assert_eq!(checksum_result::<u8, &str>(Ok(1)), Ok(1));
    assert_eq!(
        checksum_result::<u8, &str>(Err("bad header")),
        Err(ObjectChecksumError::HeadersError("bad header"))
    );
}

#[test]
fn a_part_moves_the_next_offset() {
    let mut response = response_with(&[]);
    response.next_offset = 100;
    let part = GetBodyPart { offset: 100, data: Bytes::from_static(b"hello") };
    match response.poll_next(Received::Event(S3GetObjectEvent::BodyPart(part))) {
        PolledPart::Item(Ok(part)) => {
            assert_eq!(part.offset, 100);
            assert_eq!(&part.data[..], b"hello");
            assert_eq!(part.end_offset(), 105);
        }
        other => panic!("unexpected {:?}", other),
    }
    assert_eq!(response.next_offset, 105);
}

#[test]
fn the_end_and_errors_are_passed_on() {
    let mut response = response_with(&[]);
    assert!(matches!(response.poll_next(Received::Terminated), PolledPart::End));
    assert!(matches!(response.poll_next(Received::Closed), PolledPart::End));
    let error = ObjectClientError::ClientError(S3RequestError::Other(4));
    assert!(matches!(
        response.poll_next(Received::Event(S3GetObjectEvent::Error(error))),
        PolledPart::Item(Err(ObjectClientError::ClientError(S3RequestError::Other(4))))
    ));
    assert!(matches!(response.poll_next(Received::Pending), PolledPart::Pending));
    assert_eq!(response.next_offset, 0);
}

#[test]
fn an_empty_read_window_is_an_error() {
    let mut response = response_with(&[]);
    response.next_offset = 50;
    response.backpressure_handle = Some(S3BackpressureHandle::new(50));
    assert!(matches!(
        response.poll_next(Received::Pending),
        PolledPart::Item(Err(ObjectClientError::ClientError(S3RequestError::EmptyReadWindow)))
    ));
    let handle = response.backpressure_handle().unwrap();
    assert_eq!(handle.ensure_read_window(51), Some(1));
    assert!(matches!(response.poll_next(Received::Pending), PolledPart::Pending));
}

#[test]
fn a_dummy_handle_allows_unlimited_reading() {
    let mut response = response_with(&[]);
    response.backpressure_handle = Some(S3BackpressureHandle::dummy());
    response.backpressure_handle().unwrap().increment_read_window(10);
    for next_offset in [0, 9, 10, u64::MAX] {
        response.next_offset = next_offset;
        assert!(matches!(response.poll_next(Received::Pending), PolledPart::Pending));
    }
}

#[test]
fn there_may_be_no_handle() {
    assert!(response_with(&[]).backpressure_handle().is_none());
}

#[test]
fn the_next_offset_follows_the_parts() {
    let mut response = response_with(&[]);
    response.next_offset = 10;
    response.backpressure_handle = Some(S3BackpressureHandle::new(15));
    for (offset, data, next) in [(10u64, "abc", 13u64), (13, "", 13), (13, "de", 15)] {
        let part = GetBodyPart { offset, data: Bytes::from(data) };
        let polled = response.poll_next(Received::Event(S3GetObjectEvent::BodyPart(part)));
        assert!(matches!(polled, PolledPart::Item(Ok(_))));
        assert_eq!(response.next_offset, next);
        assert_eq!(
            matches!(response.poll_next(Received::Pending), PolledPart::Pending),
            next < 15
        );
    }
}
