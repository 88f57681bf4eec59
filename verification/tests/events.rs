use bytes::Bytes;
use s3_get_object::body::part_buffer;
use s3_get_object::error::{Headers, ObjectClientError, S3RequestError};
use s3_get_object::event::{on_body, on_finish, HeadersFilter, S3GetObjectEvent};

fn headers(tag: u8) -> Headers {
    Headers { entries: vec![(vec![tag], vec![])] }
}

fn send(filter: &mut HeadersFilter, status: i32, tag: u8) -> Option<u8> {
    match filter.on_headers::<u8, u8>(status, headers(tag)) {
        Some(S3GetObjectEvent::Headers(headers)) => Some(headers.entries[0].0[0]),
        Some(_) => panic!("not headers"),
        None => None,
    }
}

#[test]
fn only_the_first_successful_headers_are_reported() {
    let mut filter = HeadersFilter::new();
    assert_eq!(send(&mut filter, 503, 1), None);
    assert_eq!(send(&mut filter, 199, 2), None);
    assert_eq!(send(&mut filter, 300, 3), None);
    assert_eq!(send(&mut filter, 299, 4), Some(4));
    assert_eq!(send(&mut filter, 200, 5), None);
    assert_eq!(send(&mut filter, 206, 6), None);
    let mut another = HeadersFilter::new();
    assert_eq!(send(&mut another, 200, 7), Some(7));
}

#[test]
fn data_is_reported_at_its_position_in_the_object() {
    match on_body::<u8, u8>(20, 1000, None, b"copied") {
        S3GetObjectEvent::BodyPart(part) => {
            assert_eq!(part.offset, 1020);
            assert_eq!(&part.data[..], b"copied");
            assert_eq!(part.end_offset(), 1026);
        }
        other => panic!("unexpected {:?}", other),
    }
}

#[test]
fn owned_data_is_not_copied() {
    let owned = Bytes::from(vec![1u8, 2, 3]);
    let address = owned.as_ptr();
    let buffer = part_buffer(Some(owned), &[1, 2, 3]);
    assert_eq!(buffer.as_ptr(), address);
    assert_eq!(&part_buffer(None, &[4, 5])[..], &[4, 5]);
}

#[test]
fn only_failures_are_reported_at_the_end() {
    assert!(on_finish::<u8, u8>(Ok(())).is_none());
    let error = ObjectClientError::ClientError(S3RequestError::Other(3));
    assert!(matches!(
        on_finish::<u8, u8>(Err(error)),
        Some(S3GetObjectEvent::Error(ObjectClientError::ClientError(S3RequestError::Other(3))))
    ));
}

#[test]
fn events_come_in_the_order_of_the_reports() {
    let mut filter = HeadersFilter::new();
    let mut events: Vec<S3GetObjectEvent<u8, u8>> = Vec::new();
    events.extend(filter.on_headers(200, headers(1)));
    events.push(on_body(0, 10, None, b"ab"));
    events.extend(filter.on_headers(200, headers(2)));
    events.push(on_body(2, 10, None, b"cde"));
    events.extend(on_finish(Err(ObjectClientError::ServiceError(9))));
    let described: Vec<String> = events
        .iter()
        .map(|event| match event {
            S3GetObjectEvent::Headers(headers) => format!("headers {}", headers.entries[0].0[0]),
            S3GetObjectEvent::BodyPart(part) => format!("part {}+{}", part.offset, part.data.len()),
            S3GetObjectEvent::Error(_) => "error".to_string(),
        })
        .collect();
    assert_eq!(described, vec!["headers 1", "part 10+2", "part 12+3", "error"]);
}
