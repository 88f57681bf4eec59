use s3_get_object::error::{
    classify_get_object_error, parse_get_object_error, GetObjectError, MetaRequestResult,
};
use s3_get_object::xml::root_child_text;

fn make_result(response_status: i32, body: &[u8]) -> MetaRequestResult {
    MetaRequestResult {
        response_status,
        crt_error: 1,
        error_response_headers: None,
        error_response_body: Some(body.to_vec()),
    }
}

#[test]
fn parse_404_no_such_key() {
    let body = br#"<?xml version="1.0" encoding="UTF-8"?><Error><Code>NoSuchKey</Code><Message>The specified key does not exist.</Message><Key>not-a-real-key</Key><RequestId>NTKJWKHQBYNS73A9</RequestId><HostId>Nc9kWNrf4kGoq5NIUnQ4t7u04ZZXGm/i463v+jwCI8sIrZBqeYI8uffLHQ+/qusdMWNuUwqeXHU=</HostId></Error>"#;
    let result = make_result(404, &body[..]);
    let result = parse_get_object_error(&result, ());
    assert!(matches!(result, Some(GetObjectError::NoSuchKey(_))));
}

#[test]
fn parse_404_no_such_bucket() {
    let body = br#"<?xml version="1.0" encoding="UTF-8"?><Error><Code>NoSuchBucket</Code><Message>The specified bucket does not exist</Message><BucketName>amzn-s3-demo-bucket</BucketName><RequestId>4VAGDP5HMYTDNB3Y</RequestId><HostId>JMgGqpVKIaaTieG68IODiV2piWw/q9VCTowGvWP36BEz6oIVEXiesn8cDE5ph7if0gpY5WU1Wc8=</HostId></Error>"#;
    let result = make_result(404, &body[..]);
    let result = parse_get_object_error(&result, ());
    assert!(matches!(result, Some(GetObjectError::NoSuchBucket(_))));
}

#[test]
fn parse_403_glacier_storage_class() {
    let body = br#"<?xml version="1.0" encoding="UTF-8"?><Error><Code>InvalidObjectState</Code><Message>The action is not valid for the object's storage class</Message><RequestId>9FEFFF118E15B86F</RequestId><HostId>WVQ5kzhiT+oiUfDCOiOYv8W4Tk9eNcxWi/MK+hTS/av34Xy4rBU3zsavf0aaaaa</HostId></Error>"#;
    let result = make_result(403, &body[..]);
    let result = parse_get_object_error(&result, ());
    assert_eq!(result, None);
}

#[test]
fn precondition_failure_needs_no_body() {
    let mut result = make_result(412, b"not a document");
    assert_eq!(
        parse_get_object_error(&result, 7u8),
        Some(GetObjectError::PreconditionFailed(7))
    );
    result.error_response_body = None;
    assert_eq!(
        parse_get_object_error(&result, 8u8),
        Some(GetObjectError::PreconditionFailed(8))
    );
}

#[test]
fn not_found_without_a_known_code_has_no_meaning() {
    let bodies: [&[u8]; 6] = [
        b"",
        b"not a document",
        b"<Error><Message>gone</Message></Error>",
        b"<Error><Code/></Error>",
        b"<Error><Code>AccessDenied</Code></Error>",
        b"<Error><Inner><Code>NoSuchKey</Code></Inner></Error>",
    ];
    for body in bodies {
        assert_eq!(parse_get_object_error(&make_result(404, body), ()), None);
    }
    let mut result = make_result(404, b"");
    result.error_response_body = None;
    assert_eq!(parse_get_object_error(&result, ()), None);
}

#[test]
fn the_first_code_counts() {
    let body = b"<Error><Code>NoSuchBucket</Code><Code>NoSuchKey</Code></Error>";
    assert_eq!(
        parse_get_object_error(&make_result(404, body), 1u8),
        Some(GetObjectError::NoSuchBucket(1))
    );
    let empty_first = b"<Error><Code></Code><Code>NoSuchKey</Code></Error>";
    assert_eq!(parse_get_object_error(&make_result(404, empty_first), ()), None);
}

#[test]
fn text_of_a_child_is_joined() {
    let document = b"<Error><Code>No<![CDATA[Such]]>Key</Code></Error>";
    assert_eq!(root_child_text(document, "Code"), Some("NoSuchKey".to_string()));
    assert_eq!(root_child_text(document, "Message"), None);
    assert_eq!(
        parse_get_object_error(&make_result(404, document), ()),
        Some(GetObjectError::NoSuchKey(()))
    );
}

#[test]
fn namespaces_of_the_code_are_ignored() {
    let document = br#"<Error xmlns:s="urn:x"><s:Code>NoSuchKey</s:Code></Error>"#;
    assert_eq!(root_child_text(document, "Code"), Some("NoSuchKey".to_string()));
}

#[test]
fn classifies_status_and_code() {
    let code = |text: &str| Some(text.to_string());
    assert_eq!(
        classify_get_object_error(404, code("NoSuchKey"), 1u8),
        Some(GetObjectError::NoSuchKey(1))
    );
    assert_eq!(
        classify_get_object_error(404, code("NoSuchBucket"), 2u8),
        Some(GetObjectError::NoSuchBucket(2))
    );
    assert_eq!(classify_get_object_error(404, code("nosuchkey"), ()), None);
    assert_eq!(classify_get_object_error(404, None, ()), None);
    assert_eq!(
        classify_get_object_error(412, code("NoSuchKey"), ()),
        Some(GetObjectError::PreconditionFailed(()))
    );
    assert_eq!(classify_get_object_error(500, code("NoSuchKey"), ()), None);
    assert_eq!(classify_get_object_error(0, None, ()), None);
}
