//! Errors of GetObject requests.

use crate::text::{bytes_view, text_view};
use crate::xml::{
    document_children, law_first_child_counts, law_missing_child_has_no_text, named_child_text,
    root_child_text,
};
use vstd::prelude::*;

verus! {

/// HTTP headers, in the order in which they were received. Names and values are raw bytes.
#[derive(Debug)]
pub struct Headers {
    pub entries: Vec<(Vec<u8>, Vec<u8>)>,
}

/// The final result of a meta request that did not succeed.
#[derive(Debug)]
pub struct MetaRequestResult {
    /// HTTP status of the response, or 0 if there was none.
    pub response_status: i32,
    /// Error code of the runtime that executed the request.
    pub crt_error: i32,
    /// Headers of the error response, if one arrived.
    pub error_response_headers: Option<Headers>,
    /// Body of the error response, if one arrived.
    pub error_response_body: Option<Vec<u8>>,
}

/// A failed operation: the service rejected it, or the client could not complete it.
#[derive(Debug)]
pub enum ObjectClientError<S, C> {
    ServiceError(S),
    ClientError(C),
}

/// Failures of the client. `E` stands for the failures that request handling only passes on.
#[derive(Debug)]
pub enum S3RequestError<E> {
    /// The request could not be built.
    ConstructionFailure(E),
    /// The response broke an assumption about responses.
    InternalError(ResponseHeadersError),
    /// The service answered with an error that has no more specific meaning.
    ResponseError(MetaRequestResult),
    /// A redirect was received after as many as were allowed. Carries the limit.
    MaxRedirectsExceeded(u32),
    /// The read window must be extended before more data can be delivered.
    EmptyReadWindow,
    /// Any other failure.
    Other(E),
}

/// What was wrong with the headers of a response.
#[derive(Debug, Clone, Copy, PartialEq, Eq, Structural)]
pub enum ResponseHeadersError {
    MissingHeaders,
}

/// Errors with which the service answers a GetObject request. `M` describes the error response.
#[derive(Debug, PartialEq, Eq)]
pub enum GetObjectError<M> {
    NoSuchBucket(M),
    NoSuchKey(M),
    PreconditionFailed(M),
}

/// The meaning of an error response with the given status and error code.
pub open spec fn get_object_error<M>(
    response_status: i32,
    error_code: Option<Seq<char>>,
    metadata: M,
) -> Option<GetObjectError<M>> {
    if response_status == 404 && error_code == Some("NoSuchBucket"@) {
        Some(GetObjectError::NoSuchBucket(metadata))
    } else if response_status == 404 && error_code == Some("NoSuchKey"@) {
        Some(GetObjectError::NoSuchKey(metadata))
    } else if response_status == 412 {
        Some(GetObjectError::PreconditionFailed(metadata))
    } else {
        None
    }
}

/// The error code that the body of an error response holds: the text of the first `Code` element
/// below the root.
pub open spec fn body_error_code(body: Option<Seq<u8>>) -> Option<Seq<char>> {
    match body {
        Some(document) => match document_children(document) {
            Some(children) => named_child_text(children, "Code"@),
            None => None,
        },
        None => None,
    }
}

/// The meaning of the result of a failed GetObject request.
pub open spec fn error_meaning<M>(result: MetaRequestResult, metadata: M) -> Option<
    GetObjectError<M>,
> {
    get_object_error(
        result.response_status,
        body_error_code(bytes_view(result.error_response_body)),
        metadata,
    )
}

/// Gives an error response its meaning, from its status and the error code in its body.
///
/// `None` means that the response has no meaning that is specific to GetObject.
pub fn classify_get_object_error<M>(
    response_status: i32,
    error_code: Option<String>,
    metadata: M,
) -> (error: Option<GetObjectError<M>>)
    ensures
        error == get_object_error(response_status, text_view(error_code), metadata),
{
    proof {
        reveal_strlit("NoSuchBucket");
        reveal_strlit("NoSuchKey");
        assert("NoSuchBucket"@.len() != "NoSuchKey"@.len());
    }
    match response_status {
        404 => match error_code {
            Some(code) => {
                if code == "NoSuchBucket".to_owned() {
                    Some(GetObjectError::NoSuchBucket(metadata))
                } else if code == "NoSuchKey".to_owned() {
                    Some(GetObjectError::NoSuchKey(metadata))
                } else {
                    None
                }
            },
            None => None,
        },
        412 => Some(GetObjectError::PreconditionFailed(metadata)),
        _ => None,
    }
}

/// Gives the result of a failed GetObject request its meaning.
///
/// The body is looked at only for status 404, where it tells a missing bucket from a missing key.
pub fn parse_get_object_error<M>(result: &MetaRequestResult, client_error_metadata: M) -> (error:
    Option<GetObjectError<M>>)
    ensures
        error == error_meaning(*result, client_error_metadata),
{
    let error_code = if result.response_status == 404 {
        match &result.error_response_body {
            Some(body) => root_child_text(body.as_slice(), "Code"),
            None => None,
        }
    } else {
        None
    };
    classify_get_object_error(result.response_status, error_code, client_error_metadata)
}

proof fn lemma_codes_differ()
    ensures
        "NoSuchBucket"@ != "NoSuchKey"@,
{
    reveal_strlit("NoSuchBucket");
    reveal_strlit("NoSuchKey");
    assert("NoSuchBucket"@.len() != "NoSuchKey"@.len());
}

/// An error response means a missing bucket or a missing key exactly if its status is 404 and its
/// code says so, and a failed precondition exactly if its status is 412, whatever its code is. No
/// other response has a meaning. The description of the response is handed on.
pub proof fn law_classification_is_exact<M>(
    response_status: i32,
    error_code: Option<Seq<char>>,
    metadata: M,
)
    ensures
        match get_object_error(response_status, error_code, metadata) {
            Some(GetObjectError::NoSuchBucket(kept)) => response_status == 404 && error_code
                == Some("NoSuchBucket"@) && kept == metadata,
            Some(GetObjectError::NoSuchKey(kept)) => response_status == 404 && error_code == Some(
                "NoSuchKey"@,
            ) && kept == metadata,
            Some(GetObjectError::PreconditionFailed(kept)) => response_status == 412 && kept
                == metadata,
            None => response_status != 412 && (response_status == 404 ==> error_code != Some(
                "NoSuchBucket"@,
            ) && error_code != Some("NoSuchKey"@)),
        },
{
    lemma_codes_differ();
}

/// The body of a response counts only if the status is 404. With 412 the precondition has failed,
/// and with any other status the response has no meaning, whatever is in its body and headers.
pub proof fn law_body_counts_for_404_only<M>(result: MetaRequestResult, metadata: M)
    requires
        result.response_status != 404,
    ensures
        result.response_status == 412 ==> error_meaning(result, metadata) == Some(
            GetObjectError::PreconditionFailed(metadata),
        ),
        result.response_status != 412 ==> error_meaning(result, metadata) is None,
{
}

/// With status 404, the text of the first `Code` element below the root of the body decides.
pub proof fn law_code_element_decides<M>(
    result: MetaRequestResult,
    metadata: M,
    body: Vec<u8>,
    children: Seq<(Seq<char>, Seq<Seq<char>>)>,
    i: int,
)
    requires
        result.response_status == 404,
        result.error_response_body == Some(body),
        document_children(body@) == Some(children),
        0 <= i < children.len(),
        children[i].0 == "Code"@,
        forall|j: int| 0 <= j < i ==> (#[trigger] children[j]).0 != "Code"@,
    ensures
        children[i].1.len() == 0 ==> error_meaning(result, metadata) is None,
        children[i].1.len() > 0 ==> match error_meaning(result, metadata) {
            Some(GetObjectError::NoSuchBucket(kept)) => children[i].1.flatten() == "NoSuchBucket"@
                && kept == metadata,
            Some(GetObjectError::NoSuchKey(kept)) => children[i].1.flatten() == "NoSuchKey"@ && kept
                == metadata,
            Some(GetObjectError::PreconditionFailed(_)) => false,
            None => children[i].1.flatten() != "NoSuchBucket"@ && children[i].1.flatten()
                != "NoSuchKey"@,
        },
{
    lemma_codes_differ();
    law_first_child_counts(children, "Code"@, i);
}

/// With status 404, a response without a body, with a body that does not parse, or with one that
/// has no `Code` element below its root, has no meaning.
pub proof fn law_no_code_no_meaning<M>(result: MetaRequestResult, metadata: M)
    requires
        result.response_status == 404,
        result.error_response_body matches Some(body) ==> (document_children(
            body@,
        ) matches Some(children) ==> forall|j: int|
            0 <= j < children.len() ==> (#[trigger] children[j]).0 != "Code"@),
    ensures
        error_meaning(result, metadata) is None,
{
    if let Some(body) = result.error_response_body {
        if let Some(children) = document_children(body@) {
            law_missing_child_has_no_text(children, "Code"@);
        }
    }
}

} // verus!
