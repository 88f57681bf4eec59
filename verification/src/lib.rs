//! The decisions behind S3 GetObject requests.
//!
//! A [`client::S3CrtClient`] plans a request: as a single one ([`single::GetObjectSingle`]), which
//! follows redirects, or split into one request per chunk of a large range
//! ([`split::SplitWorker`]). Each plan says what to send and takes back what happened. What the
//! runtime reports becomes events ([`event`]), and the events become a stream of body parts with
//! flow control ([`response::S3GetObjectResponse`]). Error responses get their meaning in
//! [`error`].
//!
//! Nothing here sends or waits; that is left to the caller.

pub mod backpressure;
pub mod body;
pub mod client;
pub mod error;
pub mod event;
pub mod request;
pub mod response;
pub mod single;
pub mod split;
pub mod split_laws;
pub mod stream_laws;
pub mod text;
pub mod xml;
