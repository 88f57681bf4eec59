# s3_get_object

The decisions that an S3 client makes when it reads an object: what to request, when to follow a
redirect, how to split a large range into chunks, what an error response means, and when a response
must wait for its read window to be extended.

- `src/` is a library, verified with Verus. It does no I/O. Requests and workers are state machines
  that say what to do next and are told what happened.
- `app/` runs those state machines over a runtime that executes HTTP requests, and offers the
  response as a stream.
- `tests/` runs the library on concrete values.

The library trusts a few contracts of code that is not verified here: XML parsing by `xmltree`, the
byte buffers of `bytes`, and text functions of the standard library. They are in `src/xml.rs`,
`src/body.rs` and `src/text.rs`, each with a comment that says what is assumed.
