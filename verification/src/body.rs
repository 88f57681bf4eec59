//! Parts of an object's body.

use bytes::Bytes;
use vstd::prelude::*;

verus! {

/// A shared, immutable byte buffer.
#[verifier::external_type_specification]
#[verifier::external_body]
pub struct ExBytes(bytes::Bytes);

/// The bytes that a buffer holds.
pub uninterp spec fn content(buffer: bytes::Bytes) -> Seq<u8>;

/// `Bytes::len` gives the number of bytes in the buffer.
pub assume_specification[ bytes::Bytes::len ](buffer: &bytes::Bytes) -> (len: usize)
    ensures
        len == content(*buffer).len(),
;

/// `Bytes::copy_from_slice` makes a buffer that holds the bytes of the slice.
pub assume_specification[ bytes::Bytes::copy_from_slice ](data: &[u8]) -> (buffer: bytes::Bytes)
    ensures
        content(buffer) == data@,
;

/// A part of an object's body.
#[derive(Debug)]
pub struct GetBodyPart {
    /// Position of the first byte of this part within the object.
    pub offset: u64,
    pub data: Bytes,
}

impl GetBodyPart {
    /// The position right after the last byte of this part.
    pub open spec fn end(self) -> int {
        self.offset + content(self.data).len()
    }

    /// The position right after the last byte of this part.
    pub fn end_offset(&self) -> (end: u64)
        requires
            self.end() <= u64::MAX,
        ensures
            end == self.end(),
    {
        self.offset + self.data.len() as u64
    }
}

/// The buffer for received data: the owned one where the data's storage could be taken over,
/// otherwise a copy.
pub fn part_buffer(owned: Option<Bytes>, data: &[u8]) -> (buffer: Bytes)
    ensures
        match owned {
            Some(taken) => buffer == taken,
            None => content(buffer) == data@,
        },
{
    match owned {
        Some(taken) => taken,
        None => Bytes::copy_from_slice(data),
    }
}

/// Whether parts cover the bytes from `start` to `end`, one after another.
pub open spec fn covers(parts: Seq<GetBodyPart>, start: int, end: int) -> bool
    decreases parts.len(),
{
    if parts.len() == 0 {
        start == end
    } else {
        parts.last().end() == end && covers(parts.drop_last(), start, parts.last().offset as int)
    }
}

/// The bytes of a sequence of parts.
pub open spec fn joined(parts: Seq<GetBodyPart>) -> Seq<u8>
    decreases parts.len(),
{
    if parts.len() == 0 {
        seq![]
    } else {
        joined(parts.drop_last()) + content(parts.last().data)
    }
}

/// Whether a part holds the bytes that an object has at the offset of the part.
pub open spec fn is_part_of(part: GetBodyPart, object: Seq<u8>) -> bool {
    part.end() <= object.len() && content(part.data) == object.subrange(
        part.offset as int,
        part.end(),
    )
}

/// Parts of an object that cover a range one after another hold the bytes of that range.
pub proof fn law_parts_join_to_range(
    parts: Seq<GetBodyPart>,
    start: int,
    end: int,
    object: Seq<u8>,
)
    requires
        0 <= start <= object.len(),
        covers(parts, start, end),
        forall|i: int| 0 <= i < parts.len() ==> is_part_of(#[trigger] parts[i], object),
    ensures
        start <= end <= object.len(),
        joined(parts) == object.subrange(start, end),
    decreases parts.len(),
{
    if parts.len() == 0 {
        assert(object.subrange(start, end) =~= seq![]);
    } else {
        let before = parts.drop_last();
        let last = parts.last();
        assert(last == parts[parts.len() - 1]);
        assert forall|i: int| 0 <= i < before.len() implies is_part_of(
            #[trigger] before[i],
            object,
        ) by {
            assert(before[i] == parts[i]);
        }
        law_parts_join_to_range(before, start, last.offset as int, object);
        assert(object.subrange(start, end) =~= object.subrange(start, last.offset as int)
            + object.subrange(last.offset as int, end));
    }
}

/// Data that the runtime has received, at the offset that the runtime gives it.
pub struct ReceivedData {
    pub offset: u64,
    pub bytes: Seq<u8>,
}

impl ReceivedData {
    /// The offset after the data, as the runtime counts.
    pub open spec fn end(self) -> int {
        self.offset + self.bytes.len()
    }
}

/// Whether a part holds received data, at the offset that the runtime gives it plus an adjustment.
pub open spec fn is_placed(part: GetBodyPart, data: ReceivedData, adjustment: u64) -> bool {
    &&& part.offset == data.offset + adjustment
    &&& content(part.data) == data.bytes
}

/// Whether parts hold received data one for one, each placed with the same adjustment.
pub open spec fn are_placed(
    parts: Seq<GetBodyPart>,
    data: Seq<ReceivedData>,
    adjustment: u64,
) -> bool {
    &&& parts.len() == data.len()
    &&& forall|i: int| 0 <= i < parts.len() ==> is_placed(#[trigger] parts[i], data[i], adjustment)
}

/// Whether received data covers the bytes from `start` to `end`, one after another, as the runtime
/// counts.
pub open spec fn data_covers(data: Seq<ReceivedData>, start: int, end: int) -> bool
    decreases data.len(),
{
    if data.len() == 0 {
        start == end
    } else {
        data.last().end() == end && data_covers(data.drop_last(), start, data.last().offset as int)
    }
}

/// Whether received data is what `body` has at that offset.
pub open spec fn is_data_of(data: ReceivedData, body: Seq<u8>) -> bool {
    data.end() <= body.len() && data.bytes == body.subrange(data.offset as int, data.end())
}

/// If received data covers a range as the runtime counts, the parts that hold it cover that range
/// moved by the adjustment.
pub proof fn law_placed_data_covers(
    parts: Seq<GetBodyPart>,
    data: Seq<ReceivedData>,
    adjustment: u64,
    start: int,
    end: int,
)
    requires
        are_placed(parts, data, adjustment),
        data_covers(data, start, end),
    ensures
        covers(parts, start + adjustment, end + adjustment),
    decreases parts.len(),
{
    if parts.len() > 0 {
        assert(is_placed(parts[parts.len() - 1], data[data.len() - 1], adjustment));
        assert forall|i: int| 0 <= i < parts.len() - 1 implies is_placed(
            #[trigger] parts.drop_last()[i],
            data.drop_last()[i],
            adjustment,
        ) by {
            assert(is_placed(parts[i], data[i], adjustment));
        }
        law_placed_data_covers(
            parts.drop_last(),
            data.drop_last(),
            adjustment,
            start,
            data.last().offset as int,
        );
    }
}

/// If `body` is what an object has from the offset of the adjustment on, a part that holds data of
/// `body` holds what the object has at the offset of the part.
pub proof fn law_placed_data_is_of_object(
    part: GetBodyPart,
    data: ReceivedData,
    adjustment: u64,
    body: Seq<u8>,
    object: Seq<u8>,
)
    requires
        is_placed(part, data, adjustment),
        is_data_of(data, body),
        adjustment + body.len() <= object.len(),
        body == object.subrange(adjustment as int, adjustment + body.len()),
    ensures
        is_part_of(part, object),
{
    assert(content(part.data) =~= object.subrange(part.offset as int, part.end()));
}

/// A part ends as many bytes after its offset as it holds.
pub proof fn law_part_ends_after_its_bytes(part: GetBodyPart)
    ensures
        part.end() - part.offset == content(part.data).len(),
{
}

} // verus!
