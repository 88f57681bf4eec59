//! Flow control of a GetObject response.

use vstd::prelude::*;

verus! {

/// The read window of a response, and the means to extend it.
#[derive(Debug)]
pub struct S3BackpressureHandle {
    /// Upper bound of the current read window. Data is delivered up to this offset *exclusively*.
    pub read_window_end_offset: u64,
    /// Whether a meta request delivers the data and has to be told when the window grows. A handle
    /// without one never blocks.
    pub meta_request: bool,
}

/// By how much a window that ends at `end` has to grow to end at `desired` or later.
pub open spec fn window_shortfall(end: u64, desired: u64) -> u64 {
    if desired > end {
        (desired - end) as u64
    } else {
        0
    }
}

impl S3BackpressureHandle {
    /// The window of a handle without a meta request extends over everything.
    pub open spec fn wf(self) -> bool {
        !self.meta_request ==> self.read_window_end_offset == u64::MAX
    }

    /// Whether no data at or after an offset may be delivered.
    pub open spec fn blocks(self, offset: u64) -> bool {
        self.meta_request && offset >= self.read_window_end_offset
    }

    /// The handle after its window was extended by `len` bytes. The end of the window of a meta
    /// request wraps around.
    pub open spec fn extended(self, len: usize) -> Self {
        if self.meta_request {
            S3BackpressureHandle {
                read_window_end_offset: self.read_window_end_offset.wrapping_add(len as u64),
                ..self
            }
        } else {
            self
        }
    }

    /// By how much the window is extended so that it ends at `desired_end_offset` or later. Offsets
    /// are wider than lengths on some platforms, where the difference is cut off.
    pub open spec fn extension_to(self, desired_end_offset: u64) -> usize {
        window_shortfall(self.read_window_end_offset, desired_end_offset) as usize
    }

    /// What the meta request is told when the window grows by `len` bytes.
    pub open spec fn grant(self, len: usize) -> Option<u64> {
        if self.meta_request {
            Some(len as u64)
        } else {
            None
        }
    }

    /// The handle of a response whose data a meta request delivers.
    pub fn new(read_window_end_offset: u64) -> (handle: Self)
        ensures
            handle == (S3BackpressureHandle { read_window_end_offset, meta_request: true }),
            handle.wf(),
    {
        S3BackpressureHandle { read_window_end_offset, meta_request: true }
    }

    /// A handle that never blocks, for responses that manage their own flow.
    pub fn dummy() -> (handle: Self)
        ensures
            handle == (S3BackpressureHandle {
                read_window_end_offset: u64::MAX,
                meta_request: false,
            }),
            handle.wf(),
    {
        S3BackpressureHandle { read_window_end_offset: u64::MAX, meta_request: false }
    }

    /// Extends the read window by `len` bytes. The result is the number of bytes by which the
    /// window of the meta request is to be extended, if there is a meta request.
    pub fn increment_read_window(&mut self, len: usize) -> (granted: Option<u64>)
        ensures
            *final(self) == old(self).extended(len),
            granted == old(self).grant(len),
            old(self).is_answer(WindowCall::Increment(len), granted, *final(self)),
            old(self).wf() ==> final(self).wf(),
    {
        if self.meta_request {
            self.read_window_end_offset = self.read_window_end_offset.wrapping_add(len as u64);
            Some(len as u64)
        } else {
            None
        }
    }

    /// Extends the read window so that it ends at `desired_end_offset` or later. The result is the
    /// number of bytes by which the window of the meta request is to be extended, which may be 0,
    /// if there is a meta request.
    pub fn ensure_read_window(&mut self, desired_end_offset: u64) -> (granted: Option<u64>)
        ensures
            *final(self) == old(self).extended(old(self).extension_to(desired_end_offset)),
            granted == old(self).grant(old(self).extension_to(desired_end_offset)),
            old(self).is_answer(WindowCall::Ensure(desired_end_offset), granted, *final(self)),
            old(self).wf() ==> final(self).wf(),
    {
        let diff = desired_end_offset.saturating_sub(self.read_window_end_offset());
        #[verifier::truncate]
        let len = diff as usize;
        self.increment_read_window(len)
    }

    /// The offset up to which data may be delivered, exclusively.
    pub fn read_window_end_offset(&self) -> (offset: u64)
        ensures
            offset == self.read_window_end_offset,
    {
        self.read_window_end_offset
    }

    /// Whether no data at or after an offset may be delivered.
    pub fn is_exhausted_at(&self, offset: u64) -> (exhausted: bool)
        ensures
            exhausted == self.blocks(offset),
    {
        self.meta_request && offset >= self.read_window_end_offset()
    }
}

/// A handle without a meta request never blocks, however it is used.
pub proof fn law_dummy_never_blocks(
    handle: S3BackpressureHandle,
    len: usize,
    desired_end_offset: u64,
    offset: u64,
)
    requires
        handle.wf(),
        !handle.meta_request,
    ensures
        !handle.blocks(offset),
        handle.extended(len) == handle,
        handle.extended(handle.extension_to(desired_end_offset)) == handle,
        handle.read_window_end_offset == u64::MAX,
{
}

/// After a window was made to end at an offset or later, nothing before that offset is blocked.
/// The window never shrinks on the way, and it grows no further than it has to.
pub proof fn law_ensured_window(handle: S3BackpressureHandle, desired_end_offset: u64)
    requires
        handle.wf(),
        window_shortfall(handle.read_window_end_offset, desired_end_offset) <= usize::MAX,
    ensures
        ({
            let after = handle.extended(handle.extension_to(desired_end_offset));
            &&& after.wf()
            &&& after.read_window_end_offset == if desired_end_offset
                > handle.read_window_end_offset {
                desired_end_offset
            } else {
                handle.read_window_end_offset
            }
            &&& forall|offset: u64|
                offset < desired_end_offset ==> !#[trigger] after.blocks(offset)
            &&& after.extension_to(desired_end_offset) == 0
        }),
{
}

/// Extending a window twice is extending it once by the sum.
pub proof fn law_extensions_add_up(handle: S3BackpressureHandle, first: usize, second: usize)
    requires
        first + second <= usize::MAX,
    ensures
        handle.extended(first).extended(second) == handle.extended((first + second) as usize),
{
}

/// As long as the end of a window does not wrap around, extending the window moves its end by the
/// length of the extension, and unblocks what lies before the new end.
pub proof fn law_extension_moves_end(handle: S3BackpressureHandle, len: usize, offset: u64)
    requires
        handle.meta_request,
        handle.read_window_end_offset + len <= u64::MAX,
    ensures
        handle.extended(len).read_window_end_offset == handle.read_window_end_offset + len,
        handle.extended(len).blocks(offset) <==> offset >= handle.read_window_end_offset + len,
{
}

/// A call that extends a read window.
pub enum WindowCall {
    /// `increment_read_window` with a length.
    Increment(usize),
    /// `ensure_read_window` with an offset.
    Ensure(u64),
}

impl S3BackpressureHandle {
    /// The length by which a call extends the window.
    pub open spec fn length_of(self, call: WindowCall) -> usize {
        match call {
            WindowCall::Increment(len) => len,
            WindowCall::Ensure(desired_end_offset) => self.extension_to(desired_end_offset),
        }
    }

    /// The handle after a call.
    pub open spec fn called(self, call: WindowCall) -> Self {
        self.extended(self.length_of(call))
    }

    /// Whether a call leads to this handle and hands out this result.
    pub open spec fn is_answer(self, call: WindowCall, granted: Option<u64>, after: Self) -> bool {
        after == self.called(call) && granted == self.grant(self.length_of(call))
    }
}

/// The handle after its window was extended by each of a sequence of lengths.
pub open spec fn handle_after(
    handle: S3BackpressureHandle,
    lengths: Seq<usize>,
) -> S3BackpressureHandle
    decreases lengths.len(),
{
    if lengths.len() == 0 {
        handle
    } else {
        handle_after(handle, lengths.drop_last()).extended(lengths.last())
    }
}

/// What the meta request is told in total while the window is extended by a sequence of lengths.
pub open spec fn total_granted(handle: S3BackpressureHandle, lengths: Seq<usize>) -> nat
    decreases lengths.len(),
{
    if lengths.len() == 0 {
        0
    } else {
        let before = lengths.drop_last();
        total_granted(handle, before) + match handle_after(handle, before).grant(lengths.last()) {
            Some(len) => len as nat,
            None => 0,
        }
    }
}

/// The lengths by which a sequence of calls extends the window, one for each call.
pub open spec fn lengths_of(handle: S3BackpressureHandle, calls: Seq<WindowCall>) -> Seq<usize>
    decreases calls.len(),
{
    if calls.len() == 0 {
        seq![]
    } else {
        let before = lengths_of(handle, calls.drop_last());
        before.push(handle_after(handle, before).length_of(calls.last()))
    }
}

/// The window of a meta request and the window that is recorded never drift apart: over any
/// sequence of extensions, the recorded end moves by the sum of what the meta request is told.
///
/// Nothing is said about where the lengths come from, so this holds of calls through any number of
/// copies of a handle, in whatever order their extensions take effect.
pub proof fn law_grants_match_window(handle: S3BackpressureHandle, lengths: Seq<usize>)
    requires
        handle.read_window_end_offset + total_granted(handle, lengths) <= u64::MAX,
    ensures
        handle_after(handle, lengths).read_window_end_offset - handle.read_window_end_offset
            == total_granted(handle, lengths),
        handle_after(handle, lengths).meta_request == handle.meta_request,
    decreases lengths.len(),
{
    if lengths.len() > 0 {
        law_grants_match_window(handle, lengths.drop_last());
    }
}

/// Over any sequence of calls, the recorded end of the window moves by the sum of what the calls
/// tell the meta request.
pub proof fn law_calls_match_window(handle: S3BackpressureHandle, calls: Seq<WindowCall>)
    requires
        handle.read_window_end_offset + total_granted(handle, lengths_of(handle, calls))
            <= u64::MAX,
    ensures
        handle_after(handle, lengths_of(handle, calls)).read_window_end_offset
            - handle.read_window_end_offset == total_granted(handle, lengths_of(handle, calls)),
        calls.len() > 0 ==> handle_after(handle, lengths_of(handle, calls)) == handle_after(
            handle,
            lengths_of(handle, calls.drop_last()),
        ).called(calls.last()),
{
    law_grants_match_window(handle, lengths_of(handle, calls));
    if calls.len() > 0 {
        let before = lengths_of(handle, calls.drop_last());
        assert(lengths_of(handle, calls).drop_last() =~= before);
    }
}

/// Data is held back exactly from the end of the window on, and never where no meta request
/// delivers it. So a window that ends at some offset lets all the bytes before it through.
pub proof fn law_window_bounds_delivery(handle: S3BackpressureHandle, offset: u64)
    ensures
        handle.meta_request ==> (handle.blocks(offset) <==> offset
            >= handle.read_window_end_offset),
        !handle.meta_request ==> !handle.blocks(offset),
{
}

/// An extension moves the end of the window of a meta request by its length, which the meta request
/// is told. Beyond the largest offset the end wraps around. Without a meta request nothing moves and
/// nobody is told.
pub proof fn law_extension_is_exact(handle: S3BackpressureHandle, len: usize)
    ensures
        handle.extended(len).meta_request == handle.meta_request,
        handle.meta_request ==> {
            let sum = handle.read_window_end_offset + len;
            &&& sum <= u64::MAX ==> handle.extended(len).read_window_end_offset == sum
            &&& sum > u64::MAX ==> handle.extended(len).read_window_end_offset == sum - u64::MAX
                - 1
            &&& handle.grant(len) == Some(len as u64)
        },
        !handle.meta_request ==> {
            &&& handle.extended(len).read_window_end_offset == handle.read_window_end_offset
            &&& handle.grant(len) is None
        },
{
}

/// Asking for a window up to some offset extends it by what is missing: to just that offset if it
/// ended before, and not at all if it reaches so far already. The meta request is told just that.
pub proof fn law_ensuring_is_exact(handle: S3BackpressureHandle, desired_end_offset: u64)
    ensures
        desired_end_offset <= handle.read_window_end_offset ==> handle.extension_to(
            desired_end_offset,
        ) == 0,
        handle.read_window_end_offset <= desired_end_offset && desired_end_offset
            - handle.read_window_end_offset <= usize::MAX ==> {
            &&& handle.extension_to(desired_end_offset) == desired_end_offset
                - handle.read_window_end_offset
            &&& handle.meta_request ==> handle.extended(
                handle.extension_to(desired_end_offset),
            ).read_window_end_offset == desired_end_offset
        },
{
}

/// What each call does. As long as no window wraps around and no length is cut off, an increment
/// moves the end of the window by its length, and asking for a window up to some offset moves the
/// end there unless it lies there or beyond already. The meta request is told by how much the end
/// has moved. Without a meta request nothing moves and nobody is told.
pub proof fn law_window_calls_are_exact(
    handle: S3BackpressureHandle,
    call: WindowCall,
    granted: Option<u64>,
    after: S3BackpressureHandle,
)
    requires
        handle.is_answer(call, granted, after),
        match call {
            WindowCall::Increment(len) => handle.read_window_end_offset + len <= u64::MAX,
            WindowCall::Ensure(desired) => desired - handle.read_window_end_offset <= usize::MAX,
        },
    ensures
        after.meta_request == handle.meta_request,
        handle.meta_request ==> {
            &&& after.read_window_end_offset == match call {
                WindowCall::Increment(len) => handle.read_window_end_offset + len,
                WindowCall::Ensure(desired) => if desired >= handle.read_window_end_offset {
                    desired as int
                } else {
                    handle.read_window_end_offset as int
                },
            }
            &&& granted matches Some(told) && told == after.read_window_end_offset
                - handle.read_window_end_offset
        },
        !handle.meta_request ==> granted is None && after.read_window_end_offset
            == handle.read_window_end_offset,
{
}

} // verus!
