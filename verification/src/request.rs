//! What a GetObject request consists of.

use crate::text::{decimal, decimal_text, decimal_value, law_decimal_denotes, text_view};
use std::ops::Range;
use vstd::prelude::*;
use vstd::string::StringExecFns;

verus! {

/// Whether the checksums of the object are to be returned with it.
#[derive(Debug, Clone, Copy, PartialEq, Eq, Structural)]
pub enum ChecksumMode {
    Enabled,
}

/// Parameters of a GetObject request.
#[derive(Debug)]
pub struct GetObjectParams {
    /// The bytes of the object to read, or `None` for all of them.
    pub range: Option<Range<u64>>,
    /// The entity tag that the object must have.
    pub if_match: Option<String>,
    pub checksum_mode: Option<ChecksumMode>,
    /// An identifier that the caller attaches to the request.
    pub custom_id: Option<u64>,
}

impl Clone for GetObjectParams {
    fn clone(&self) -> (copy: Self)
        ensures
            copy == *self,
    {
        self.with_range(
            match &self.range {
                Some(range) => Some(Range { start: range.start, end: range.end }),
                None => None,
            },
        )
    }
}

impl GetObjectParams {
    /// Whether object checksums are requested.
    pub open spec fn wants_checksums(self) -> bool {
        self.checksum_mode == Some(ChecksumMode::Enabled)
    }

    /// The position of the first byte that is requested.
    pub open spec fn first_offset(self) -> u64 {
        match self.range {
            Some(range) => range.start,
            None => 0,
        }
    }

    /// Whether object checksums are requested.
    pub fn requested_checksums(&self) -> (requested: bool)
        ensures
            requested == self.wants_checksums(),
    {
        match self.checksum_mode {
            Some(mode) => mode == ChecksumMode::Enabled,
            None => false,
        }
    }

    /// The position of the first byte that is requested.
    pub fn start_offset(&self) -> (offset: u64)
        ensures
            offset == self.first_offset(),
    {
        match &self.range {
            Some(range) => range.start,
            None => 0,
        }
    }

    /// The same parameters for another range.
    pub fn with_range(&self, range: Option<Range<u64>>) -> (params: Self)
        ensures
            params == (GetObjectParams { range, ..*self }),
    {
        GetObjectParams {
            range,
            if_match: match &self.if_match {
                Some(etag) => Some(etag.clone()),
                None => None,
            },
            checksum_mode: self.checksum_mode,
            custom_id: self.custom_id,
        }
    }
}

/// One step in building the HTTP message of a request.
#[derive(Debug)]
pub enum MessageStep {
    /// Send the request to this location instead, with the path and query that it has.
    RedirectTo(String),
    /// Set a header, replacing one of the same name.
    SetHeader(String, String),
    /// Set the path of the request.
    SetRequestPath(String),
}

/// What a message step says.
pub enum StepView {
    RedirectTo(Seq<char>),
    SetHeader(Seq<char>, Seq<char>),
    SetRequestPath(Seq<char>),
}

impl View for MessageStep {
    type V = StepView;

    open spec fn view(&self) -> StepView {
        match self {
            MessageStep::RedirectTo(location) => StepView::RedirectTo(location@),
            MessageStep::SetHeader(name, value) => StepView::SetHeader(name@, value@),
            MessageStep::SetRequestPath(path) => StepView::SetRequestPath(path@),
        }
    }
}

/// How the runtime executes a request.
#[derive(Debug, Clone, Copy, PartialEq, Eq, Structural)]
pub enum MetaRequestType {
    /// As a single HTTP request.
    Default,
    /// As several ranged requests, where that is faster.
    GetObject,
}

/// Options with which a request is handed to the runtime.
#[derive(Debug)]
pub struct MetaRequestOptions {
    pub request_type: MetaRequestType,
    /// Name of the operation. The runtime asks for it with the default request type.
    pub operation_name: Option<String>,
    /// Size of the ranged requests. The runtime rejects it with the default request type.
    pub part_size: Option<u64>,
    pub custom_id: Option<u64>,
    /// What to add to the offset of received data to get its position within the object.
    pub offset_adjustment: u64,
}

/// What request options say.
pub struct OptionsView {
    pub request_type: MetaRequestType,
    pub operation_name: Option<Seq<char>>,
    pub part_size: Option<u64>,
    pub custom_id: Option<u64>,
    pub offset_adjustment: u64,
}

impl View for MetaRequestOptions {
    type V = OptionsView;

    open spec fn view(&self) -> OptionsView {
        OptionsView {
            request_type: self.request_type,
            operation_name: text_view(self.operation_name),
            part_size: self.part_size,
            custom_id: self.custom_id,
            offset_adjustment: self.offset_adjustment,
        }
    }
}

/// Everything that is needed to send a GetObject request.
#[derive(Debug)]
pub struct RequestPlan {
    pub method: String,
    pub bucket: String,
    /// The steps that turn the template for the bucket into the message of this request, in order.
    pub steps: Vec<MessageStep>,
    pub options: MetaRequestOptions,
}

/// What message steps say.
pub open spec fn step_views(steps: Seq<MessageStep>) -> Seq<StepView> {
    steps.map_values(|step: MessageStep| step@)
}

/// The position of the last byte of a range, or 0 if the range ends at 0.
pub open spec fn last_byte(range: Range<u64>) -> nat {
    if range.end == 0 {
        0
    } else {
        (range.end - 1) as nat
    }
}

/// The value of the `Range` header for a range. Both positions in it are inclusive.
pub open spec fn range_header(range: Range<u64>) -> Seq<char> {
    "bytes="@ + decimal(range.start as nat) + "-"@ + decimal(last_byte(range))
}

/// The value of the `Range` header for a range.
pub fn range_header_value(range: &Range<u64>) -> (value: String)
    ensures
        value@ == range_header(*range),
{
    let mut value = "bytes=".to_owned();
    value.append(decimal_text(range.start).as_str());
    value.append("-");
    value.append(decimal_text(range.end.saturating_sub(1)).as_str());
    value
}

/// The steps that follow the template of a GetObject message.
///
/// A redirect target fixes the path of the request and the version of the object, so neither the
/// path nor the entity tag is set again for a redirected request.
pub open spec fn message_steps(
    params: GetObjectParams,
    key: Seq<char>,
    redirect_location: Option<Seq<char>>,
) -> Seq<StepView> {
    let redirect = match redirect_location {
        Some(location) => seq![StepView::RedirectTo(location)],
        None => seq![],
    };
    let accept = seq![StepView::SetHeader("accept"@, "*/*"@)];
    let checksums = if params.wants_checksums() {
        seq![StepView::SetHeader("x-amz-checksum-mode"@, "enabled"@)]
    } else {
        seq![]
    };
    let if_match = match params.if_match {
        Some(etag) if redirect_location is None => seq![StepView::SetHeader("If-Match"@, etag@)],
        _ => seq![],
    };
    let range = match params.range {
        Some(bytes) => seq![StepView::SetHeader("Range"@, range_header(bytes))],
        None => seq![],
    };
    let path = if redirect_location is None {
        seq![StepView::SetRequestPath("/"@ + key)]
    } else {
        seq![]
    };
    redirect + accept + checksums + if_match + range + path
}

fn push_step(steps: &mut Vec<MessageStep>, step: MessageStep)
    ensures
        step_views(final(steps)@) == step_views(old(steps)@).push(step@),
{
    steps.push(step);
    assert(step_views(steps@) =~= step_views(old(steps)@).push(step@));
}

/// Lists the steps that follow the template of a GetObject message.
pub fn build_message_steps(
    params: &GetObjectParams,
    key: &str,
    redirect_location: &Option<String>,
) -> (steps: Vec<MessageStep>)
    ensures
        step_views(steps@) == message_steps(
            *params,
            key@,
            text_view(*redirect_location),
        ),
{
    let mut steps: Vec<MessageStep> = Vec::new();
    assert(step_views(steps@) =~= seq![]);
    if let Some(location) = redirect_location {
        push_step(&mut steps, MessageStep::RedirectTo(location.clone()));
    }
    push_step(&mut steps, MessageStep::SetHeader("accept".to_owned(), "*/*".to_owned()));
    if params.requested_checksums() {
        push_step(
            &mut steps,
            MessageStep::SetHeader("x-amz-checksum-mode".to_owned(), "enabled".to_owned()),
        );
    }
    if redirect_location.is_none() {
        if let Some(etag) = &params.if_match {
            push_step(&mut steps, MessageStep::SetHeader("If-Match".to_owned(), etag.clone()));
        }
    }
    if let Some(range) = &params.range {
        push_step(
            &mut steps,
            MessageStep::SetHeader("Range".to_owned(), range_header_value(range)),
        );
    }
    if redirect_location.is_none() {
        let mut path = "/".to_owned();
        path.append(key);
        push_step(&mut steps, MessageStep::SetRequestPath(path));
    }
    assert(step_views(steps@) =~= message_steps(*params, key@, text_view(*redirect_location)));
    steps
}

/// Whether a text is made of decimal digits.
pub open spec fn is_digits(text: Seq<char>) -> bool {
    forall|i: int| 0 <= i < text.len() ==> '0' <= #[trigger] text[i] <= '9'
}

/// Whether the value of a `Range` header asks for the bytes from `first` to `last`, both inclusive.
pub open spec fn asks_for_bytes(value: Seq<char>, first: int, last: int) -> bool {
    exists|f: Seq<char>, l: Seq<char>| #[trigger]
        is_digits(f) && #[trigger] is_digits(l) && value == "bytes="@ + f + "-"@ + l
            && decimal_value(f) == first && decimal_value(l) == last
}

proof fn lemma_split_at_dash(f: Seq<char>, l: Seq<char>, g: Seq<char>, m: Seq<char>)
    requires
        is_digits(f),
        is_digits(g),
        "bytes="@ + f + "-"@ + l == "bytes="@ + g + "-"@ + m,
    ensures
        f == g,
        l == m,
{
    reveal_strlit("bytes=");
    reveal_strlit("-");
    let left = "bytes="@ + f + "-"@ + l;
    let right = "bytes="@ + g + "-"@ + m;
    if f.len() < g.len() {
        assert(left[6 + f.len() as int] == '-');
        assert(right[6 + f.len() as int] == g[f.len() as int]);
    } else if g.len() < f.len() {
        assert(right[6 + g.len() as int] == '-');
        assert(left[6 + g.len() as int] == f[g.len() as int]);
    }
    assert forall|i: int| 0 <= i < f.len() implies f[i] == g[i] by {
        assert(left[6 + i] == f[i]);
        assert(right[6 + i] == g[i]);
    }
    assert(f =~= g);
    assert(left.len() == 7 + f.len() + l.len());
    assert(right.len() == 7 + g.len() + m.len());
    assert forall|i: int| 0 <= i < l.len() implies l[i] == m[i] by {
        assert(left[7 + f.len() + i] == l[i]);
        assert(right[7 + f.len() + i] == m[i]);
    }
    assert(l =~= m);
}

/// The `Range` header of a range asks for the bytes from the start of the range to the one before
/// its end, and for no others.
pub proof fn law_range_header_exact(range: Range<u64>, first: int, last: int)
    ensures
        asks_for_bytes(range_header(range), first, last) <==> first == range.start && last
            == last_byte(range),
{
    let start = decimal(range.start as nat);
    let end = decimal(last_byte(range));
    law_decimal_denotes(range.start as nat);
    law_decimal_denotes(last_byte(range));
    assert(is_digits(start) && is_digits(end));
    if asks_for_bytes(range_header(range), first, last) {
        let (f, l) = choose|f: Seq<char>, l: Seq<char>| #[trigger]
            is_digits(f) && #[trigger] is_digits(l) && range_header(range) == "bytes="@ + f + "-"@
                + l && decimal_value(f) == first && decimal_value(l) == last;
        lemma_split_at_dash(start, end, f, l);
    }
}

proof fn lemma_header_names_differ()
    ensures
        "If-Match"@ != "accept"@,
        "If-Match"@ != "x-amz-checksum-mode"@,
        "If-Match"@ != "Range"@,
        "Range"@ != "accept"@,
        "Range"@ != "x-amz-checksum-mode"@,
        "accept"@ != "x-amz-checksum-mode"@,
{
    reveal_strlit("If-Match");
    reveal_strlit("accept");
    reveal_strlit("x-amz-checksum-mode");
    reveal_strlit("Range");
    assert("If-Match"@.len() == 8);
    assert("accept"@.len() == 6);
    assert("x-amz-checksum-mode"@.len() == 19);
    assert("Range"@.len() == 5);
}

/// Whether the message steps set a header with the given name, and which value they give it.
pub open spec fn sets_header(steps: Seq<StepView>, name: Seq<char>, value: Seq<char>) -> bool {
    exists|i: int| 0 <= i < steps.len() && #[trigger] steps[i] == StepView::SetHeader(name, value)
}

/// A redirected request goes to the redirect's target before anything else is set, leaves the path
/// to it, and is not conditional on an entity tag.
pub proof fn law_redirected_message(
    params: GetObjectParams,
    key: Seq<char>,
    location: Seq<char>,
    value: Seq<char>,
    i: int,
)
    ensures
        message_steps(params, key, Some(location))[0] == StepView::RedirectTo(location),
        0 <= i < message_steps(params, key, Some(location)).len() ==> !(message_steps(
            params,
            key,
            Some(location),
        )[i] is SetRequestPath),
        !sets_header(message_steps(params, key, Some(location)), "If-Match"@, value),
{
    lemma_header_names_differ();
}

/// A request that was not redirected has the key as its path, goes nowhere else, and is conditional
/// on an entity tag exactly if one was asked for.
pub proof fn law_direct_message(
    params: GetObjectParams,
    key: Seq<char>,
    value: Seq<char>,
    i: int,
)
    ensures
        message_steps(params, key, None).last() == StepView::SetRequestPath("/"@ + key),
        0 <= i < message_steps(params, key, None).len() ==> !(message_steps(
            params,
            key,
            None,
        )[i] is RedirectTo),
        sets_header(message_steps(params, key, None), "If-Match"@, value) <==> text_view(
            params.if_match,
        ) == Some(value),
{
    lemma_header_names_differ();
    let steps = message_steps(params, key, None);
    let checksums = if params.wants_checksums() {
        1int
    } else {
        0
    };
    if params.if_match is Some {
        assert(steps[1 + checksums] == StepView::SetHeader("If-Match"@, params.if_match->0@));
    }
}

/// Redirected or not, a request asks for any type of content, for the range that it was made for,
/// and for checksums exactly if they were requested.
pub proof fn law_message_headers(
    params: GetObjectParams,
    key: Seq<char>,
    redirect_location: Option<Seq<char>>,
    value: Seq<char>,
)
    ensures
        sets_header(message_steps(params, key, redirect_location), "accept"@, value) <==> value
            == "*/*"@,
        sets_header(message_steps(params, key, redirect_location), "x-amz-checksum-mode"@, value)
            <==> params.wants_checksums() && value == "enabled"@,
        sets_header(message_steps(params, key, redirect_location), "Range"@, value) <==> (
        params.range matches Some(range) && value == range_header(range)),
{
    lemma_header_names_differ();
    let steps = message_steps(params, key, redirect_location);
    let redirect = if redirect_location is Some {
        1int
    } else {
        0
    };
    let checksums = if params.wants_checksums() {
        1int
    } else {
        0
    };
    let if_match = if params.if_match is Some && redirect_location is None {
        1int
    } else {
        0
    };
    assert(steps[redirect] == StepView::SetHeader("accept"@, "*/*"@));
    if params.wants_checksums() {
        assert(steps[redirect + 1] == StepView::SetHeader("x-amz-checksum-mode"@, "enabled"@));
    }
    if let Some(range) = params.range {
        assert(steps[redirect + 1 + checksums + if_match] == StepView::SetHeader(
            "Range"@,
            range_header(range),
        ));
    }
}

/// Checksums are wanted exactly if the parameters enable them, and reading begins with the first
/// byte of the range, or of the object if there is no range.
pub proof fn law_params_say_what_is_read(params: GetObjectParams)
    ensures
        params.wants_checksums() <==> params.checksum_mode == Some(ChecksumMode::Enabled),
        params.range matches Some(range) ==> params.first_offset() == range.start,
        params.range is None ==> params.first_offset() == 0,
{
}

/// The `Range` header of a range that is not empty asks for all its bytes and for no others: the
/// first one is where the range starts, and there are as many as the range has.
pub proof fn law_range_header_asks_for_range(range: Range<u64>, first: int, last: int)
    requires
        range.start < range.end,
    ensures
        asks_for_bytes(range_header(range), first, last) <==> first == range.start && last - first
            + 1 == range.end - range.start,
{
    law_range_header_exact(range, first, last);
}

/// The text of the `Range` header, for any range.
pub proof fn law_range_header_text(range: Range<u64>)
    ensures
        range.end > 0 ==> range_header(range) == "bytes="@ + decimal(range.start as nat) + "-"@
            + decimal((range.end - 1) as nat),
        range.end == 0 ==> range_header(range) == "bytes="@ + decimal(range.start as nat) + "-"@
            + decimal(0),
{
}

/// Whether steps set a header with the given name to the given value.
pub open spec fn steps_set_header(
    steps: Seq<MessageStep>,
    name: Seq<char>,
    value: Seq<char>,
) -> bool {
    exists|i: int|
        0 <= i < steps.len() && (#[trigger] steps[i] matches MessageStep::SetHeader(n, v) && n@
            == name && v@ == value)
}

/// The header that a request sets with each name, and that it sets no others: any type of content
/// is accepted; checksums are asked for if they are enabled; the entity tag must match, unless the
/// request was redirected; and the range is the one of the parameters.
pub proof fn law_steps_set_headers(
    params: GetObjectParams,
    key: Seq<char>,
    redirect_location: Option<String>,
    steps: Seq<MessageStep>,
    name: Seq<char>,
    value: Seq<char>,
)
    requires
        step_views(steps) == message_steps(params, key, text_view(redirect_location)),
    ensures
        steps_set_header(steps, name, value) <==> {
            ||| name == "accept"@ && value == "*/*"@
            ||| name == "x-amz-checksum-mode"@ && value == "enabled"@ && params.checksum_mode
                == Some(ChecksumMode::Enabled)
            ||| name == "If-Match"@ && redirect_location is None && (
            params.if_match matches Some(etag) && value == etag@)
            ||| name == "Range"@ && (params.range matches Some(range) && value == "bytes="@
                + decimal(range.start as nat) + "-"@ + decimal(
                if range.end > 0 {
                    (range.end - 1) as nat
                } else {
                    0
                },
            ))
        },
{
    let views = message_steps(params, key, text_view(redirect_location));
    lemma_header_names_differ();
    lemma_views_pointwise(steps);
    law_message_headers(params, key, text_view(redirect_location), value);
    if redirect_location is None {
        law_direct_message(params, key, value, 0);
    } else {
        law_redirected_message(params, key, redirect_location->0@, value, 0);
    }
    if steps_set_header(steps, name, value) {
        let i = choose|i: int|
            0 <= i < steps.len() && (#[trigger] steps[i] matches MessageStep::SetHeader(n, v) && n@
                == name && v@ == value);
        assert(views[i] == StepView::SetHeader(name, value));
        assert(sets_header(views, name, value));
    }
    if sets_header(views, name, value) {
        let i = choose|i: int|
            0 <= i < views.len() && #[trigger] views[i] == StepView::SetHeader(name, value);
        assert(steps[i]@ == StepView::SetHeader(name, value));
        assert(steps_set_header(steps, name, value));
    }
}

proof fn lemma_views_pointwise(steps: Seq<MessageStep>)
    ensures
        step_views(steps).len() == steps.len(),
        forall|i: int| 0 <= i < steps.len() ==> step_views(steps)[i] == (#[trigger] steps[i])@,
{
}

/// Besides headers, a request that was redirected only says first where it goes, and any other
/// request only says last which path it asks for, which is the key. No header is set twice.
pub proof fn law_steps_set_target(
    params: GetObjectParams,
    key: Seq<char>,
    redirect_location: Option<String>,
    steps: Seq<MessageStep>,
    i: int,
    j: int,
)
    requires
        step_views(steps) == message_steps(params, key, text_view(redirect_location)),
        0 <= i < steps.len(),
        0 <= j < steps.len(),
    ensures
        match steps[i] {
            MessageStep::RedirectTo(location) => i == 0 && (
            redirect_location matches Some(target) && location@ == target@),
            MessageStep::SetRequestPath(path) => i == steps.len() - 1 && redirect_location is None
                && path@ == "/"@ + key,
            MessageStep::SetHeader(name, _) => steps[j] matches MessageStep::SetHeader(other, _)
                && other@ == name@ ==> i == j,
        },
        redirect_location is Some ==> steps[0] is RedirectTo,
        redirect_location is None ==> steps.last() is SetRequestPath,
{
    lemma_header_names_differ();
    lemma_views_pointwise(steps);
    assert(steps[i]@ == step_views(steps)[i]);
    assert(steps[j]@ == step_views(steps)[j]);
    assert(steps[0]@ == step_views(steps)[0]);
    assert(steps.last()@ == step_views(steps).last());
}

} // verus!
