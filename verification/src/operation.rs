//! Provider-neutral operation identity, and the matcher from a request head to
//! the operation that it names.
//!
//! A registry lists its operations with their path templates. The matcher takes
//! method, path and transport, and gives back the entry with the most literal
//! segments among those that fit, together with the captured path parameters.

use vstd::prelude::*;

use crate::text::{
    byte_len, chars_of, is_byte_range, lemma_boundary_in_longer, lemma_middle_bytes,
    lemma_utf8_concat, lemma_utf8_injective, same_text, slice_bytes, utf8,
};

verus! {

/// Application protocol that an operation belongs to.
///
/// Open-ended: a registry declares its own identifier beside its operations.
#[derive(Clone, Copy, Debug, Eq, Hash, Ord, PartialEq, PartialOrd)]
pub struct ApplicationProtocol(&'static str);

impl ApplicationProtocol {
    /// An identifier is never empty.
    #[verifier::type_invariant]
    spec fn named(self) -> bool {
        self.0@.len() > 0
    }

    /// The identifier.
    pub closed spec fn label(self) -> Seq<char> {
        self.0@
    }

    /// Declares one protocol identifier.
    #[must_use]
    pub fn new(value: &'static str) -> (protocol: Self)
        requires
            value@.len() > 0,
        ensures
            protocol.label() == value@,
    {
        Self(value)
    }

    /// Stable label published to downstream filters and routing headers.
    #[must_use]
    pub fn as_str(self) -> (label: &'static str)
        ensures
            label@ == self.label(),
            label@.len() > 0,
    {
        proof {
            use_type_invariant(&self);
        }
        self.0
    }
}

/// HTTP method recognized by an operation registry.
#[derive(Clone, Copy, Debug, Eq, Ord, PartialEq, PartialOrd, Structural)]
pub enum HttpMethod {
    /// `GET`.
    Get,
    /// `POST`.
    Post,
    /// `PUT`.
    Put,
    /// `DELETE`.
    Delete,
    /// `PATCH`.
    Patch,
    /// `HEAD`.
    Head,
    /// `OPTIONS`.
    Options,
    /// `TRACE`.
    Trace,
}

impl HttpMethod {
    /// The uppercase spelling of the method.
    pub open spec fn label(self) -> Seq<char> {
        match self {
            HttpMethod::Get => "GET"@,
            HttpMethod::Post => "POST"@,
            HttpMethod::Put => "PUT"@,
            HttpMethod::Delete => "DELETE"@,
            HttpMethod::Patch => "PATCH"@,
            HttpMethod::Head => "HEAD"@,
            HttpMethod::Options => "OPTIONS"@,
            HttpMethod::Trace => "TRACE"@,
        }
    }

    /// Stable uppercase spelling used by runtime matching and reports.
    #[must_use]
    pub fn as_str(self) -> (label: &'static str)
        ensures
            label@ == self.label(),
    {
        match self {
            HttpMethod::Get => "GET",
            HttpMethod::Post => "POST",
            HttpMethod::Put => "PUT",
            HttpMethod::Delete => "DELETE",
            HttpMethod::Patch => "PATCH",
            HttpMethod::Head => "HEAD",
            HttpMethod::Options => "OPTIONS",
            HttpMethod::Trace => "TRACE",
        }
    }
}

/// Transport an operation is reached over.
#[derive(Clone, Copy, Debug, Eq, PartialEq, Structural)]
pub enum Transport {
    /// Ordinary HTTP request.
    Http,
    /// `WebSocket` upgrade.
    WebSocket,
}

impl Transport {
    /// The transport's label.
    pub open spec fn label(self) -> Seq<char> {
        match self {
            Transport::Http => "http"@,
            Transport::WebSocket => "websocket"@,
        }
    }

    /// Stable label used by reports and tracing.
    #[must_use]
    pub fn as_str(self) -> (label: &'static str)
        ensures
            label@ == self.label(),
    {
        match self {
            Transport::Http => "http",
            Transport::WebSocket => "websocket",
        }
    }
}

/// How the proxy handles an operation at its boundary.
#[derive(Clone, Copy, Debug, Eq, PartialEq, Structural)]
pub enum HandlingMode {
    /// Forward the operation without inspecting its payload.
    Passthrough,
    /// Read selected fields while preserving the forwarded payload.
    Inspect,
    /// Rewrite the operation between input and output contracts.
    Transform,
    /// Terminate the request and produce the response locally.
    Local,
}

impl HandlingMode {
    /// The mode's label.
    pub open spec fn label(self) -> Seq<char> {
        match self {
            HandlingMode::Passthrough => "passthrough"@,
            HandlingMode::Inspect => "inspect"@,
            HandlingMode::Transform => "transform"@,
            HandlingMode::Local => "local"@,
        }
    }

    /// Stable label used by conformance reports.
    #[must_use]
    pub fn as_str(self) -> (label: &'static str)
        ensures
            label@ == self.label(),
    {
        match self {
            HandlingMode::Passthrough => "passthrough",
            HandlingMode::Inspect => "inspect",
            HandlingMode::Transform => "transform",
            HandlingMode::Local => "local",
        }
    }
}

/// Runtime request-body shape, independent of contract ownership.
#[derive(Clone, Copy, Debug, Eq, PartialEq, Structural)]
pub enum RequestBody {
    /// Operation takes no request body.
    Absent,
    /// `application/json` body.
    Json {
        /// Whether the body must be present.
        required: bool,
    },
    /// `multipart/form-data` body.
    Multipart {
        /// Whether the body must be present.
        required: bool,
    },
    /// Opaque binary body.
    Binary {
        /// Whether the body must be present.
        required: bool,
    },
}

impl RequestBody {
    /// The shape's label.
    pub open spec fn label(self) -> Seq<char> {
        match self {
            RequestBody::Absent => "none"@,
            RequestBody::Json { .. } => "json"@,
            RequestBody::Multipart { .. } => "multipart"@,
            RequestBody::Binary { .. } => "binary"@,
        }
    }

    /// Whether the operation carries a request body at all.
    #[must_use]
    pub fn is_present(self) -> (present: bool)
        ensures
            present == (self != RequestBody::Absent),
    {
        !matches!(self, RequestBody::Absent)
    }

    /// Whether a request body must be supplied by the client.
    #[must_use]
    pub fn is_required(self) -> (required: bool)
        ensures
            required == (match self {
                RequestBody::Absent => false,
                RequestBody::Json { required } => required,
                RequestBody::Multipart { required } => required,
                RequestBody::Binary { required } => required,
            }),
    {
        match self {
            RequestBody::Absent => false,
            RequestBody::Json { required } => required,
            RequestBody::Multipart { required } => required,
            RequestBody::Binary { required } => required,
        }
    }

    /// Stable label used by reports and tracing.
    #[must_use]
    pub fn as_str(self) -> (label: &'static str)
        ensures
            label@ == self.label(),
    {
        match self {
            RequestBody::Absent => "none",
            RequestBody::Json { .. } => "json",
            RequestBody::Multipart { .. } => "multipart",
            RequestBody::Binary { .. } => "binary",
        }
    }
}

/// Runtime identity of one operation, shared by every registry.
#[derive(Clone, Copy, Debug)]
pub struct OperationSpec {
    /// Application protocol that owns the operation.
    pub application_protocol: ApplicationProtocol,
    /// Stable operation ID.
    pub operation_id: &'static str,
    /// Typed HTTP method.
    pub method: HttpMethod,
    /// Transport the operation is reached over.
    pub transport: Transport,
    /// Runtime path template.
    pub runtime_path: &'static str,
    /// Proxy handling mode.
    pub mode: HandlingMode,
    /// Runtime request-body shape.
    pub request_body: RequestBody,
}

/// One entry in an operation registry.
///
/// Registries may hold bare [`OperationSpec`] values or wrap them in a richer
/// type: the matcher reads the shared metadata through this trait.
pub trait OperationEntry {
    /// The shared operation metadata of this entry.
    spec fn operation(&self) -> OperationSpec;

    /// Borrows the shared operation metadata of this entry.
    fn spec(&self) -> (operation: &OperationSpec)
        ensures
            *operation == self.operation(),
    ;
}

impl OperationEntry for OperationSpec {
    open spec fn operation(&self) -> OperationSpec {
        *self
    }

    fn spec(&self) -> (operation: &OperationSpec) {
        self
    }
}

/// Maximum path parameters captured from any one operation template.
pub const MAX_PATH_PARAMS: usize = 4;

/// One captured path parameter.
pub struct Capture {
    /// The parameter's name in the template.
    pub name: Seq<char>,
    /// The path segment that it stands for.
    pub value: Seq<char>,
    /// The byte offset of that segment in the path.
    pub start: nat,
}

/// Where a capture of that name stands.
pub open spec fn captured(captures: Seq<Capture>, name: Seq<char>) -> bool {
    exists|i: int| 0 <= i < captures.len() && (#[trigger] captures[i]).name == name
}

/// Whether no name is captured twice.
pub open spec fn distinct_captures(captures: Seq<Capture>) -> bool {
    forall|i: int, j: int|
        0 <= i < j < captures.len() ==> (#[trigger] captures[i]).name != (#[trigger] captures[j]).name
}

/// Where the segments of a path or template lie: a slash opens the next segment,
/// any other character belongs to the segment that is open.
pub open spec fn segment_bounds(s: Seq<char>) -> Seq<(int, int)>
    decreases s.len(),
{
    if s.len() == 0 {
        seq![(0, 0)]
    } else {
        let front = segment_bounds(s.drop_last());
        if s.last() == '/' {
            front.push((s.len() as int, s.len() as int))
        } else {
            front.update(front.len() - 1, (front.last().0, s.len() as int))
        }
    }
}

/// The segment at `i`.
pub open spec fn segment(s: Seq<char>, i: int) -> Seq<char> {
    s.subrange(segment_bounds(s)[i].0, segment_bounds(s)[i].1)
}

/// Whether a template segment declares a path parameter.
pub open spec fn is_parameter(segment: Seq<char>) -> bool {
    segment.len() >= 2 && segment[0] == '{' && segment.last() == '}'
}

/// The name that a parameter segment declares.
pub open spec fn parameter_name(segment: Seq<char>) -> Seq<char> {
    segment.subrange(1, segment.len() - 1)
}

/// Whether a template segment admits a path segment.
pub open spec fn admits(template_segment: Seq<char>, path_segment: Seq<char>) -> bool {
    if is_parameter(template_segment) {
        path_segment.len() > 0
    } else {
        template_segment == path_segment
    }
}

/// What the first `n` segments of `template` capture from `path`.
pub open spec fn captures(template: Seq<char>, path: Seq<char>, n: int) -> Seq<Capture>
    decreases n,
{
    if n <= 0 {
        Seq::empty()
    } else {
        let front = captures(template, path, n - 1);
        if is_parameter(segment(template, n - 1)) {
            front.push(
                (Capture {
                    name: parameter_name(segment(template, n - 1)),
                    value: segment(path, n - 1),
                    start: utf8(path.take(segment_bounds(path)[n - 1].0)).len(),
                }),
            )
        } else {
            front
        }
    }
}

/// The captures of a template that fits a path: segment by segment the template
/// admits the path, no name is declared twice, and the capacity suffices.
pub open spec fn route(template: Seq<char>, path: Seq<char>) -> Option<Seq<Capture>> {
    let count = segment_bounds(template).len();
    let all = captures(template, path, count as int);
    if count == segment_bounds(path).len() && (forall|i: int|
        0 <= i < count ==> admits(#[trigger] segment(template, i), segment(path, i)))
        && distinct_captures(all) && all.len() <= MAX_PATH_PARAMS {
        Some(all)
    } else {
        None
    }
}

/// The path without its query string.
pub open spec fn without_query(path: Seq<char>) -> Seq<char>
    decreases path.len(),
{
    if path.len() == 0 {
        path
    } else if path[0] == '?' {
        Seq::empty()
    } else {
        seq![path[0]] + without_query(path.drop_first())
    }
}

/// The path as it is matched: without its query string, and without one trailing
/// slash unless nothing else is left.
pub open spec fn normalized(path: Seq<char>) -> Seq<char> {
    let plain = without_query(path);
    if plain.len() >= 2 && plain.last() == '/' {
        plain.drop_last()
    } else {
        plain
    }
}

/// The number of literal segments among the first `n` of a template.
pub open spec fn literal_segments(template: Seq<char>, n: int) -> nat
    decreases n,
{
    if n <= 0 {
        0
    } else {
        literal_segments(template, n - 1) + if is_parameter(segment(template, n - 1)) {
            0nat
        } else {
            1nat
        }
    }
}

/// The number of literal segments of a template.
pub open spec fn rank(template: Seq<char>) -> nat {
    literal_segments(template, segment_bounds(template).len() as int)
}

/// Whether an operation fits a request head.
pub open spec fn fits(
    operation: OperationSpec,
    method: Seq<char>,
    path: Seq<char>,
    transport: Transport,
) -> bool {
    &&& operation.method.label() == method
    &&& operation.transport == transport
    &&& route(operation.runtime_path@, normalized(path)) is Some
}

/// The entry that wins among the first `n`: the last of those that fit with the
/// most literal segments.
pub open spec fn winner<T: OperationEntry>(
    specs: Seq<T>,
    method: Seq<char>,
    path: Seq<char>,
    transport: Transport,
    n: int,
) -> Option<int>
    decreases n,
{
    if n <= 0 {
        None
    } else {
        let before = winner(specs, method, path, transport, n - 1);
        let operation = specs[n - 1].operation();
        if !fits(operation, method, path, transport) {
            before
        } else {
            match before {
                None => Some(n - 1),
                Some(i) => if rank(specs[i].operation().runtime_path@) <= rank(
                    operation.runtime_path@,
                ) {
                    Some(n - 1)
                } else {
                    before
                },
            }
        }
    }
}

} // verus!

verus! {

/// The bounds of segments: they lie inside the text, they end where the next
/// slash stands, and the last one ends at the end.
proof fn lemma_bounds(s: Seq<char>)
    ensures
        segment_bounds(s).len() >= 1,
        segment_bounds(s).len() <= s.len() + 1,
        segment_bounds(s).last().1 == s.len(),
        forall|i: int|
            0 <= i < segment_bounds(s).len() ==> 0 <= (#[trigger] segment_bounds(s)[i]).0
                <= segment_bounds(s)[i].1 <= s.len(),
    decreases s.len(),
{
    if s.len() > 0 {
        lemma_bounds(s.drop_last());
    }
}

/// Whether one template segment declares a path parameter.
fn is_parameter_segment(segment: &str) -> (parameter: bool)
    ensures
        parameter == is_parameter(segment@),
{
    let chars = chars_of(segment);
    chars.len() >= 2 && chars[0] == '{' && chars[chars.len() - 1] == '}'
}

/// The bounds of the segments of `s`, in characters.
fn segments_of(s: &str) -> (bounds: Vec<(usize, usize)>)
    ensures
        bounds.len() == segment_bounds(s@).len(),
        forall|i: int|
            0 <= i < bounds.len() ==> (#[trigger] bounds@[i]).0 == segment_bounds(s@)[i].0
                && bounds@[i].1 == segment_bounds(s@)[i].1,
{
    let chars = chars_of(s);
    let mut bounds: Vec<(usize, usize)> = Vec::new();
    bounds.push((0, 0));
    let mut i: usize = 0;
    while i < chars.len()
        invariant
            chars@ == s@,
            i <= chars.len(),
            bounds.len() >= 1,
            bounds.len() == segment_bounds(s@.take(i as int)).len(),
            forall|j: int|
                0 <= j < bounds.len() ==> (#[trigger] bounds@[j]).0 == segment_bounds(
                    s@.take(i as int),
                )[j].0 && bounds@[j].1 == segment_bounds(s@.take(i as int))[j].1,
        decreases chars.len() - i,
    {
        proof {
            let next = s@.take(i + 1);
            assert(next.drop_last() =~= s@.take(i as int));
            assert(next.last() == s@[i as int]);
        }
        if chars[i] == '/' {
            bounds.push((i + 1, i + 1));
        } else {
            let last: usize = bounds.len() - 1;
            let open: (usize, usize) = bounds[last];
            bounds.set(last, (open.0, i + 1));
        }
        i = i + 1;
    }
    proof {
        assert(s@.take(i as int) =~= s@);
    }
    bounds
}

impl OperationSpec {
    /// Whether this operation consumes a request body.
    #[must_use]
    pub fn has_request_body(&self) -> (present: bool)
        ensures
            present == (self.request_body != RequestBody::Absent),
    {
        self.request_body.is_present()
    }

    /// Number of literal segments in the runtime path template.
    ///
    /// Ranks candidates, so that a literal segment always outranks a parameter.
    pub fn static_segment_count(&self) -> (count: usize)
        ensures
            count == rank(self.runtime_path@),
    {
        let bounds = segments_of(self.runtime_path);
        let mut count: usize = 0;
        let mut i: usize = 0;
        while i < bounds.len()
            invariant
                bounds.len() == segment_bounds(self.runtime_path@).len(),
                forall|j: int|
                    0 <= j < bounds.len() ==> (#[trigger] bounds@[j]).0 == segment_bounds(
                        self.runtime_path@,
                    )[j].0 && bounds@[j].1 == segment_bounds(self.runtime_path@)[j].1,
                i <= bounds.len(),
                count <= i,
                count == literal_segments(self.runtime_path@, i as int),
            decreases bounds.len() - i,
        {
            proof {
                lemma_bounds(self.runtime_path@);
                assert(segment_bounds(self.runtime_path@)[i as int].0 <= segment_bounds(
                    self.runtime_path@,
                )[i as int].1);
            }
            let part = self.runtime_path.substring_char(bounds[i].0, bounds[i].1);
            if !is_parameter_segment(part) {
                count = count + 1;
            }
            i = i + 1;
        }
        count
    }
}

/// Path parameters borrowed directly from the request path.
#[derive(Clone, Copy, Debug)]
pub struct RouteParams<'a> {
    /// Names with their borrowed segments and the segments' byte offsets.
    pairs: [(&'static str, &'a str, usize); MAX_PATH_PARAMS],
    /// Number of occupied slots.
    len: usize,
}

/// The captures that `pairs` holds in its first `len` slots.
pub open spec fn captures_of(pairs: Seq<(&'static str, &str, usize)>, len: int) -> Seq<Capture> {
    Seq::new(
        len as nat,
        |i: int|
            (Capture { name: pairs[i].0@, value: pairs[i].1@, start: pairs[i].2 as nat }),
    )
}

impl<'a> View for RouteParams<'a> {
    type V = Seq<Capture>;

    closed spec fn view(&self) -> Seq<Capture> {
        captures_of(self.pairs@, self.len as int)
    }
}

impl<'a> RouteParams<'a> {
    /// The capacity is kept, and no name is captured twice.
    #[verifier::type_invariant]
    spec fn inv(self) -> bool {
        self.len <= MAX_PATH_PARAMS && distinct_captures(captures_of(self.pairs@, self.len as int))
    }

    /// No parameters.
    #[must_use]
    pub fn empty() -> (params: Self)
        ensures
            params@ == Seq::<Capture>::empty(),
    {
        let params = RouteParams { pairs: [("", "", 0usize);MAX_PATH_PARAMS], len: 0 };
        proof {
            assert(params@ =~= Seq::<Capture>::empty());
        }
        params
    }

    /// The slot of the parameter `name`.
    fn find(&self, name: &str) -> (found: Option<usize>)
        ensures
            match found {
                Some(i) => i < self.len && self@[i as int].name == name@,
                None => !captured(self@, name@),
            },
    {
        proof {
            use_type_invariant(self);
        }
        let mut i: usize = 0;
        while i < self.len
            invariant
                self.len <= MAX_PATH_PARAMS,
                i <= self.len,
                forall|j: int| 0 <= j < i ==> (#[trigger] self@[j]).name != name@,
            decreases self.len - i,
        {
            if same_text(self.pairs[i].0, name) {
                return Some(i);
            }
            i = i + 1;
        }
        None
    }

    /// Records one captured parameter: `None` where the name is taken or the
    /// capacity is exhausted, and nothing changes then.
    pub fn insert(&mut self, name: &'static str, value: &'a str, start: usize) -> (done: Option<()>)
        ensures
            done is Some == (!captured(old(self)@, name@) && old(self)@.len() < MAX_PATH_PARAMS),
            done is None ==> final(self)@ == old(self)@,
            done is Some ==> final(self)@ == old(self)@.push(
                (Capture { name: name@, value: value@, start: start as nat }),
            ),
    {
        proof {
            use_type_invariant(&*self);
        }
        if self.find(name).is_some() {
            return None;
        }
        if self.len >= MAX_PATH_PARAMS {
            return None;
        }
        let mut pairs = self.pairs;
        let len = self.len;
        pairs[len] = (name, value, start);
        proof {
            assert(captures_of(pairs@, len + 1) =~= self@.push(
                (Capture { name: name@, value: value@, start: start as nat }),
            ));
        }
        *self = RouteParams { pairs, len: len + 1 };
        Some(())
    }

    /// Borrows one captured parameter by its name in the template.
    #[must_use]
    pub fn get(&self, name: &str) -> (found: Option<&'a str>)
        ensures
            distinct_captures(self@),
            match found {
                Some(value) => exists|i: int|
                    0 <= i < self@.len() && (#[trigger] self@[i]).name == name@ && self@[i].value
                        == value@,
                None => !captured(self@, name@),
            },
    {
        proof {
            use_type_invariant(self);
        }
        match self.find(name) {
            Some(i) => {
                assert(self@[i as int].value == self.pairs[i as int].1@);
                Some(self.pairs[i].1)
            },
            None => None,
        }
    }
}

/// One recorded path-parameter location.
pub struct Location {
    /// The parameter's name.
    pub name: Seq<char>,
    /// The first byte.
    pub start: nat,
    /// The byte after the last.
    pub end: nat,
}

/// Whether a location of that name is recorded.
pub open spec fn located(locations: Seq<Location>, name: Seq<char>) -> bool {
    exists|i: int| 0 <= i < locations.len() && (#[trigger] locations[i]).name == name
}

/// Whether no name is recorded twice.
pub open spec fn distinct_locations(locations: Seq<Location>) -> bool {
    forall|i: int, j: int|
        0 <= i < j < locations.len() ==> (#[trigger] locations[i]).name
            != (#[trigger] locations[j]).name
}

/// The location of a capture.
pub open spec fn location_of(capture: Capture) -> Location {
    Location {
        name: capture.name,
        start: capture.start,
        end: capture.start + utf8(capture.value).len(),
    }
}

/// Whether a capture is found in `path` at its offset.
pub open spec fn found_in(path: Seq<char>, capture: Capture) -> bool {
    let start = capture.start as int;
    let end = start + utf8(capture.value).len();
    is_byte_range(path, start, end) && utf8(path).subrange(start, end) == utf8(capture.value)
}

/// Allocation-free path-parameter locations in an immutable request path.
#[derive(Clone, Copy, Debug, Eq, PartialEq)]
pub struct PathParameterOffsets {
    /// Parameter names paired with start and end byte offsets.
    pairs: [(&'static str, usize, usize); MAX_PATH_PARAMS],
    /// Number of occupied slots.
    len: usize,
}

/// The locations that `pairs` holds in its first `len` slots.
pub open spec fn locations_of(pairs: Seq<(&'static str, usize, usize)>, len: int) -> Seq<Location> {
    Seq::new(
        len as nat,
        |i: int|
            (Location { name: pairs[i].0@, start: pairs[i].1 as nat, end: pairs[i].2 as nat }),
    )
}

impl View for PathParameterOffsets {
    type V = Seq<Location>;

    closed spec fn view(&self) -> Seq<Location> {
        locations_of(self.pairs@, self.len as int)
    }
}

impl Default for PathParameterOffsets {
    fn default() -> (offsets: Self)
        ensures
            offsets@ == Seq::<Location>::empty(),
    {
        let offsets = PathParameterOffsets { pairs: [("", 0usize, 0usize);MAX_PATH_PARAMS], len: 0 };
        proof {
            assert(offsets@ =~= Seq::<Location>::empty());
        }
        offsets
    }
}

impl PathParameterOffsets {
    /// The capacity is kept, and no name is recorded twice.
    #[verifier::type_invariant]
    spec fn inv(self) -> bool {
        self.len <= MAX_PATH_PARAMS && distinct_locations(
            locations_of(self.pairs@, self.len as int),
        )
    }

    /// The slot of the parameter `name`.
    fn find(&self, name: &str) -> (found: Option<usize>)
        ensures
            match found {
                Some(i) => i < self.len && self@[i as int].name == name@,
                None => !located(self@, name@),
            },
    {
        proof {
            use_type_invariant(self);
        }
        let mut i: usize = 0;
        while i < self.len
            invariant
                self.len <= MAX_PATH_PARAMS,
                i <= self.len,
                forall|j: int| 0 <= j < i ==> (#[trigger] self@[j]).name != name@,
            decreases self.len - i,
        {
            if same_text(self.pairs[i].0, name) {
                return Some(i);
            }
            i = i + 1;
        }
        None
    }

    /// Records one validated byte range: `None` where the name is taken or the
    /// capacity is exhausted, and nothing changes then.
    fn insert(&mut self, name: &'static str, start: usize, end: usize) -> (done: Option<()>)
        ensures
            done is Some == (!located(old(self)@, name@) && old(self)@.len() < MAX_PATH_PARAMS),
            done is None ==> final(self)@ == old(self)@,
            done is Some ==> final(self)@ == old(self)@.push(
                (Location { name: name@, start: start as nat, end: end as nat }),
            ),
    {
        proof {
            use_type_invariant(&*self);
        }
        if self.find(name).is_some() {
            return None;
        }
        if self.len >= MAX_PATH_PARAMS {
            return None;
        }
        let mut pairs = self.pairs;
        let len = self.len;
        pairs[len] = (name, start, end);
        proof {
            assert(locations_of(pairs@, len + 1) =~= self@.push(
                (Location { name: name@, start: start as nat, end: end as nat }),
            ));
        }
        *self = PathParameterOffsets { pairs, len: len + 1 };
        Some(())
    }

    /// Recovers one parameter by name from the immutable request path: `None`
    /// where the name is not recorded or its bytes are no characters of `path`.
    #[must_use]
    pub fn get<'a>(&self, path: &'a str, name: &str) -> (found: Option<&'a str>)
        ensures
            distinct_locations(self@),
            match found {
                Some(value) => exists|i: int|
                    0 <= i < self@.len() && (#[trigger] self@[i]).name == name@ && is_byte_range(
                        path@,
                        self@[i].start as int,
                        self@[i].end as int,
                    ) && utf8(value@) == utf8(path@).subrange(
                        self@[i].start as int,
                        self@[i].end as int,
                    ),
                None => forall|i: int|
                    0 <= i < self@.len() && (#[trigger] self@[i]).name == name@ ==> !is_byte_range(
                        path@,
                        self@[i].start as int,
                        self@[i].end as int,
                    ),
            },
    {
        proof {
            use_type_invariant(self);
        }
        match self.find(name) {
            Some(i) => {
                assert(self@[i as int].start == self.pairs[i as int].1);
                slice_bytes(path, self.pairs[i].1, self.pairs[i].2)
            },
            None => None,
        }
    }

    /// Number of captured path parameters.
    #[must_use]
    pub fn len(&self) -> (len: usize)
        ensures
            len == self@.len(),
            len <= MAX_PATH_PARAMS,
    {
        proof {
            use_type_invariant(self);
        }
        self.len
    }

    /// Whether the matched path captured no parameters.
    #[must_use]
    pub fn is_empty(&self) -> (empty: bool)
        ensures
            empty == (self@.len() == 0),
    {
        self.len == 0
    }
}

impl<'a> RouteParams<'a> {
    /// Converts borrowed values into checked byte offsets in their source path:
    /// `None` where one of them is not found in `path` at its offset.
    pub fn offsets_in(&self, path: &str) -> (offsets: Option<PathParameterOffsets>)
        ensures
            offsets is Some == (forall|i: int|
                0 <= i < self@.len() ==> found_in(path@, #[trigger] self@[i])),
            offsets is Some ==> offsets->0@ == Seq::new(
                self@.len(),
                |i: int| location_of(self@[i]),
            ),
    {
        proof {
            use_type_invariant(self);
        }
        let mut offsets = PathParameterOffsets::default();
        let mut i: usize = 0;
        while i < self.len
            invariant
                self.len <= MAX_PATH_PARAMS,
                distinct_captures(self@),
                self@.len() == self.len,
                i <= self.len,
                forall|j: int| 0 <= j < i ==> found_in(path@, #[trigger] self@[j]),
                offsets@ == Seq::new(i as nat, |j: int| location_of(self@[j])),
            decreases self.len - i,
        {
            let name = self.pairs[i].0;
            let value = self.pairs[i].1;
            let start = self.pairs[i].2;
            assert(self@[i as int] == (Capture { name: name@, value: value@, start: start as nat }));
            let len = byte_len(value);
            let whole = byte_len(path);
            if start > whole || len > whole - start {
                assert(!found_in(path@, self@[i as int]));
                return None;
            }
            let end = start + len;
            match slice_bytes(path, start, end) {
                Some(part) => {
                    if !same_text(part, value) {
                        proof {
                            if found_in(path@, self@[i as int]) {
                                lemma_utf8_injective(part@, value@);
                            }
                        }
                        assert(!found_in(path@, self@[i as int]));
                        return None;
                    }
                },
                None => {
                    assert(!found_in(path@, self@[i as int]));
                    return None;
                },
            }
            proof {
                if located(offsets@, name@) {
                    let k = choose|k: int|
                        0 <= k < offsets@.len() && (#[trigger] offsets@[k]).name == name@;
                    assert(self@[k].name == self@[i as int].name);
                }
            }
            let ghost before = offsets@;
            let done = offsets.insert(name, start, end);
            assert(done is Some);
            proof {
                assert(offsets@ =~= Seq::new((i + 1) as nat, |j: int| location_of(self@[j])));
            }
            i = i + 1;
        }
        Some(offsets)
    }
}

/// One operation matched from a request head.
pub struct MatchedOperation<'s, 'a, T> {
    /// Matched registry entry, in the registry's own wrapper type.
    pub spec: &'s T,
    /// Borrowed path parameters.
    pub params: RouteParams<'a>,
}

/// The path without its query string is a leading part of it.
proof fn lemma_without_query(path: Seq<char>)
    ensures
        without_query(path).len() <= path.len(),
        without_query(path) == path.take(without_query(path).len() as int),
    decreases path.len(),
{
    if path.len() > 0 && path[0] != '?' {
        lemma_without_query(path.drop_first());
        assert(without_query(path) =~= path.take(without_query(path).len() as int));
    } else {
        assert(without_query(path) =~= path.take(without_query(path).len() as int));
    }
}

/// Where the query string begins.
proof fn lemma_query_at(path: Seq<char>, at: int)
    requires
        0 <= at <= path.len(),
        forall|i: int| 0 <= i < at ==> path[i] != '?',
        at == path.len() || path[at] == '?',
    ensures
        without_query(path) == path.take(at),
    decreases path.len(),
{
    if at == 0 {
        assert(path.take(0) =~= Seq::<char>::empty());
        if path.len() == 0 {
            assert(path =~= Seq::<char>::empty());
        }
    } else {
        lemma_query_at(path.drop_first(), at - 1);
        assert(path.take(at) =~= seq![path[0]] + path.drop_first().take(at - 1));
    }
}

/// Normalizes a request path before matching: any query string is ignored, and
/// exactly one trailing slash is tolerated on a non-root path.
pub fn normalize_path(path: &str) -> (plain: &str)
    ensures
        plain@ == normalized(path@),
{
    let chars = chars_of(path);
    let mut at: usize = 0;
    while at < chars.len() && chars[at] != '?'
        invariant
            chars@ == path@,
            at <= chars.len(),
            forall|i: int| 0 <= i < at ==> path@[i] != '?',
        decreases chars.len() - at,
    {
        at = at + 1;
    }
    proof {
        lemma_query_at(path@, at as int);
    }
    if at >= 2 && chars[at - 1] == '/' {
        at = at - 1;
        proof {
            assert(path@.take(at + 1).drop_last() =~= path@.take(at as int));
        }
    }
    proof {
        assert(path@.subrange(0, at as int) =~= path@.take(at as int));
    }
    path.substring_char(0, at)
}

/// Matches one path against a template with `{param}` placeholders.
///
/// Each parameter matches exactly one non-empty segment.
pub fn match_path_template<'a>(template: &'static str, path: &'a str) -> (params: Option<
    RouteParams<'a>,
>)
    ensures
        match params {
            Some(params) => route(template@, path@) == Some(params@),
            None => route(template@, path@) is None,
        },
{
    let declared = segments_of(template);
    let given = segments_of(path);
    if declared.len() != given.len() {
        return None;
    }
    let mut params = RouteParams::empty();
    let mut i: usize = 0;
    let ghost count = segment_bounds(template@).len();
    while i < declared.len()
        invariant
            count == segment_bounds(template@).len(),
            declared.len() == count,
            given.len() == count,
            segment_bounds(path@).len() == count,
            forall|j: int|
                0 <= j < declared.len() ==> (#[trigger] declared@[j]).0 == segment_bounds(
                    template@,
                )[j].0 && declared@[j].1 == segment_bounds(template@)[j].1,
            forall|j: int|
                0 <= j < given.len() ==> (#[trigger] given@[j]).0 == segment_bounds(path@)[j].0
                    && given@[j].1 == segment_bounds(path@)[j].1,
            i <= declared.len(),
            params@ == captures(template@, path@, i as int),
            params@.len() <= MAX_PATH_PARAMS,
            distinct_captures(params@),
            forall|j: int|
                0 <= j < i ==> admits(#[trigger] segment(template@, j), segment(path@, j)),
        decreases declared.len() - i,
    {
        proof {
            lemma_bounds(template@);
            lemma_bounds(path@);
            assert(segment_bounds(template@)[i as int].0 <= segment_bounds(template@)[i as int].1);
            assert(segment_bounds(path@)[i as int].0 <= segment_bounds(path@)[i as int].1);
        }
        let part = template.substring_char(declared[i].0, declared[i].1);
        let value = path.substring_char(given[i].0, given[i].1);
        assert(part@ == segment(template@, i as int));
        assert(value@ == segment(path@, i as int));
        if is_parameter_segment(part) {
            if value.is_empty() {
                assert(!admits(segment(template@, i as int), segment(path@, i as int)));
                return None;
            }
            let name = part.substring_char(1, part.unicode_len() - 1);
            let start = byte_len(path.substring_char(0, given[i].0));
            proof {
                assert(path@.subrange(0, given@[i as int].0 as int) =~= path@.take(
                    given@[i as int].0 as int,
                ));
                assert(captures(template@, path@, i + 1) == params@.push(
                    (Capture { name: name@, value: value@, start: start as nat }),
                ));
            }
            let ghost before = params@;
            if params.insert(name, value, start).is_none() {
                proof {
                    lemma_captures_grow(template@, path@, i + 1, count as int);
                    let all = captures(template@, path@, count as int);
                    let part_captures = captures(template@, path@, i + 1);
                    if captured(before, name@) {
                        let k = choose|k: int|
                            0 <= k < before.len() && (#[trigger] before[k]).name == name@;
                        assert(all[k] == part_captures[k]);
                        assert(all[before.len() as int] == part_captures[before.len() as int]);
                        assert(!distinct_captures(all));
                    }
                }
                return None;
            }
            proof {
                assert forall|a: int, b: int|
                    0 <= a < b < params@.len() implies (#[trigger] params@[a]).name != (
                #[trigger] params@[b]).name by {
                    if b == before.len() {
                        assert(params@[a] == before[a]);
                    } else {
                        assert(params@[a] == before[a] && params@[b] == before[b]);
                    }
                }
            }
        } else if !same_text(part, value) {
            assert(!admits(segment(template@, i as int), segment(path@, i as int)));
            return None;
        }
        i = i + 1;
    }
    Some(params)
}

/// The captures of more segments begin with those of fewer.
proof fn lemma_captures_grow(template: Seq<char>, path: Seq<char>, n: int, m: int)
    requires
        n <= m,
    ensures
        captures(template, path, n).len() <= captures(template, path, m).len(),
        forall|i: int|
            0 <= i < captures(template, path, n).len() ==> #[trigger] captures(
                template,
                path,
                m,
            )[i] == captures(template, path, n)[i],
    decreases m - n,
{
    if n < m {
        lemma_captures_grow(template, path, n, m - 1);
    }
}

/// Matches a request head against one operation registry.
///
/// Methods and transports must match exactly. Among templates that match the
/// path, the one with the most literal segments wins, so a static endpoint is
/// never consumed as a path parameter.
pub fn match_operation<'s, 'a, T: OperationEntry>(
    specs: &'s [T],
    method: &str,
    path: &'a str,
    transport: Transport,
) -> (matched: Option<MatchedOperation<'s, 'a, T>>)
    ensures
        match matched {
            Some(m) => {
                let won = winner(specs@, method@, path@, transport, specs@.len() as int);
                &&& won is Some
                &&& 0 <= won->0 < specs@.len()
                &&& *m.spec == specs@[won->0]
                &&& route(m.spec.operation().runtime_path@, normalized(path@)) == Some(m.params@)
            },
            None => winner(specs@, method@, path@, transport, specs@.len() as int) is None,
        },
{
    let plain = normalize_path(path);
    let mut best: Option<(usize, RouteParams<'a>, usize)> = None;
    let mut i: usize = 0;
    while i < specs.len()
        invariant
            plain@ == normalized(path@),
            i <= specs.len(),
            match best {
                Some((at, params, count)) => {
                    &&& winner(specs@, method@, path@, transport, i as int) == Some(at as int)
                    &&& at < i
                    &&& route(specs@[at as int].operation().runtime_path@, plain@) == Some(params@)
                    &&& count == rank(specs@[at as int].operation().runtime_path@)
                },
                None => winner(specs@, method@, path@, transport, i as int) is None,
            },
        decreases specs.len() - i,
    {
        let operation = specs[i].spec();
        if same_text(operation.method.as_str(), method) && operation.transport == transport {
            if let Some(params) = match_path_template(operation.runtime_path, plain) {
                let count = operation.static_segment_count();
                let wins = match &best {
                    None => true,
                    Some(held) => held.2 <= count,
                };
                if wins {
                    best = Some((i, params, count));
                }
            }
        }
        i = i + 1;
    }
    match best {
        Some((at, params, _)) => Some(MatchedOperation { spec: &specs[at], params }),
        None => None,
    }
}

/// The entry that wins fits, and no entry that fits has more literal segments;
/// of those with as many it is the last. Nothing wins only where nothing fits.
pub proof fn lemma_winner_has_most_literals<T: OperationEntry>(
    specs: Seq<T>,
    method: Seq<char>,
    path: Seq<char>,
    transport: Transport,
    n: int,
)
    requires
        0 <= n <= specs.len(),
    ensures
        match winner(specs, method, path, transport, n) {
            Some(i) => {
                &&& 0 <= i < n
                &&& fits(specs[i].operation(), method, path, transport)
                &&& forall|j: int|
                    0 <= j < n && fits((#[trigger] specs[j]).operation(), method, path, transport)
                        ==> rank(specs[j].operation().runtime_path@) <= rank(
                        specs[i].operation().runtime_path@,
                    ) && (j > i ==> rank(specs[j].operation().runtime_path@) < rank(
                        specs[i].operation().runtime_path@,
                    ))
            },
            None => forall|j: int|
                0 <= j < n ==> !fits((#[trigger] specs[j]).operation(), method, path, transport),
        },
    decreases n,
{
    if n > 0 {
        lemma_winner_has_most_literals(specs, method, path, transport, n - 1);
    }
}

/// No segment holds a slash.
proof fn lemma_segment_has_no_slash(s: Seq<char>, i: int)
    requires
        0 <= i < segment_bounds(s).len(),
    ensures
        forall|k: int| segment_bounds(s)[i].0 <= k < segment_bounds(s)[i].1 ==> s[k] != '/',
    decreases s.len(),
{
    lemma_bounds(s);
    if s.len() > 0 {
        let front = s.drop_last();
        lemma_bounds(front);
        if i < segment_bounds(front).len() {
            lemma_segment_has_no_slash(front, i);
            assert forall|k: int|
                segment_bounds(s)[i].0 <= k < segment_bounds(s)[i].1 implies s[k] != '/' by {
                if k < front.len() {
                    assert(front[k] == s[k]);
                    assert(segment_bounds(front)[i].1 == front.len() || k
                        < segment_bounds(front)[i].1);
                }
            }
        }
    }
}

/// A parameter captures exactly one segment of the path, and a non-empty one.
pub proof fn lemma_capture_is_one_segment(template: Seq<char>, path: Seq<char>)
    requires
        route(template, path) is Some,
    ensures
        forall|i: int|
            0 <= i < route(template, path)->0.len() ==> {
                let value = (#[trigger] route(template, path)->0[i]).value;
                value.len() > 0 && !value.contains('/')
            },
{
    lemma_captures_are_segments(template, path, segment_bounds(template).len() as int);
}

/// Where a capture comes from.
proof fn lemma_captures_are_segments(template: Seq<char>, path: Seq<char>, n: int)
    requires
        0 <= n <= segment_bounds(template).len(),
        segment_bounds(template).len() == segment_bounds(path).len(),
        forall|i: int| 0 <= i < n ==> admits(#[trigger] segment(template, i), segment(path, i)),
    ensures
        forall|i: int|
            0 <= i < captures(template, path, n).len() ==> {
                let capture = #[trigger] captures(template, path, n)[i];
                &&& capture.value.len() > 0
                &&& !capture.value.contains('/')
                &&& found_in(path, capture)
            },
    decreases n,
{
    if n > 0 {
        lemma_captures_are_segments(template, path, n - 1);
        if is_parameter(segment(template, n - 1)) {
            let bounds = segment_bounds(path)[n - 1];
            lemma_bounds(path);
            lemma_segment_has_no_slash(path, n - 1);
            let value = segment(path, n - 1);
            assert(admits(segment(template, n - 1), value));
            assert forall|k: int| 0 <= k < value.len() implies value[k] != '/' by {
                assert(value[k] == path[bounds.0 + k]);
            }
            let post = path.skip(bounds.1);
            assert(path =~= path.take(bounds.0) + value + post);
            lemma_middle_bytes(path.take(bounds.0), value, post);
            let front = captures(template, path, n - 1);
            let all = captures(template, path, n);
            assert forall|i: int| 0 <= i < all.len() implies {
                let capture = #[trigger] all[i];
                &&& capture.value.len() > 0
                &&& !capture.value.contains('/')
                &&& found_in(path, capture)
            } by {
                if i < front.len() {
                    assert(all[i] == front[i]);
                }
            }
        } else {
            assert(captures(template, path, n) == captures(template, path, n - 1));
        }
    }
}

/// What the matcher captured is found at its offsets in the path that was
/// matched, query string and trailing slash included.
pub proof fn lemma_captures_found_in_source(template: Seq<char>, path: Seq<char>)
    requires
        route(template, normalized(path)) is Some,
    ensures
        forall|i: int|
            0 <= i < route(template, normalized(path))->0.len() ==> found_in(
                path,
                #[trigger] route(template, normalized(path))->0[i],
            ),
{
    let plain = normalized(path);
    let all = route(template, plain)->0;
    lemma_without_query(path);
    lemma_captures_are_segments(template, plain, segment_bounds(template).len() as int);
    let rest = path.skip(plain.len() as int);
    assert(path =~= plain + rest);
    lemma_utf8_concat(plain, rest);
    assert forall|i: int| 0 <= i < all.len() implies found_in(path, #[trigger] all[i]) by {
        let capture = all[i];
        assert(found_in(plain, capture));
        let start = capture.start as int;
        let end = start + utf8(capture.value).len();
        lemma_boundary_in_longer(plain, rest, start);
        lemma_boundary_in_longer(plain, rest, end);
        assert(utf8(path).subrange(start, end) =~= utf8(plain).subrange(start, end));
    }
}

/// Offsets give back what was captured: the location of a capture that is found in
/// a path is a range of characters of the path, and they are the capture's value.
pub proof fn lemma_offsets_give_back_captures(
    path: Seq<char>,
    captures: Seq<Capture>,
    locations: Seq<Location>,
    value: Seq<char>,
    i: int,
)
    requires
        0 <= i < captures.len(),
        forall|j: int| 0 <= j < captures.len() ==> found_in(path, #[trigger] captures[j]),
        locations == Seq::new(captures.len(), |j: int| location_of(captures[j])),
        utf8(value) == utf8(path).subrange(
            locations[i].start as int,
            locations[i].end as int,
        ),
    ensures
        locations[i].name == captures[i].name,
        is_byte_range(path, locations[i].start as int, locations[i].end as int),
        value == captures[i].value,
        distinct_captures(captures) ==> distinct_locations(locations),
{
    assert(found_in(path, captures[i]));
    assert(locations[i] == location_of(captures[i]));
    lemma_utf8_injective(value, captures[i].value);
    if distinct_captures(captures) {
        assert forall|j: int, k: int| 0 <= j < k < locations.len() implies (
        #[trigger] locations[j]).name != (#[trigger] locations[k]).name by {
            assert(captures[j].name != captures[k].name);
        }
    }
}

/// A query string does not change which path is matched, and neither does one
/// trailing slash behind a path that ends in none.
pub proof fn lemma_query_and_one_slash_ignored(path: Seq<char>, query: Seq<char>)
    requires
        path.len() > 0,
        !path.contains('?'),
    ensures
        normalized(path + seq!['?'] + query) == normalized(path),
        path.last() != '/' ==> normalized(path) == path && normalized(path + seq!['/']) == path,
{
    let full = path + seq!['?'] + query;
    let slashed = path + seq!['/'];
    assert forall|i: int| 0 <= i < path.len() implies path[i] != '?' by {
        assert(path.contains(path[i]));
    }
    lemma_query_at(full, path.len() as int);
    lemma_query_at(path, path.len() as int);
    lemma_query_at(slashed, slashed.len() as int);
    assert(full.take(path.len() as int) =~= path);
    assert(path.take(path.len() as int) =~= path);
    assert(slashed.take(slashed.len() as int) =~= slashed);
    assert(slashed.drop_last() =~= path);
}

/// Methods, transports and handling modes are told apart by their labels.
pub proof fn lemma_labels_tell_apart(
    m: HttpMethod,
    n: HttpMethod,
    s: Transport,
    t: Transport,
    a: HandlingMode,
    b: HandlingMode,
)
    ensures
        m.label() == n.label() ==> m == n,
        s.label() == t.label() ==> s == t,
        a.label() == b.label() ==> a == b,
{
    reveal_strlit("GET");
    reveal_strlit("POST");
    reveal_strlit("PUT");
    reveal_strlit("DELETE");
    reveal_strlit("PATCH");
    reveal_strlit("HEAD");
    reveal_strlit("OPTIONS");
    reveal_strlit("TRACE");
    reveal_strlit("http");
    reveal_strlit("websocket");
    reveal_strlit("passthrough");
    reveal_strlit("inspect");
    reveal_strlit("transform");
    reveal_strlit("local");
    assert("GET"@.len() == 3 && "GET"@[0] == 'G' && "PUT"@.len() == 3 && "PUT"@[0] == 'P');
    assert("POST"@.len() == 4 && "POST"@[0] == 'P' && "HEAD"@.len() == 4 && "HEAD"@[0] == 'H');
    assert("DELETE"@.len() == 6 && "OPTIONS"@.len() == 7);
    assert("PATCH"@.len() == 5 && "PATCH"@[0] == 'P' && "TRACE"@.len() == 5 && "TRACE"@[0] == 'T');
    assert("http"@.len() == 4 && "websocket"@.len() == 9);
    assert("passthrough"@.len() == 11 && "inspect"@.len() == 7);
    assert("transform"@.len() == 9 && "local"@.len() == 5);
}

} // verus!
