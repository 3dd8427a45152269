//! Addressed requests and the response sequence of a single request.

use vstd::prelude::*;

verus! {

/// `async_nats::header::HeaderMap`, carried as it is. What it holds is
/// spoken of through `header_values` only.
#[verifier::external_type_specification]
#[verifier::external_body]
pub struct ExHeaderMap(async_nats::header::HeaderMap);

/// A payload together with the subject of the worker it is meant for.
pub struct AddressedRequest<T> {
    request: T,
    address: String,
}

impl<T> AddressedRequest<T> {
    /// The payload carried by this request.
    pub closed spec fn payload(&self) -> T {
        self.request
    }

    /// The subject this request is addressed to.
    pub closed spec fn subject(&self) -> Seq<char> {
        self.address@
    }

    pub fn new(request: T, address: String) -> (addressed: Self)
        ensures
            addressed.payload() == request,
            addressed.subject() == address@,
    {
        Self { request, address }
    }

    pub fn into_parts(self) -> (parts: (T, String))
        ensures
            parts.0 == self.payload(),
            parts.1@ == self.subject(),
    {
        (self.request, self.address)
    }
}

/// How many requests a call carries.
#[derive(Debug, Clone, Copy, PartialEq, Eq, Structural)]
pub enum RequestType {
    SingleIn,
    ManyIn,
}

/// How many responses a call yields.
#[derive(Debug, Clone, Copy, PartialEq, Eq, Structural)]
pub enum ResponseType {
    SingleOut,
    ManyOut,
}

/// The control part of a two-part request: who asks, in what shape, and
/// where the responses are to be streamed.
pub struct RequestControlMessage {
    pub id: String,
    pub request_type: RequestType,
    pub response_type: ResponseType,
    pub connection_info: String,
}

/// The control message of a call with one request and many responses.
pub fn control_message(id: String, connection_info: String) -> (message: RequestControlMessage)
    ensures
        message.id == id,
        message.request_type == RequestType::SingleIn,
        message.response_type == ResponseType::ManyOut,
        message.connection_info == connection_info,
{
    RequestControlMessage {
        id,
        request_type: RequestType::SingleIn,
        response_type: ResponseType::ManyOut,
        connection_info,
    }
}

/// Takes the response stream out of a data-plane registration made for
/// one request and many responses: no request stream, one response stream.
pub fn response_stream<A, B>(request_side: Option<A>, response_side: Option<B>) -> (stream: B)
    requires
        request_side is None,
        response_side is Some,
    ensures
        Some(stream) == response_side,
{
    match response_side {
        Some(stream) => stream,
        None => vstd::pervasive::unreached(),
    }
}

/// Trace context carried with a request.
pub struct TraceContext {
    pub traceparent: Option<String>,
    pub tracestate: Option<String>,
    pub x_request_id: Option<String>,
    pub x_dynamo_request_id: Option<String>,
}

/// What an `async_nats::HeaderMap` holds: for each header name, its
/// values in the order they were given.
pub uninterp spec fn header_values(headers: async_nats::header::HeaderMap) -> Map<
    Seq<char>,
    Seq<Seq<char>>,
>;

/// Whether a text can name a header: visible ASCII without a colon.
pub open spec fn is_header_name(name: Seq<char>) -> bool {
    forall|i: int|
        0 <= i < name.len() ==> 33 <= (#[trigger] name[i]) as u32 <= 126 && name[i] != ':'
}

/// Whether a text can be a header's value: no carriage return and no
/// line feed.
pub open spec fn is_header_value(value: Seq<char>) -> bool {
    forall|i: int| 0 <= i < value.len() ==> (#[trigger] value[i]) != '\r' && value[i] != '\n'
}

/// Whether a value that may be absent can go into a header.
pub open spec fn is_clean(value: Option<String>) -> bool {
    match value {
        Some(v) => is_header_value(v@),
        None => true,
    }
}

/// What an empty header map holds.
pub open spec fn no_headers() -> Map<Seq<char>, Seq<Seq<char>>> {
    Map::empty()
}

/// `headers` with `name` set to the one value given, if one is given.
pub open spec fn with_header(
    headers: Map<Seq<char>, Seq<Seq<char>>>,
    name: Seq<char>,
    value: Option<String>,
) -> Map<Seq<char>, Seq<Seq<char>>> {
    match value {
        Some(v) => headers.insert(name, seq![v@]),
        None => headers,
    }
}

/// The headers of a request: the trace parent, the trace state and the
/// two request ids, each only when the context carries it.
pub open spec fn headers_of(trace: TraceContext) -> Map<Seq<char>, Seq<Seq<char>>> {
    with_header(
        with_header(
            with_header(
                with_header(no_headers(), "traceparent"@, trace.traceparent),
                "tracestate"@,
                trace.tracestate,
            ),
            "x-request-id"@,
            trace.x_request_id,
        ),
        "x-dynamo-request-id"@,
        trace.x_dynamo_request_id,
    )
}

/// Makes an empty header map with `async_nats::HeaderMap::new`, which
/// returns the default map: one without any name.
#[verifier::external_body]
fn empty_headers() -> (headers: async_nats::header::HeaderMap)
    ensures
        header_values(headers) == no_headers(),
{
    async_nats::header::HeaderMap::new()
}

/// Sets a header with `async_nats::HeaderMap::insert`, which stores under
/// the name a list of exactly the one value, in place of whatever the
/// name held. The outside call panics on a name that is not visible
/// ASCII or holds a colon and on a value with a carriage return or a line
/// feed; the `requires` leaves both out.
#[verifier::external_body]
fn insert_header(headers: &mut async_nats::header::HeaderMap, name: &str, value: String)
    requires
        is_header_name(name@),
        is_header_value(value@),
    ensures
        header_values(*final(headers)) == header_values(*old(headers)).insert(
            name@,
            seq![value@],
        ),
{
    headers.insert(name, value);
}

fn put_header(headers: &mut async_nats::header::HeaderMap, name: &str, value: Option<String>)
    requires
        is_header_name(name@),
        is_clean(value),
    ensures
        header_values(*final(headers)) == with_header(header_values(*old(headers)), name@, value),
{
    match value {
        Some(v) => insert_header(headers, name, v),
        None => {},
    }
}

/// Builds the headers that go out with a request.
pub fn request_headers(trace: TraceContext) -> (headers: async_nats::header::HeaderMap)
    requires
        is_clean(trace.traceparent),
        is_clean(trace.tracestate),
        is_clean(trace.x_request_id),
        is_clean(trace.x_dynamo_request_id),
    ensures
        header_values(headers) == headers_of(trace),
{
    proof {
        reveal_strlit("traceparent");
        reveal_strlit("tracestate");
        reveal_strlit("x-request-id");
        reveal_strlit("x-dynamo-request-id");
    }
    let mut headers = empty_headers();
    put_header(&mut headers, "traceparent", trace.traceparent);
    put_header(&mut headers, "tracestate", trace.tracestate);
    put_header(&mut headers, "x-request-id", trace.x_request_id);
    put_header(&mut headers, "x-dynamo-request-id", trace.x_dynamo_request_id);
    headers
}

/// What arrives next on a response channel.
pub enum Incoming<T> {
    /// Bytes that decode to a frame.
    Frame { complete_final: bool, data: Option<T> },
    /// Bytes that do not decode.
    Undecodable,
    /// The channel closed.
    Closed,
}

/// Where a response sequence stands.
#[derive(Debug, Clone, Copy, PartialEq, Eq, Structural)]
pub enum ResponseState {
    /// No final frame has been seen.
    Streaming,
    /// The final frame has been seen.
    Final,
    /// The sequence is over.
    Ended,
}

/// The ways a response sequence goes wrong.
#[derive(Debug, Clone, Copy, PartialEq, Eq, Structural)]
pub enum StreamError {
    /// A frame arrived after the final one.
    ResponseAfterEnd,
    /// A frame that is not final carried no data.
    EmptyResponse,
    /// The bytes did not decode to a frame.
    Decode,
    /// The channel closed before the final frame.
    UnexpectedEnd,
}

impl StreamError {
    /// Human-readable text of the error.
    pub fn message(&self) -> (text: String)
        ensures
            *self == StreamError::ResponseAfterEnd ==> text@
                == "Response received after generation ended - this should never happen"@,
            *self == StreamError::EmptyResponse ==> text@
                == "Empty response received - this should never happen"@,
            *self == StreamError::Decode ==> text@ == "Failed deserializing JSON to response"@,
            *self == StreamError::UnexpectedEnd ==> text@ == "stream ended unexpectedly"@,
    {
        match self {
            StreamError::ResponseAfterEnd => {
                "Response received after generation ended - this should never happen".to_owned()
            },
            StreamError::EmptyResponse => {
                "Empty response received - this should never happen".to_owned()
            },
            StreamError::Decode => "Failed deserializing JSON to response".to_owned(),
            StreamError::UnexpectedEnd => "stream ended unexpectedly".to_owned(),
        }
    }
}

/// What the response sequence hands to its consumer for one arrival.
pub enum Emit<T> {
    Item(T),
    Error(StreamError),
    Nothing,
}

/// The response sequence as a state machine: the next state and the
/// emission for one arrival. `cancelled` tells whether the caller has
/// asked the generation to stop.
pub open spec fn step_of<T>(state: ResponseState, incoming: Incoming<T>, cancelled: bool) -> (
    ResponseState,
    Emit<T>,
) {
    match (state, incoming) {
        (ResponseState::Ended, _) => (ResponseState::Ended, Emit::Nothing),
        (_, Incoming::Undecodable) => (state, Emit::Error(StreamError::Decode)),
        (ResponseState::Final, Incoming::Frame { .. }) => (
            ResponseState::Ended,
            Emit::Error(StreamError::ResponseAfterEnd),
        ),
        (ResponseState::Final, Incoming::Closed) => (ResponseState::Ended, Emit::Nothing),
        (ResponseState::Streaming, Incoming::Frame { complete_final, data: Some(x) }) => (
            if complete_final {
                ResponseState::Final
            } else {
                ResponseState::Streaming
            },
            Emit::Item(x),
        ),
        (ResponseState::Streaming, Incoming::Frame { complete_final, data: None }) => if complete_final {
            (ResponseState::Ended, Emit::Nothing)
        } else {
            (ResponseState::Streaming, Emit::Error(StreamError::EmptyResponse))
        },
        (ResponseState::Streaming, Incoming::Closed) => if cancelled {
            (ResponseState::Ended, Emit::Nothing)
        } else {
            (ResponseState::Ended, Emit::Error(StreamError::UnexpectedEnd))
        },
    }
}

/// Advances a response sequence by one arrival.
pub fn advance<T>(state: ResponseState, incoming: Incoming<T>, cancelled: bool) -> (next: (
    ResponseState,
    Emit<T>,
))
    ensures
        next == step_of(state, incoming, cancelled),
{
    match state {
        ResponseState::Ended => (ResponseState::Ended, Emit::Nothing),
        ResponseState::Final => match incoming {
            Incoming::Undecodable => (ResponseState::Final, Emit::Error(StreamError::Decode)),
            Incoming::Frame { .. } => (
                ResponseState::Ended,
                Emit::Error(StreamError::ResponseAfterEnd),
            ),
            Incoming::Closed => (ResponseState::Ended, Emit::Nothing),
        },
        ResponseState::Streaming => match incoming {
            Incoming::Undecodable => (ResponseState::Streaming, Emit::Error(StreamError::Decode)),
            Incoming::Frame { complete_final, data } => match data {
                Some(x) => if complete_final {
                    (ResponseState::Final, Emit::Item(x))
                } else {
                    (ResponseState::Streaming, Emit::Item(x))
                },
                None => if complete_final {
                    (ResponseState::Ended, Emit::Nothing)
                } else {
                    (ResponseState::Streaming, Emit::Error(StreamError::EmptyResponse))
                },
            },
            Incoming::Closed => if cancelled {
                (ResponseState::Ended, Emit::Nothing)
            } else {
                (ResponseState::Ended, Emit::Error(StreamError::UnexpectedEnd))
            },
        },
    }
}

/// The state after a run of arrivals.
pub open spec fn state_after<T>(state: ResponseState, arrivals: Seq<Incoming<T>>, cancelled: bool)
    -> ResponseState
    decreases arrivals.len(),
{
    if arrivals.len() == 0 {
        state
    } else {
        step_of(state_after(state, arrivals.drop_last(), cancelled), arrivals.last(), cancelled).0
    }
}

/// An ended sequence stays ended and emits nothing more.
pub proof fn lemma_ended_stays_ended<T>(incoming: Incoming<T>, cancelled: bool)
    ensures
        step_of(ResponseState::Ended, incoming, cancelled) == (
            ResponseState::Ended,
            Emit::<T>::Nothing,
        ),
{
}

/// A sequence never goes back: once the final frame was seen, no run of
/// arrivals makes it streaming again, and once ended it stays ended.
pub proof fn lemma_no_way_back<T>(state: ResponseState, arrivals: Seq<Incoming<T>>, cancelled: bool)
    ensures
        state == ResponseState::Ended ==> state_after(state, arrivals, cancelled)
            == ResponseState::Ended,
        state == ResponseState::Final ==> state_after(state, arrivals, cancelled)
            != ResponseState::Streaming,
    decreases arrivals.len(),
{
    if arrivals.len() > 0 {
        lemma_no_way_back(state, arrivals.drop_last(), cancelled);
    }
}

/// Whatever came before, a closed channel ends the sequence, and it does
/// so without an error when the final frame was seen or the caller had
/// cancelled.
pub proof fn lemma_close_ends<T>(state: ResponseState, cancelled: bool)
    ensures
        step_of(state, Incoming::<T>::Closed, cancelled).0 == ResponseState::Ended,
        (state != ResponseState::Streaming || cancelled) ==> step_of(
            state,
            Incoming::<T>::Closed,
            cancelled,
        ).1 == Emit::<T>::Nothing,
{
}

} // verus!
