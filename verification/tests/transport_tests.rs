use kv_router::transport::{
    advance, control_message, request_headers, response_stream, AddressedRequest, Emit, Incoming,
    RequestType, ResponseState, ResponseType, StreamError, TraceContext,
};

fn frame(complete_final: bool, data: Option<&'static str>) -> Incoming<&'static str> {
    Incoming::Frame { complete_final, data }
}

fn item(emit: Emit<&'static str>) -> &'static str {
    match emit {
        Emit::Item(x) => x,
        Emit::Error(e) => panic!("expected an item, got {:?}", e),
        Emit::Nothing => panic!("expected an item, got nothing"),
    }
}

fn error(emit: Emit<&'static str>) -> StreamError {
    match emit {
        Emit::Error(e) => e,
        _ => panic!("expected an error"),
    }
}

#[test]
fn addressed_request_keeps_its_parts() {
    let request = AddressedRequest::new(vec![1u8, 2, 3], "worker.7".to_string());
    let (payload, address) = request.into_parts();
    assert_eq!(payload, vec![1, 2, 3]);
    assert_eq!(address, "worker.7");
}

#[test]
fn control_message_is_single_in_many_out() {
    let message = control_message("id-1".to_string(), "tcp://host:1".to_string());
    assert_eq!(message.id, "id-1");
    assert_eq!(message.request_type, RequestType::SingleIn);
    assert_eq!(message.response_type, ResponseType::ManyOut);
    assert_eq!(message.connection_info, "tcp://host:1");
}

#[test]
fn registration_yields_its_response_stream() {
    assert_eq!(response_stream::<u8, &str>(None, Some("stream")), "stream");
}

#[test]
fn stream_end_after_final_is_clean() {
    let (state, emit) = advance(ResponseState::Streaming, frame(true, Some("x")), false);
    assert_eq!(item(emit), "x");
    assert_eq!(state, ResponseState::Final);
    let (state, emit) = advance(state, Incoming::<&str>::Closed, false);
    assert!(matches!(emit, Emit::Nothing));
    assert_eq!(state, ResponseState::Ended);
}

#[test]
fn frames_stream_until_the_final_one() {
    let (state, emit) = advance(ResponseState::Streaming, frame(false, Some("a")), false);
    assert_eq!((state, item(emit)), (ResponseState::Streaming, "a"));
    let (state, emit) = advance(state, frame(false, Some("b")), false);
    assert_eq!((state, item(emit)), (ResponseState::Streaming, "b"));
    let (state, emit) = advance(state, frame(true, None), false);
    assert_eq!(state, ResponseState::Ended);
    assert!(matches!(emit, Emit::Nothing));
}

#[test]
fn frame_after_final_is_an_error_and_ends() {
    let (state, emit) = advance(ResponseState::Final, frame(false, Some("late")), false);
    assert_eq!(error(emit), StreamError::ResponseAfterEnd);
    assert_eq!(state, ResponseState::Ended);
}

#[test]
fn undecodable_bytes_are_reported_and_passed_over() {
    let (state, emit) = advance(ResponseState::Streaming, Incoming::Undecodable, false);
    assert_eq!(error(emit), StreamError::Decode);
    assert_eq!(state, ResponseState::Streaming);
    let (state, emit) = advance(ResponseState::Final, Incoming::Undecodable, true);
    assert_eq!(error(emit), StreamError::Decode);
    assert_eq!(state, ResponseState::Final);
}

#[test]
fn empty_frame_is_an_error() {
    let (state, emit) = advance(ResponseState::Streaming, frame(false, None), false);
    assert_eq!(error(emit), StreamError::EmptyResponse);
    assert_eq!(state, ResponseState::Streaming);
}

#[test]
fn early_close_is_an_error_unless_cancelled() {
    let (state, emit) = advance(ResponseState::Streaming, Incoming::<&str>::Closed, false);
    assert_eq!(error(emit), StreamError::UnexpectedEnd);
    assert_eq!(state, ResponseState::Ended);
    let (state, emit) = advance(ResponseState::Streaming, Incoming::<&str>::Closed, true);
    assert!(matches!(emit, Emit::Nothing));
    assert_eq!(state, ResponseState::Ended);
}

#[test]
fn ended_sequence_emits_nothing() {
    for incoming in [frame(true, Some("x")), Incoming::Undecodable, Incoming::Closed] {
        let (state, emit) = advance(ResponseState::Ended, incoming, false);
        assert!(matches!(emit, Emit::Nothing));
        assert_eq!(state, ResponseState::Ended);
    }
}

#[test]
fn stream_error_texts() {
    assert_eq!(
        StreamError::ResponseAfterEnd.message(),
        "Response received after generation ended - this should never happen"
    );
    assert_eq!(
        StreamError::EmptyResponse.message(),
        "Empty response received - this should never happen"
    );
    assert_eq!(StreamError::Decode.message(), "Failed deserializing JSON to response");
    assert_eq!(StreamError::UnexpectedEnd.message(), "stream ended unexpectedly");
}

fn header<'a>(headers: &'a async_nats::HeaderMap, name: &str) -> Option<&'a str> {
    headers.get(name).map(|value| value.as_str())
}

#[test]
fn headers_carry_what_the_context_holds() {
    let headers = request_headers(TraceContext {
        traceparent: Some("00-abc-def-01".to_string()),
        tracestate: None,
        x_request_id: Some("req-9".to_string()),
        x_dynamo_request_id: Some("dyn-3".to_string()),
    });
    assert_eq!(headers.len(), 3);
    assert_eq!(header(&headers, "traceparent"), Some("00-abc-def-01"));
    assert_eq!(header(&headers, "tracestate"), None);
    assert_eq!(header(&headers, "x-request-id"), Some("req-9"));
    assert_eq!(header(&headers, "x-dynamo-request-id"), Some("dyn-3"));
    assert_eq!(headers.get_all("x-request-id").count(), 1);

    let none = request_headers(TraceContext {
        traceparent: None,
        tracestate: None,
        x_request_id: None,
        x_dynamo_request_id: None,
    });
    assert!(none.is_empty());

    let all = request_headers(TraceContext {
        traceparent: Some("p".to_string()),
        tracestate: Some("s".to_string()),
        x_request_id: Some("r".to_string()),
        x_dynamo_request_id: Some(String::new()),
    });
    assert_eq!(all.len(), 4);
    assert_eq!(header(&all, "tracestate"), Some("s"));
    assert_eq!(header(&all, "x-dynamo-request-id"), Some(""));
}
