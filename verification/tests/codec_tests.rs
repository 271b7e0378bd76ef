use plugin_supervisor::codec::{MAX_MESSAGE_SIZE, decode_frame, encode_frame, frame_payload_len};
use plugin_supervisor::dispatch::{build_http_request, forward_error_status, match_http_response};
use plugin_supervisor::envelope::{Envelope, InitPayload, KvAction, LifecycleAction,
    decode_envelope, encode_envelope};
use plugin_supervisor::errors::{ForwardError, ProtocolError};

fn http_request() -> Envelope {
    Envelope::HttpRequest {
        request_id: "req-1".to_string(),
        method: "GET".to_string(),
        path: "/hello?x=1".to_string(),
        headers: vec![
            ("accept".to_string(), "text/plain".to_string()),
            ("x-quote".to_string(), "he said \"hi\"\n".to_string()),
        ],
        body: None,
    }
}

fn http_response() -> Envelope {
    Envelope::HttpResponse {
        request_id: "req-1".to_string(),
        status: 200,
        headers: vec![("content-type".to_string(), "text/plain".to_string())],
        body: Some("hi".to_string()),
    }
}

fn assert_round_trip(e: &Envelope) -> Envelope {
    let bytes = encode_envelope(e);
    decode_envelope(&bytes).expect("canonical envelope must decode")
}

#[test]
fn test_round_trip_http_request() {
    let e = http_request();
    match assert_round_trip(&e) {
        Envelope::HttpRequest { request_id, method, path, headers, body } => {
            assert_eq!(request_id, "req-1");
            assert_eq!(method, "GET");
            assert_eq!(path, "/hello?x=1");
            assert_eq!(headers.len(), 2);
            assert_eq!(headers[1].1, "he said \"hi\"\n");
            assert_eq!(body, None);
        }
        _ => panic!("wrong variant"),
    }
}

#[test]
fn test_round_trip_http_response() {
    match assert_round_trip(&http_response()) {
        Envelope::HttpResponse { request_id, status, headers, body } => {
            assert_eq!(request_id, "req-1");
            assert_eq!(status, 200);
            assert_eq!(headers.len(), 1);
            assert_eq!(body, Some("hi".to_string()));
        }
        _ => panic!("wrong variant"),
    }
}

#[test]
fn test_round_trip_lifecycle() {
    let init = Envelope::Lifecycle {
        action: LifecycleAction::Init,
        payload: Some(InitPayload {
            instance_id: "inst".to_string(),
            plugin_socket: "/tmp/p.sock".to_string(),
            log_path: "/var/log/p.log".to_string(),
        }),
    };
    match assert_round_trip(&init) {
        Envelope::Lifecycle { action, payload } => {
            assert_eq!(action, LifecycleAction::Init);
            let p = payload.expect("payload");
            assert_eq!(p.instance_id, "inst");
            assert_eq!(p.plugin_socket, "/tmp/p.sock");
            assert_eq!(p.log_path, "/var/log/p.log");
        }
        _ => panic!("wrong variant"),
    }
    let shutdown = Envelope::Lifecycle { action: LifecycleAction::Shutdown, payload: None };
    match assert_round_trip(&shutdown) {
        Envelope::Lifecycle { action, payload } => {
            assert_eq!(action, LifecycleAction::Shutdown);
            assert!(payload.is_none());
        }
        _ => panic!("wrong variant"),
    }
}

#[test]
fn test_round_trip_kv() {
    let put = Envelope::KvRequest {
        request_id: "k1".to_string(),
        op: KvAction::Put,
        key: "color".to_string(),
        value: Some("blue".to_string()),
    };
    match assert_round_trip(&put) {
        Envelope::KvRequest { request_id, op, key, value } => {
            assert_eq!(request_id, "k1");
            assert_eq!(op, KvAction::Put);
            assert_eq!(key, "color");
            assert_eq!(value, Some("blue".to_string()));
        }
        _ => panic!("wrong variant"),
    }
    let get = Envelope::KvRequest {
        request_id: "k2".to_string(),
        op: KvAction::Get,
        key: "color".to_string(),
        value: None,
    };
    match assert_round_trip(&get) {
        Envelope::KvRequest { op, value, .. } => {
            assert_eq!(op, KvAction::Get);
            assert!(value.is_none());
        }
        _ => panic!("wrong variant"),
    }
    let resp_none = Envelope::KvResponse { request_id: "k2".to_string(), value: None };
    match assert_round_trip(&resp_none) {
        Envelope::KvResponse { value, .. } => assert!(value.is_none()),
        _ => panic!("wrong variant"),
    }
    let resp_some = Envelope::KvResponse {
        request_id: "k2".to_string(),
        value: Some("blue".to_string()),
    };
    match assert_round_trip(&resp_some) {
        Envelope::KvResponse { value, .. } => assert_eq!(value, Some("blue".to_string())),
        _ => panic!("wrong variant"),
    }
}

#[test]
fn test_encoded_envelope_is_json() {
    let bytes = encode_envelope(&http_response());
    let v: serde_json::Value = serde_json::from_slice(&bytes).expect("valid JSON");
    assert_eq!(v["message_type"], "http");
    assert_eq!(v["request_id"], "req-1");
    assert_eq!(v["payload"]["status"], 200);
    assert_eq!(v["payload"]["headers"]["content-type"], "text/plain");
    assert_eq!(v["payload"]["body"], "hi");
}

#[test]
fn test_t8_instance_id_passed_to_plugin() {
    let instance_id = "550e8400-e29b-41d4-a716-446655440000".to_string();
    let init = Envelope::Lifecycle {
        action: LifecycleAction::Init,
        payload: Some(InitPayload {
            instance_id: instance_id.clone(),
            plugin_socket: "/tmp/test.sock".to_string(),
            log_path: "/var/log/toru/plugins/test.log".to_string(),
        }),
    };
    let bytes = encode_envelope(&init);
    let v: serde_json::Value = serde_json::from_slice(&bytes).expect("valid JSON");
    let payload = v["payload"]["payload"].as_object().expect("Payload should exist");
    assert_eq!(
        payload.get("instance_id").and_then(|x| x.as_str()),
        Some(instance_id.as_str()),
        "Instance ID should be in init message"
    );
}

#[test]
fn test_decode_rejects_malformed() {
    assert!(decode_envelope(&b"junk".to_vec()).is_err());
    assert!(decode_envelope(&b"{}".to_vec()).is_err());
    let mut truncated = encode_envelope(&http_request());
    truncated.pop();
    assert!(decode_envelope(&truncated).is_err());
}

#[test]
fn test_frame_prefix_is_payload_length() {
    let payload = encode_envelope(&http_response());
    let frame = encode_frame(&http_response()).expect("fits");
    assert_eq!(frame.len(), 4 + payload.len());
    let declared = u32::from_be_bytes([frame[0], frame[1], frame[2], frame[3]]) as usize;
    assert_eq!(declared, payload.len());
    assert_eq!(&frame[4..], &payload[..]);
}

#[test]
fn test_frame_round_trip() {
    let frame = encode_frame(&http_request()).expect("fits");
    match decode_frame(&frame).expect("frame must decode") {
        Envelope::HttpRequest { request_id, .. } => assert_eq!(request_id, "req-1"),
        _ => panic!("wrong variant"),
    }
}

#[test]
fn test_frame_length_cap() {
    assert_eq!(MAX_MESSAGE_SIZE, 16 * 1024 * 1024);
    // Declared length of exactly 16 MiB is accepted.
    assert_eq!(frame_payload_len(0x01, 0x00, 0x00, 0x00), Ok(MAX_MESSAGE_SIZE));
    // One byte more is refused before any allocation.
    assert_eq!(frame_payload_len(0x01, 0x00, 0x00, 0x01), Err(ProtocolError::FrameTooLarge));
    // An envelope whose payload exceeds the cap is refused at encode time.
    let big = Envelope::HttpResponse {
        request_id: "r".to_string(),
        status: 200,
        headers: vec![],
        body: Some("x".repeat(17 * 1024 * 1024)),
    };
    assert_eq!(encode_frame(&big), Err(ProtocolError::FrameTooLarge));
}

#[test]
fn test_request_id_pairing() {
    let req = build_http_request("GET", "/hello", vec![], None);
    let rid = match &req {
        Envelope::HttpRequest { request_id, .. } => request_id.clone(),
        _ => panic!("wrong variant"),
    };
    assert_eq!(rid.len(), 36);
    let good = Envelope::HttpResponse {
        request_id: rid.clone(),
        status: 200,
        headers: vec![],
        body: None,
    };
    assert!(match_http_response(&req, &good).is_ok());
    let bad = Envelope::HttpResponse {
        request_id: "other".to_string(),
        status: 200,
        headers: vec![],
        body: None,
    };
    assert_eq!(match_http_response(&req, &bad), Err(ProtocolError::RequestIdMismatch));
    let not_a_response = Envelope::Lifecycle { action: LifecycleAction::Shutdown, payload: None };
    assert_eq!(
        match_http_response(&req, &not_a_response),
        Err(ProtocolError::MalformedEnvelope)
    );
}

#[test]
fn test_two_requests_get_distinct_ids() {
    let a = build_http_request("GET", "/a", vec![], None);
    let b = build_http_request("GET", "/a", vec![], None);
    let (ra, rb) = match (&a, &b) {
        (
            Envelope::HttpRequest { request_id: ra, .. },
            Envelope::HttpRequest { request_id: rb, .. },
        ) => (ra.clone(), rb.clone()),
        _ => panic!("wrong variants"),
    };
    assert_ne!(ra, rb);
}

#[test]
fn test_forward_error_statuses() {
    assert_eq!(forward_error_status(&ForwardError::PluginTimeout, true), 504);
    assert_eq!(forward_error_status(&ForwardError::BadGateway, true), 502);
    assert_eq!(forward_error_status(&ForwardError::PluginUnavailable, true), 404);
    assert_eq!(forward_error_status(&ForwardError::PluginUnavailable, false), 503);
}
