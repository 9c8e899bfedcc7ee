use salieri::error::Error;
use salieri::prompt::{LocalDateTime, Message, Prompt, Role};
use salieri::session::{RelaySession, SessionAction, SessionEvent};
use salieri::stream_parser::{FinishReason, StreamItem};

fn sample_now() -> LocalDateTime {
    LocalDateTime { year: 2024, month: 3, day: 5, hour: 9, minute: 4, second: 7 }
}

fn sample_prompt() -> Prompt {
    Prompt {
        model: "gpt-3.5-turbo".to_string(),
        messages: vec![Message { role: Role::System, content: "Be brief.".to_string() }],
        max_tokens: Some(200),
    }
}

fn fresh_session() -> RelaySession {
    RelaySession::new(
        "shh".to_string(),
        "203.0.113.9".to_string(),
        "somewhere".to_string(),
        sample_prompt(),
        sample_now(),
    )
}

const GOOD_REQUEST: &[u8] = b"{\"question\":\"Why is the sky blue?\",\"captcha_token\":\"tok\"}";
const CAPTCHA_OK: &[u8] = b"{\"success\":true,\"error-codes\":[]}";

/// Drive a fresh session to the streaming phase.
fn streaming_session() -> RelaySession {
    let mut s = fresh_session();
    let acts = s.step(SessionEvent::Message(GOOD_REQUEST.to_vec()));
    assert!(matches!(acts.as_slice(), [SessionAction::CallVerifier(_)]));
    let acts = s.step(SessionEvent::VerifierResponse(CAPTCHA_OK.to_vec()));
    assert!(matches!(
        acts.as_slice(),
        [SessionAction::Send(StreamItem::Start(200)), SessionAction::SendUpstream(_)]
    ));
    let acts = s.step(SessionEvent::UpstreamAccepted);
    assert!(acts.is_empty());
    s
}

#[test]
fn end_to_end_relay() {
    let mut s = streaming_session();
    let chunk = b"data: {\"choices\":[{\"delta\":{\"role\":\"assistant\"}}]}\n\n\
data: {\"choices\":[{\"delta\":{\"content\":\"Hel\"}}]}\n\n\
data: {\"choices\":[{\"delta\":{\"content\":\"lo\"}}]}\n\n\
data: {\"choices\":[{\"finish_reason\":\"stop\",\"delta\":{}}]}\n\n\
data: [DONE]\n\n";
    let acts = s.step(SessionEvent::Chunk(chunk.to_vec()));
    // The role marker is dropped; the client sees the two fragments and the
    // finish, then the completion message; the transcript is recorded with
    // the concatenated answer under the same identifier.
    assert_eq!(acts.len(), 5);
    match &acts[0] {
        SessionAction::Send(StreamItem::Delta(t)) => assert_eq!(t, "Hel"),
        other => panic!("expected the first fragment, got {:?}", other),
    }
    match &acts[1] {
        SessionAction::Send(StreamItem::Delta(t)) => assert_eq!(t, "lo"),
        other => panic!("expected the second fragment, got {:?}", other),
    }
    assert!(matches!(
        &acts[2],
        SessionAction::Send(StreamItem::Finish(FinishReason::Stop))
    ));
    let record = match &acts[3] {
        SessionAction::Record(r) => r,
        other => panic!("expected the transcript write, got {:?}", other),
    };
    assert_eq!(record.question, "Why is the sky blue?");
    assert_eq!(record.response, "Hello");
    assert_eq!(record.remote_ip, "203.0.113.9");
    assert_eq!(record.location, "somewhere");
    assert_eq!(record.id.len(), 47);
    match &acts[4] {
        SessionAction::SendEnd(end) => assert_eq!(end.id, record.id),
        other => panic!("expected the completion message, got {:?}", other),
    }
    // The session is over: further events are ignored.
    assert!(s.step(SessionEvent::StreamEnd).is_empty());
}

#[test]
fn fragments_split_across_chunks() {
    let mut s = streaming_session();
    let acts = s.step(SessionEvent::Chunk(b"data: {\"choices\":[{\"delta\":{\"co".to_vec()));
    assert!(acts.is_empty());
    let acts = s.step(SessionEvent::Chunk(b"ntent\":\"Hi\"}}]}\n\n".to_vec()));
    assert_eq!(acts.len(), 1);
    match &acts[0] {
        SessionAction::Send(StreamItem::Delta(t)) => assert_eq!(t, "Hi"),
        other => panic!("expected a fragment, got {:?}", other),
    }
    let acts = s.step(SessionEvent::StreamEnd);
    match acts.as_slice() {
        [SessionAction::Record(r), SessionAction::SendEnd(end)] => {
            assert_eq!(r.response, "Hi");
            assert_eq!(end.id, r.id);
        },
        other => panic!("expected completion, got {:?}", other),
    }
}

#[test]
fn fragment_split_inside_multibyte_character() {
    let mut s = streaming_session();
    let whole: &[u8] = b"data: {\"choices\":[{\"delta\":{\"content\":\"caf\xc3\xa9\"}}]}\n\n";
    // Split between the two bytes of the final character.
    let cut = whole.len() - 8;
    assert_eq!(&whole[cut - 1..=cut], b"\xc3\xa9");
    let acts = s.step(SessionEvent::Chunk(whole[..cut].to_vec()));
    assert!(acts.is_empty());
    let acts = s.step(SessionEvent::Chunk(whole[cut..].to_vec()));
    assert_eq!(acts.len(), 1);
    match &acts[0] {
        SessionAction::Send(StreamItem::Delta(t)) => assert_eq!(t, "café"),
        other => panic!("expected the reassembled fragment, got {:?}", other),
    }
}

#[test]
fn overlong_question_never_reaches_upstream() {
    let mut s = fresh_session();
    let question = "x".repeat(301);
    let body = format!("{{\"question\":\"{}\",\"captcha_token\":\"tok\"}}", question);
    let acts = s.step(SessionEvent::Message(body.into_bytes()));
    assert!(matches!(acts.as_slice(), [SessionAction::CallVerifier(_)]));
    // The cap is enforced after verification and before any upstream call.
    let acts = s.step(SessionEvent::VerifierResponse(CAPTCHA_OK.to_vec()));
    assert_eq!(acts.len(), 1);
    match &acts[0] {
        SessionAction::SendError(Error::InvalidRequest(msg)) => {
            assert_eq!(msg, "question is too long (301 > 300)");
        },
        other => panic!("expected an invalid-request error, got {:?}", other),
    }
    assert!(!acts.iter().any(|a| matches!(a, SessionAction::SendUpstream(_))));
    // The session is aborted; nothing more happens.
    assert!(s.step(SessionEvent::UpstreamAccepted).is_empty());
}

#[test]
fn missing_captcha_token_rejected_before_verifier() {
    let mut s = fresh_session();
    let acts = s.step(SessionEvent::Message(b"{\"question\":\"hi\"}".to_vec()));
    assert_eq!(acts.len(), 1);
    match &acts[0] {
        SessionAction::SendError(Error::InvalidRequest(msg)) => {
            assert_eq!(msg, "captcha token is missing");
        },
        other => panic!("expected an invalid-request error, got {:?}", other),
    }
    assert!(!acts.iter().any(|a| matches!(a, SessionAction::CallVerifier(_))));
}

#[test]
fn malformed_opening_message_rejected() {
    let mut s = fresh_session();
    let acts = s.step(SessionEvent::Message(b"not json".to_vec()));
    assert!(matches!(
        acts.as_slice(),
        [SessionAction::SendError(Error::InvalidRequest(_))]
    ));
    let mut s = fresh_session();
    let acts = s.step(SessionEvent::Message(b"{\"captcha_token\":\"t\"}".to_vec()));
    assert!(matches!(
        acts.as_slice(),
        [SessionAction::SendError(Error::InvalidRequest(_))]
    ));
}

#[test]
fn verifier_failure_is_forbidden() {
    let mut s = fresh_session();
    s.step(SessionEvent::Message(GOOD_REQUEST.to_vec()));
    let verdict = b"{\"success\":false,\"error-codes\":[\"invalid-input-response\"]}";
    let acts = s.step(SessionEvent::VerifierResponse(verdict.to_vec()));
    assert_eq!(acts.len(), 1);
    match &acts[0] {
        SessionAction::SendError(Error::Forbidden(codes)) => {
            assert_eq!(codes, &vec!["invalid-input-response".to_string()]);
        },
        other => panic!("expected a forbidden error, got {:?}", other),
    }
}

#[test]
fn verifier_problems_are_internal_errors() {
    // A verdict that is not JSON, not an object, or missing a required
    // field is unreadable; so is an unreachable verifier.
    let unreadable: [&[u8]; 4] =
        [b"surprise", b"{}", b"{\"success\":true}", b"{\"success\":\"yes\",\"error-codes\":[]}"];
    for body in unreadable {
        let mut s = fresh_session();
        s.step(SessionEvent::Message(GOOD_REQUEST.to_vec()));
        let acts = s.step(SessionEvent::VerifierResponse(body.to_vec()));
        assert!(
            matches!(acts.as_slice(), [SessionAction::SendError(Error::InternalError(_))]),
            "verdict {:?}",
            String::from_utf8_lossy(body)
        );
    }
    let mut s = fresh_session();
    s.step(SessionEvent::Message(GOOD_REQUEST.to_vec()));
    let acts = s.step(SessionEvent::VerifierUnreachable);
    assert!(matches!(
        acts.as_slice(),
        [SessionAction::SendError(Error::InternalError(_))]
    ));
}

#[test]
fn upstream_refusal_is_reported() {
    let mut s = fresh_session();
    s.step(SessionEvent::Message(GOOD_REQUEST.to_vec()));
    s.step(SessionEvent::VerifierResponse(CAPTCHA_OK.to_vec()));
    let acts = s.step(SessionEvent::UpstreamRefused(429, "rate limited".to_string()));
    assert_eq!(acts.len(), 1);
    match &acts[0] {
        SessionAction::SendError(Error::OpenAIError(status, body)) => {
            assert_eq!(*status, 429);
            assert_eq!(body, "rate limited");
        },
        other => panic!("expected an upstream error, got {:?}", other),
    }
}

#[test]
fn unparseable_record_ends_with_unavailable() {
    let mut s = streaming_session();
    let chunk = b"data: {\"choices\":[{\"delta\":{\"content\":\"part\"}}]}\n\ndata: garbage\n\n";
    let acts = s.step(SessionEvent::Chunk(chunk.to_vec()));
    assert_eq!(acts.len(), 4);
    assert!(matches!(&acts[0], SessionAction::Send(StreamItem::Delta(_))));
    assert!(matches!(
        &acts[1],
        SessionAction::Send(StreamItem::Finish(FinishReason::Unavailable))
    ));
    match &acts[2] {
        SessionAction::Record(r) => assert_eq!(r.response, "part"),
        other => panic!("expected the transcript write, got {:?}", other),
    }
    assert!(matches!(&acts[3], SessionAction::SendEnd(_)));
}

#[test]
fn stream_failure_completes_with_unavailable() {
    let mut s = streaming_session();
    s.step(SessionEvent::Chunk(
        b"data: {\"choices\":[{\"delta\":{\"content\":\"half\"}}]}\n\n".to_vec(),
    ));
    let acts = s.step(SessionEvent::StreamFailed);
    match acts.as_slice() {
        [SessionAction::Send(StreamItem::Finish(FinishReason::Unavailable)), SessionAction::Record(r), SessionAction::SendEnd(end)] =>
        {
            assert_eq!(r.response, "half");
            assert_eq!(end.id, r.id);
        },
        other => panic!("expected unavailable completion, got {:?}", other),
    }
}

#[test]
fn close_before_message_is_quiet() {
    let mut s = fresh_session();
    assert!(s.step(SessionEvent::Closed).is_empty());
    assert!(s.step(SessionEvent::Message(GOOD_REQUEST.to_vec())).is_empty());
}

#[test]
fn close_mid_stream_records_partial_answer() {
    let mut s = streaming_session();
    s.step(SessionEvent::Chunk(
        b"data: {\"choices\":[{\"delta\":{\"content\":\"so far\"}}]}\n\n".to_vec(),
    ));
    let acts = s.step(SessionEvent::Closed);
    match acts.as_slice() {
        [SessionAction::Record(r)] => assert_eq!(r.response, "so far"),
        other => panic!("expected only the transcript write, got {:?}", other),
    }
    // Without any accumulated text nothing is recorded.
    let mut s = streaming_session();
    assert!(s.step(SessionEvent::Closed).is_empty());
}

#[test]
fn events_out_of_phase_are_ignored() {
    let mut s = fresh_session();
    assert!(s.step(SessionEvent::Chunk(b"data: x\n".to_vec())).is_empty());
    assert!(s.step(SessionEvent::UpstreamAccepted).is_empty());
    assert!(s.step(SessionEvent::StreamEnd).is_empty());
    assert!(s.step(SessionEvent::VerifierResponse(CAPTCHA_OK.to_vec())).is_empty());
}

#[test]
fn captcha_form_body_in_verifier_call() {
    let mut s = RelaySession::new(
        "k&y".to_string(),
        "1.2.3.4".to_string(),
        "loc".to_string(),
        sample_prompt(),
        sample_now(),
    );
    let acts = s.step(SessionEvent::Message(
        b"{\"question\":\"q\",\"captcha_token\":\"t k\"}".to_vec(),
    ));
    match acts.as_slice() {
        [SessionAction::CallVerifier(body)] => {
            assert_eq!(body, "secret=k%26y&response=t%20k&remoteip=1.2.3.4");
        },
        other => panic!("expected the verifier call, got {:?}", other),
    }
}
