use salieri::error::Error;
use salieri::prompt::{
    get_local_datetime, replace_str, LocalDateTime, Message, Prompt, RequestToOpenAI, Role,
};

fn sample_now() -> LocalDateTime {
    LocalDateTime { year: 2024, month: 3, day: 5, hour: 9, minute: 4, second: 7 }
}

fn sample_prompt(system_text: &str) -> Prompt {
    Prompt {
        model: "gpt-3.5-turbo".to_string(),
        messages: vec![Message { role: Role::System, content: system_text.to_string() }],
        max_tokens: None,
    }
}

#[test]
fn local_datetime_format() {
    // Month and day are zero padded; hour, minute and second are not.
    assert_eq!(get_local_datetime(&sample_now()), "2024-03-05 9:4:7");
    let noon = LocalDateTime { year: 2023, month: 12, day: 31, hour: 23, minute: 59, second: 58 };
    assert_eq!(get_local_datetime(&noon), "2023-12-31 23:59:58");
}

#[test]
fn builds_request_with_time_substituted() {
    let prompt = sample_prompt("You are helpful. It is [CURRENT_TIME] now.");
    let req = RequestToOpenAI::new(prompt, "Hello!".to_string(), &sample_now()).unwrap();
    assert_eq!(req.model, "gpt-3.5-turbo");
    assert_eq!(req.max_tokens, 128);
    assert!(req.stream);
    assert_eq!(req.messages.len(), 2);
    assert_eq!(req.messages[0].role, Role::System);
    assert_eq!(req.messages[0].content, "You are helpful. It is 2024-03-05 9:4:7 now.");
    assert_eq!(req.messages[1].role, Role::User);
    assert_eq!(req.messages[1].content, "Hello!");
}

#[test]
fn explicit_token_budget_is_kept() {
    let mut prompt = sample_prompt("sys");
    prompt.max_tokens = Some(126);
    let req = RequestToOpenAI::new(prompt, "q".to_string(), &sample_now()).unwrap();
    assert_eq!(req.max_tokens, 126);
}

#[test]
fn overlong_question_is_rejected() {
    let prompt = sample_prompt("sys");
    let question = "x".repeat(301);
    match RequestToOpenAI::new(prompt, question, &sample_now()) {
        Err(Error::InvalidRequest(msg)) => {
            assert_eq!(msg, "question is too long (301 > 300)");
        },
        other => panic!("expected an invalid-request error, got {:?}", other),
    }
}

#[test]
fn question_cap_counts_bytes() {
    let prompt = sample_prompt("sys");
    // 150 two-byte characters fit; 151 do not.
    let fits = "é".repeat(150);
    assert!(RequestToOpenAI::new(sample_prompt("sys"), fits, &sample_now()).is_ok());
    let too_long = "é".repeat(151);
    match RequestToOpenAI::new(prompt, too_long, &sample_now()) {
        Err(Error::InvalidRequest(msg)) => {
            assert_eq!(msg, "question is too long (302 > 300)");
        },
        other => panic!("expected an invalid-request error, got {:?}", other),
    }
}

#[test]
fn first_message_must_be_system() {
    let prompt = Prompt {
        model: "m".to_string(),
        messages: vec![Message { role: Role::User, content: "u".to_string() }],
        max_tokens: None,
    };
    match RequestToOpenAI::new(prompt, "q".to_string(), &sample_now()) {
        Err(Error::InternalError(msg)) => {
            assert_eq!(msg, "first message must be a system message");
        },
        other => panic!("expected an internal error, got {:?}", other),
    }
    // An empty template fails the same check: the pushed user message leads.
    let empty = Prompt { model: "m".to_string(), messages: vec![], max_tokens: None };
    assert!(matches!(
        RequestToOpenAI::new(empty, "q".to_string(), &sample_now()),
        Err(Error::InternalError(_))
    ));
}

#[test]
fn replace_all_occurrences() {
    assert_eq!(replace_str("a[X]b[X]c", "[X]", "-"), "a-b-c");
    assert_eq!(replace_str("no marker", "[X]", "-"), "no marker");
    assert_eq!(replace_str("[X][X]", "[X]", "yz"), "yzyz");
    assert_eq!(replace_str("", "[X]", "y"), "");
    assert_eq!(replace_str("ababa", "aba", "_"), "_ba");
}

#[test]
fn error_reporting() {
    assert_eq!(Error::InvalidRequest("x".to_string()).status_code(), 400);
    assert_eq!(Error::Forbidden(vec![]).status_code(), 403);
    assert_eq!(Error::OpenAIError(502, "bad".to_string()).status_code(), 500);
    assert_eq!(Error::InternalError("x".to_string()).status_code(), 500);
    assert_eq!(Error::InvalidRequest("oops".to_string()).message(), "invalid request: oops");
    assert_eq!(Error::Forbidden(vec!["c".to_string()]).message(), "forbidden");
    assert_eq!(Error::OpenAIError(429, "b".to_string()).message(), "OpenAI error: 429");
    assert_eq!(Error::InternalError("x".to_string()).message(), "internal error");
}
