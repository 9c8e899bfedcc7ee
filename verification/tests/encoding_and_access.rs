use salieri::admin::{check_admin, split_commas};
use salieri::allowed_origin_header;
use salieri::captcha::{captcha_form_body, encode_form_data};
use salieri::error::Error;
use salieri::hint::sample_questions;

#[test]
fn form_encoding() {
    assert_eq!(encode_form_data("abcXYZ019"), "abcXYZ019");
    assert_eq!(encode_form_data("-_.!~*'()"), "-_.!~*'()");
    assert_eq!(encode_form_data("a b"), "a%20b");
    assert_eq!(encode_form_data("&=?#/"), "%26%3D%3F%23%2F");
    assert_eq!(encode_form_data("é"), "%C3%A9");
    assert_eq!(encode_form_data(""), "");
}

#[test]
fn form_body() {
    assert_eq!(
        captcha_form_body("s&1", "tok en", "2001:db8::1"),
        "secret=s%261&response=tok%20en&remoteip=2001%3Adb8%3A%3A1"
    );
}

#[test]
fn origins() {
    assert_eq!(allowed_origin_header("https://tomshen.io").unwrap(), "https://tomshen.io");
    assert_eq!(allowed_origin_header("http://localhost:3000").unwrap(), "http://localhost:3000");
    assert_eq!(
        allowed_origin_header("https://salieri-admin.tomshen.io").unwrap(),
        "https://salieri-admin.tomshen.io"
    );
    match allowed_origin_header("https://evil.example") {
        Err(Error::InvalidRequest(msg)) => {
            assert_eq!(msg, "origin https://evil.example is not allowed");
        },
        other => panic!("expected a rejection, got {:?}", other),
    }
}

#[test]
fn comma_splitting() {
    assert_eq!(split_commas("a@x.io,b@y.io"), vec!["a@x.io", "b@y.io"]);
    assert_eq!(split_commas("one"), vec!["one"]);
    assert_eq!(split_commas(""), vec![""]);
    assert_eq!(split_commas("a,,b,"), vec!["a", "", "b", ""]);
}

#[test]
fn admin_judgement() {
    let admins = vec!["a@x.io".to_string(), "b@y.io".to_string()];
    assert!(check_admin(None, Some("b@y.io".to_string()), &admins).is_ok());
    assert!(check_admin(None, Some("c@z.io".to_string()), &admins).is_err());
    assert!(check_admin(None, None, &admins).is_err());
    assert!(check_admin(Some("expired".to_string()), Some("a@x.io".to_string()), &admins).is_err());
    match check_admin(None, None, &admins) {
        Err(Error::Forbidden(codes)) => assert!(codes.is_empty()),
        other => panic!("expected forbidden, got {:?}", other),
    }
}

#[test]
fn question_sampling() {
    let questions: Vec<String> = (0..10).map(|i| format!("q{i}")).collect();
    let picked = sample_questions(questions.clone(), 12345);
    assert_eq!(picked.len(), 3);
    for q in &picked {
        assert!(questions.contains(q));
    }
    // Different seeds may pick different questions, but always three of them.
    let other = sample_questions(questions.clone(), 54321);
    assert_eq!(other.len(), 3);
}
