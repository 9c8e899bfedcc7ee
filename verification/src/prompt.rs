//! The prompt data model and the construction of the upstream request: the
//! client configuration types, the user's request, and the combination of
//! the configured prompt template with the user's question, with the current
//! local date and time substituted into the leading system message.

use vstd::prelude::*;
use vstd::string::{StrSliceExecFns, StringExecFns, StringSliceAdditionalSpecFns};
use vstd::utf8::encode_utf8;

use crate::error::{Error, ErrorView};
use crate::id::date_bytes;
use crate::search::{
    find_first, lemma_find_first_complete, lemma_find_first_props, lemma_matches_at_skip,
    matches_at,
};
use crate::text::{
    ascii_to_string, ascii_view, dec_bytes, lemma_dec_bytes_ascii, push_dec_u64, push_two_digits,
    push_four_digits,
};

verus! {

/// A chat participant.
#[derive(Clone, Copy, PartialEq, Eq, Structural, Debug)]
pub enum Role {
    System,
    User,
    Assistant,
}

/// One chat message of the prompt template or of the conversation.
#[derive(Clone, Debug)]
pub struct Message {
    pub role: Role,
    pub content: String,
}

/// The mathematical value of a message.
pub struct MessageView {
    pub role: Role,
    pub content: Seq<char>,
}

impl View for Message {
    type V = MessageView;

    open spec fn view(&self) -> MessageView {
        MessageView { role: self.role, content: self.content@ }
    }
}

impl DeepView for Message {
    type V = MessageView;

    open spec fn deep_view(&self) -> MessageView {
        self@
    }
}

/// The configured prompt template: a model identifier, an ordered message
/// list, and an optional token budget.
#[derive(Clone, Debug)]
pub struct Prompt {
    pub model: String,
    pub messages: Vec<Message>,
    pub max_tokens: Option<u32>,
}

/// The mathematical value of a prompt template.
pub struct PromptView {
    pub model: Seq<char>,
    pub messages: Seq<MessageView>,
    pub max_tokens: Option<u32>,
}

impl View for Prompt {
    type V = PromptView;

    open spec fn view(&self) -> PromptView {
        PromptView {
            model: self.model@,
            messages: self.messages.deep_view(),
            max_tokens: self.max_tokens,
        }
    }
}

/// The client configuration held by the external configuration store.
#[derive(Clone, Debug)]
pub struct Config {
    pub prompt: Prompt,
    pub questions: Vec<String>,
    pub welcome: String,
    pub announcement: Option<String>,
}

/// The one streaming request sent upstream for a session.
#[derive(Clone, Debug)]
pub struct RequestToOpenAI {
    pub model: String,
    pub messages: Vec<Message>,
    pub max_tokens: u32,
    pub stream: bool,
}

/// The mathematical value of an upstream request.
pub struct RequestToOpenAIView {
    pub model: Seq<char>,
    pub messages: Seq<MessageView>,
    pub max_tokens: u32,
    pub stream: bool,
}

impl View for RequestToOpenAI {
    type V = RequestToOpenAIView;

    open spec fn view(&self) -> RequestToOpenAIView {
        RequestToOpenAIView {
            model: self.model@,
            messages: self.messages.deep_view(),
            max_tokens: self.max_tokens,
            stream: self.stream,
        }
    }
}

/// The client's opening request: a question, and the anti-abuse token when
/// the client supplied one.
#[derive(Clone, Debug)]
pub struct UserRequest {
    pub question: String,
    pub captcha_token: Option<String>,
}

/// The mathematical value of a client request.
pub struct UserRequestView {
    pub question: Seq<char>,
    pub captcha_token: Option<Seq<char>>,
}

impl View for UserRequest {
    type V = UserRequestView;

    open spec fn view(&self) -> UserRequestView {
        UserRequestView {
            question: self.question@,
            captcha_token: self.captcha_token.deep_view(),
        }
    }
}

/// A local calendar date and time, as plain fields.  The caller converts
/// from whatever time source and time zone it uses.
#[derive(Clone, Copy, PartialEq, Eq, Structural, Debug)]
pub struct LocalDateTime {
    pub year: u16,
    pub month: u8,
    pub day: u8,
    pub hour: u8,
    pub minute: u8,
    pub second: u8,
}

impl LocalDateTime {
    /// The field ranges of a calendar date and time this library formats.
    pub open spec fn wf(&self) -> bool {
        &&& 1000 <= self.year <= 9999
        &&& 1 <= self.month <= 12
        &&& 1 <= self.day <= 31
        &&& self.hour <= 23
        &&& self.minute <= 59
        &&& self.second <= 59
    }
}

/// The bytes of a formatted date and time: the date as `YYYY-MM-DD`, a
/// space, then unpadded hour, minute and second separated by colons.
pub open spec fn datetime_bytes(dt: LocalDateTime) -> Seq<u8> {
    date_bytes(dt.year as int, dt.month as int, dt.day as int) + seq![0x20u8] + dec_bytes(
        dt.hour as int,
    ) + seq![0x3au8] + dec_bytes(dt.minute as int) + seq![0x3au8] + dec_bytes(dt.second as int)
}

/// Format a local date and time for substitution into the prompt template.
pub fn get_local_datetime(now: &LocalDateTime) -> (r: String)
    requires
        now.wf(),
    ensures
        r@ == ascii_view(datetime_bytes(*now)),
{
    let mut v: Vec<u8> = Vec::new();
    push_four_digits(&mut v, now.year);
    v.push(0x2d);
    push_two_digits(&mut v, now.month);
    v.push(0x2d);
    push_two_digits(&mut v, now.day);
    v.push(0x20);
    push_dec_u64(&mut v, now.hour as u64);
    v.push(0x3a);
    push_dec_u64(&mut v, now.minute as u64);
    v.push(0x3a);
    push_dec_u64(&mut v, now.second as u64);
    proof {
        lemma_dec_bytes_ascii(now.hour as int);
        lemma_dec_bytes_ascii(now.minute as int);
        lemma_dec_bytes_ascii(now.second as int);
        assert(v@ =~= datetime_bytes(*now));
    }
    ascii_to_string(v)
}

/// All occurrences of `pat` in `s` replaced by `rep`, scanning left to
/// right over non-overlapping occurrences.
pub open spec fn replace_spec(s: Seq<char>, pat: Seq<char>, rep: Seq<char>) -> Seq<char>
    decreases s.len(),
    when pat.len() >= 1
    via replace_spec_decreases
{
    match find_first(s, pat) {
        None => s,
        Some(i) => s.take(i) + rep + replace_spec(s.skip(i + pat.len()), pat, rep),
    }
}

#[via_fn]
proof fn replace_spec_decreases(s: Seq<char>, pat: Seq<char>, rep: Seq<char>) {
    lemma_find_first_props(s, pat);
}

/// Is `pat` a match of `s` at position `i`?
fn match_at(s: &str, pat: &str, i: usize) -> (r: bool)
    requires
        i + pat@.len() <= s@.len(),
    ensures
        r == matches_at(s@, pat@, i as int),
{
    let slen = s.unicode_len();
    let plen = pat.unicode_len();
    let mut k: usize = 0;
    while k < plen
        invariant
            slen == s@.len(),
            plen == pat@.len(),
            i + plen <= slen,
            k <= plen,
            forall|j: int| 0 <= j < k ==> s@[i + j] == pat@[j],
        decreases plen - k,
    {
        if s.get_char(i + k) != pat.get_char(k) {
            proof {
                if matches_at(s@, pat@, i as int) {
                    assert(s@[i + k] == s@.subrange(i as int, i + pat@.len())[k as int]);
                }
            }
            return false;
        }
        k = k + 1;
    }
    proof {
        assert(s@.subrange(i as int, i + pat@.len()) =~= pat@);
    }
    true
}

/// Absolute index of the first occurrence of `pat` at or after `from`.
pub(crate) fn find_occurrence(s: &str, pat: &str, from: usize) -> (r: Option<usize>)
    requires
        from <= s@.len(),
        pat@.len() >= 1,
    ensures
        match r {
            Some(i) => from <= i && i + pat@.len() <= s@.len() && find_first(
                s@.skip(from as int),
                pat@,
            ) == Some(i - from),
            None => find_first(s@.skip(from as int), pat@) is None,
        },
{
    let slen = s.unicode_len();
    let plen = pat.unicode_len();
    let ghost tail = s@.skip(from as int);
    if slen - from < plen {
        return None;
    }
    let mut i = from;
    while i <= slen - plen
        invariant
            slen == s@.len(),
            plen == pat@.len(),
            plen >= 1,
            from <= i <= slen,
            plen <= slen - from,
            tail == s@.skip(from as int),
            forall|j: int| 0 <= j < i - from ==> !matches_at(tail, pat@, j),
        decreases slen - i,
    {
        if match_at(s, pat, i) {
            proof {
                lemma_matches_at_skip(s@, pat@, from as int, i as int);
                lemma_find_first_complete(tail, pat@, i - from);
                lemma_find_first_props(tail, pat@);
            }
            return Some(i);
        }
        proof {
            lemma_matches_at_skip(s@, pat@, from as int, i as int);
        }
        i = i + 1;
    }
    proof {
        lemma_find_first_props(tail, pat@);
        if find_first(tail, pat@) is Some {
            let k = find_first(tail, pat@).unwrap();
            assert(matches_at(tail, pat@, k));
        }
    }
    None
}

/// Replace every occurrence of `pat` in `s` by `rep`.
pub fn replace_str(s: &str, pat: &str, rep: &str) -> (r: String)
    requires
        pat@.len() >= 1,
    ensures
        r@ == replace_spec(s@, pat@, rep@),
{
    let slen = s.unicode_len();
    let mut out = String::new();
    let mut pos: usize = 0;
    proof {
        assert(s@.skip(0) =~= s@);
        assert(out@ + replace_spec(s@, pat@, rep@) =~= replace_spec(s@, pat@, rep@));
    }
    loop
        invariant
            slen == s@.len(),
            pat@.len() >= 1,
            pos <= slen,
            replace_spec(s@, pat@, rep@) == out@ + replace_spec(s@.skip(pos as int), pat@, rep@),
        decreases slen - pos,
    {
        match find_occurrence(s, pat, pos) {
            None => {
                out.append(s.substring_char(pos, slen));
                proof {
                    assert(s@.subrange(pos as int, slen as int) =~= s@.skip(pos as int));
                }
                return out;
            },
            Some(i) => {
                let plen = pat.unicode_len();
                let ghost prev_out = out@;
                out.append(s.substring_char(pos, i));
                out.append(rep);
                proof {
                    let tail = s@.skip(pos as int);
                    let rel = i - pos;
                    assert(replace_spec(tail, pat@, rep@) == tail.take(rel) + rep@ + replace_spec(
                        tail.skip(rel + pat@.len()),
                        pat@,
                        rep@,
                    ));
                    assert(tail.take(rel) =~= s@.subrange(pos as int, i as int));
                    assert(tail.skip(rel + pat@.len()) =~= s@.skip(i + pat@.len()));
                    assert(out@ + replace_spec(s@.skip(i + pat@.len()), pat@, rep@) =~= prev_out
                        + replace_spec(tail, pat@, rep@));
                }
                pos = i + plen;
            },
        }
    }
}

/// The error message reporting an over-long question of `n` bytes.
pub open spec fn too_long_msg(n: int) -> Seq<char> {
    "question is too long ("@ + ascii_view(dec_bytes(n)) + " > 300)"@
}

/// The longest question accepted, in bytes.
pub const MAX_QUESTION_BYTES: usize = 300;

/// What building the upstream request yields.  An over-long question is
/// rejected before anything else; then the user's question is appended to
/// the template's messages, the first message must carry the system role,
/// and the current date and time replaces the `[CURRENT_TIME]` marker in it.
/// The token budget falls back to 128 when the template names none.
pub open spec fn spec_build_request(p: PromptView, q: Seq<char>, now: LocalDateTime) -> Result<
    RequestToOpenAIView,
    ErrorView,
> {
    let qbytes = encode_utf8(q);
    if qbytes.len() > 300 {
        Err(ErrorView::InvalidRequest(too_long_msg(qbytes.len() as int)))
    } else {
        let msgs = p.messages + seq![MessageView { role: Role::User, content: q }];
        if msgs[0].role != Role::System {
            Err(ErrorView::InternalError("first message must be a system message"@))
        } else {
            let subst = MessageView {
                role: msgs[0].role,
                content: replace_spec(
                    msgs[0].content,
                    "[CURRENT_TIME]"@,
                    ascii_view(datetime_bytes(now)),
                ),
            };
            Ok(
                RequestToOpenAIView {
                    model: p.model,
                    messages: msgs.update(0, subst),
                    max_tokens: match p.max_tokens {
                        Some(t) => t,
                        None => 128,
                    },
                    stream: true,
                },
            )
        }
    }
}

impl RequestToOpenAI {
    /// Build the upstream request from the configured template, the user's
    /// question and the current local date and time.
    pub fn new(prompt: Prompt, user_question: String, now: &LocalDateTime) -> (r: Result<
        Self,
        Error,
    >)
        requires
            now.wf(),
        ensures
            match r {
                Ok(req) => spec_build_request(prompt@, user_question@, *now) == Ok::<
                    RequestToOpenAIView,
                    ErrorView,
                >(req@),
                Err(e) => spec_build_request(prompt@, user_question@, *now) == Err::<
                    RequestToOpenAIView,
                    ErrorView,
                >(e@),
            },
    {
        let qlen = user_question.as_str().as_bytes().len();
        if qlen > MAX_QUESTION_BYTES {
            let mut msg = String::from_str("question is too long (");
            let mut digits: Vec<u8> = Vec::new();
            push_dec_u64(&mut digits, qlen as u64);
            proof {
                lemma_dec_bytes_ascii(qlen as int);
            }
            let ds = ascii_to_string(digits);
            msg.append(ds.as_str());
            msg.append(" > 300)");
            return Err(Error::InvalidRequest(msg));
        }
        let ghost qv = user_question@;
        let mut messages = prompt.messages;
        let ghost old_messages = messages.deep_view();
        messages.push(Message { role: Role::User, content: user_question });
        proof {
            assert(messages.deep_view() =~= old_messages + seq![
                MessageView { role: Role::User, content: qv },
            ]);
            assert(messages.deep_view()[0] == messages@[0]@);
        }
        let first_role = messages[0].role;
        if !(first_role == Role::System) {
            return Err(
                Error::InternalError(String::from_str("first message must be a system message")),
            );
        }
        let dt = get_local_datetime(now);
        proof {
            reveal_strlit("[CURRENT_TIME]");
        }
        let new_content = replace_str(messages[0].content.as_str(), "[CURRENT_TIME]", dt.as_str());
        let ghost before_update = messages.deep_view();
        messages[0] = Message { role: first_role, content: new_content };
        proof {
            assert(messages.deep_view() =~= before_update.update(
                0,
                MessageView { role: first_role, content: new_content@ },
            ));
        }
        Ok(
            RequestToOpenAI {
                model: prompt.model,
                messages,
                max_tokens: match prompt.max_tokens {
                    Some(t) => t,
                    None => 128,
                },
                stream: true,
            },
        )
    }
}

} // verus!
