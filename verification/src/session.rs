//! The relay session state machine.
//!
//! One `RelaySession` serves one client connection.  The caller owns the
//! connection and every outside exchange: it feeds each arrival in as a
//! `SessionEvent` and performs the returned `SessionAction`s in order.  The
//! machine itself decides everything: how the opening request is judged,
//! when the verifier and the upstream are called, which messages reach the
//! client and in what order, and what ends up in the transcript.
//!
//! The message-ordering guarantee is stated over a ghost history of every
//! client-bound message: the opening `Start` comes first and only once,
//! text fragments and the finish classification follow it, the role marker
//! is never forwarded, and at most one closing message (session end or
//! error report) is ever produced, always last.

use vstd::prelude::*;
use vstd::string::{StrSliceExecFns, StringExecFns, StringSliceAdditionalSpecFns};
use vstd::utf8::encode_utf8;

use crate::captcha::{captcha_fields_of, captcha_form_body, form_body_spec, parse_captcha_response};
use crate::error::{Error, ErrorView};
use crate::prompt::{
    spec_build_request, LocalDateTime, Prompt, PromptView, RequestToOpenAI, RequestToOpenAIView,
    UserRequest,
};
use crate::stream_parser::{
    event_fields_of, leftover, records_of, translate_spec, ChatStreamParser, FinishReason,
    StreamItem, StreamItemView,
};

verus! {

/// The phases of one session, in the order a successful session passes
/// through them.  `Done` is terminal, reachable from every phase.
#[derive(Clone, Copy, PartialEq, Eq, Structural, Debug)]
pub enum Phase {
    AwaitingRequest,
    AwaitingVerification,
    AwaitingUpstream,
    Streaming,
    Done,
}

/// What the caller observed, handed to the machine as one event.
#[derive(Debug)]
pub enum SessionEvent {
    /// The client's first message arrived, as raw bytes.
    Message(Vec<u8>),
    /// The client closed the connection.
    Closed,
    /// The verifier answered; its response body, as raw bytes.
    VerifierResponse(Vec<u8>),
    /// The verifier could not be reached.
    VerifierUnreachable,
    /// The upstream accepted the streaming request.
    UpstreamAccepted,
    /// The upstream refused the request with this status and body.
    UpstreamRefused(u16, String),
    /// One chunk of the upstream response body.
    Chunk(Vec<u8>),
    /// The upstream response body ended.
    StreamEnd,
    /// Reading the upstream response body failed.
    StreamFailed,
}

/// The final completion message, carrying the session identifier.
#[derive(Clone, Debug)]
pub struct EndMessage {
    pub id: String,
}

/// The durable record of one exchange, built exactly once at completion and
/// immutable thereafter.
#[derive(Clone, Debug)]
pub struct TranscriptRecord {
    pub id: String,
    pub question: String,
    pub response: String,
    pub remote_ip: String,
    pub location: String,
    pub timestamp: i64,
}

/// The mathematical value of a transcript record.
pub struct TranscriptView {
    pub id: Seq<char>,
    pub question: Seq<char>,
    pub response: Seq<char>,
    pub remote_ip: Seq<char>,
    pub location: Seq<char>,
    pub timestamp: i64,
}

impl View for TranscriptRecord {
    type V = TranscriptView;

    open spec fn view(&self) -> TranscriptView {
        TranscriptView {
            id: self.id@,
            question: self.question@,
            response: self.response@,
            remote_ip: self.remote_ip@,
            location: self.location@,
            timestamp: self.timestamp,
        }
    }
}

impl TranscriptRecord {
    /// Build the completion record from the session's accumulated state.
    pub fn new(
        id: String,
        question: String,
        response: String,
        remote_ip: String,
        location: String,
        timestamp: i64,
    ) -> (r: TranscriptRecord)
        ensures
            r@ == (TranscriptView {
                id: id@,
                question: question@,
                response: response@,
                remote_ip: remote_ip@,
                location: location@,
                timestamp,
            }),
    {
        TranscriptRecord { id, question, response, remote_ip, location, timestamp }
    }
}

/// One instruction to the caller.
#[derive(Debug)]
pub enum SessionAction {
    /// Post this form body to the anti-abuse verifier.
    CallVerifier(String),
    /// Open the one streaming request upstream.
    SendUpstream(RequestToOpenAI),
    /// Forward this message to the client.
    Send(StreamItem),
    /// Send the final completion message to the client.
    SendEnd(EndMessage),
    /// Report this error to the client; the session is over.
    SendError(Error),
    /// Hand this record to the durable log store.
    Record(TranscriptRecord),
}

/// The mathematical value of an action.
pub enum ActionView {
    CallVerifier(Seq<char>),
    SendUpstream(RequestToOpenAIView),
    Send(StreamItemView),
    SendEnd(Seq<char>),
    SendError(ErrorView),
    Record(TranscriptView),
}

impl View for SessionAction {
    type V = ActionView;

    open spec fn view(&self) -> ActionView {
        match self {
            SessionAction::CallVerifier(body) => ActionView::CallVerifier(body@),
            SessionAction::SendUpstream(req) => ActionView::SendUpstream(req@),
            SessionAction::Send(item) => ActionView::Send(item@),
            SessionAction::SendEnd(end) => ActionView::SendEnd(end.id@),
            SessionAction::SendError(e) => ActionView::SendError(e@),
            SessionAction::Record(t) => ActionView::Record(t@),
        }
    }
}

impl DeepView for SessionAction {
    type V = ActionView;

    open spec fn deep_view(&self) -> ActionView {
        self@
    }
}

/// One client-bound message, as recorded in the ghost history.
pub enum OutMsg {
    /// A relay message: start, text fragment or finish classification.
    Item(StreamItemView),
    /// The final completion message with the session identifier.
    End(Seq<char>),
    /// An error report.
    Error(ErrorView),
}

pub open spec fn is_role_marker(m: OutMsg) -> bool {
    m matches OutMsg::Item(StreamItemView::RoleMsg)
}

pub open spec fn is_start(m: OutMsg) -> bool {
    m matches OutMsg::Item(StreamItemView::Start(_))
}

pub open spec fn is_delta(m: OutMsg) -> bool {
    m matches OutMsg::Item(StreamItemView::Delta(_))
}

pub open spec fn is_finish(m: OutMsg) -> bool {
    m matches OutMsg::Item(StreamItemView::Finish(_))
}

/// A message that closes the session: the completion message or an error
/// report.
pub open spec fn is_closing(m: OutMsg) -> bool {
    m matches OutMsg::End(_) || m matches OutMsg::Error(_)
}

/// The text a history entry contributes to the accumulated answer.
pub open spec fn out_delta_text(m: OutMsg) -> Seq<char> {
    match m {
        OutMsg::Item(StreamItemView::Delta(t)) => t,
        _ => Seq::empty(),
    }
}

/// The concatenated text of every fragment forwarded so far.
pub open spec fn deltas_text(h: Seq<OutMsg>) -> Seq<char>
    decreases h.len(),
{
    if h.len() == 0 {
        Seq::empty()
    } else {
        deltas_text(h.drop_last()) + out_delta_text(h.last())
    }
}

proof fn lemma_deltas_text_push(h: Seq<OutMsg>, m: OutMsg)
    ensures
        deltas_text(h.push(m)) == deltas_text(h) + out_delta_text(m),
{
    assert(h.push(m).drop_last() =~= h);
    assert(h.push(m).last() == m);
}

/// The ordering guarantee over everything sent to the client: the role
/// marker is never forwarded; the opening message stands first and appears
/// at most once; every text fragment and finish classification follows it;
/// no fragment follows the finish; and a closing message, when present, is
/// unique and last.
pub open spec fn wf_client_history(h: Seq<OutMsg>) -> bool {
    &&& forall|i: int| 0 <= i < h.len() ==> !is_role_marker(#[trigger] h[i])
    &&& forall|i: int| 0 <= i < h.len() && is_start(#[trigger] h[i]) ==> i == 0
    &&& forall|i: int| 0 <= i < h.len() && is_closing(#[trigger] h[i]) ==> i == h.len() - 1
    &&& forall|i: int|
        0 <= i < h.len() && (is_delta(#[trigger] h[i]) || is_finish(h[i])) ==> 0 < i && is_start(
            h[0],
        )
    &&& forall|i: int, j: int|
        0 <= i < h.len() && 0 <= j < h.len() && is_finish(#[trigger] h[i]) && is_delta(
            #[trigger] h[j],
        ) ==> j < i
}

/// The history of a session in mid-relay: the opening message, then text
/// fragments only.
pub open spec fn streaming_shape(h: Seq<OutMsg>) -> bool {
    &&& h.len() >= 1
    &&& is_start(h[0])
    &&& forall|i: int| 1 <= i < h.len() ==> is_delta(#[trigger] h[i])
}

/// The history of a relay that saw its finish: the opening message, text
/// fragments, and the finish classification last.
pub open spec fn finished_shape(h: Seq<OutMsg>) -> bool {
    &&& h.len() >= 2
    &&& is_start(h[0])
    &&& is_finish(h.last())
    &&& forall|i: int| 1 <= i < h.len() - 1 ==> is_delta(#[trigger] h[i])
}

proof fn lemma_wf_streaming(h: Seq<OutMsg>)
    requires
        streaming_shape(h),
    ensures
        wf_client_history(h),
{
}

proof fn lemma_streaming_push_delta(h: Seq<OutMsg>, t: Seq<char>)
    requires
        streaming_shape(h),
    ensures
        streaming_shape(h.push(OutMsg::Item(StreamItemView::Delta(t)))),
{
    let h2 = h.push(OutMsg::Item(StreamItemView::Delta(t)));
    assert forall|i: int| 1 <= i < h2.len() implies is_delta(#[trigger] h2[i]) by {
        if i < h.len() {
            assert(h2[i] == h[i]);
        }
    }
}

proof fn lemma_streaming_push_finish(h: Seq<OutMsg>, r: FinishReason)
    requires
        streaming_shape(h),
    ensures
        finished_shape(h.push(OutMsg::Item(StreamItemView::Finish(r)))),
{
    let h2 = h.push(OutMsg::Item(StreamItemView::Finish(r)));
    assert forall|i: int| 1 <= i < h2.len() - 1 implies is_delta(#[trigger] h2[i]) by {
        assert(h2[i] == h[i]);
    }
}

proof fn lemma_wf_streaming_push_closing(h: Seq<OutMsg>, m: OutMsg)
    requires
        streaming_shape(h),
        is_closing(m),
    ensures
        wf_client_history(h.push(m)),
{
    let h2 = h.push(m);
    assert forall|i: int| 0 <= i < h2.len() && is_closing(#[trigger] h2[i]) implies i == h2.len()
        - 1 by {
        if i < h.len() {
            assert(h2[i] == h[i]);
        }
    }
}

proof fn lemma_wf_finished_push_closing(h: Seq<OutMsg>, m: OutMsg)
    requires
        finished_shape(h),
        is_closing(m),
    ensures
        wf_client_history(h.push(m)),
{
    let h2 = h.push(m);
    assert forall|i: int| 0 <= i < h2.len() && is_closing(#[trigger] h2[i]) implies i == h2.len()
        - 1 by {
        if i < h.len() {
            assert(h2[i] == h[i]);
        }
    }
    assert forall|i: int, j: int|
        0 <= i < h2.len() && 0 <= j < h2.len() && is_finish(#[trigger] h2[i]) && is_delta(
            #[trigger] h2[j],
        ) implies j < i by {
        assert(h2[j] == h[j]);
        if i < h.len() {
            assert(h2[i] == h[i]);
            if i < h.len() - 1 {
                assert(is_delta(h[i]));
            }
        }
    }
}

/// The client-bound messages among a sequence of actions, in order.
pub open spec fn send_of(a: ActionView) -> Seq<OutMsg> {
    match a {
        ActionView::Send(m) => seq![OutMsg::Item(m)],
        ActionView::SendEnd(id) => seq![OutMsg::End(id)],
        ActionView::SendError(e) => seq![OutMsg::Error(e)],
        _ => Seq::empty(),
    }
}

pub open spec fn sends_of(acts: Seq<ActionView>) -> Seq<OutMsg>
    decreases acts.len(),
{
    if acts.len() == 0 {
        Seq::empty()
    } else {
        sends_of(acts.drop_last()) + send_of(acts.last())
    }
}

proof fn lemma_sends_of_push(acts: Seq<ActionView>, a: ActionView)
    ensures
        sends_of(acts.push(a)) == sends_of(acts) + send_of(a),
{
    assert(acts.push(a).drop_last() =~= acts);
    assert(acts.push(a).last() == a);
}

/// What JSON-decoding the client's opening message yields: the question and
/// the optional anti-abuse token; a function of the message bytes alone.
pub uninterp spec fn user_request_of(bytes: Seq<u8>) -> Option<(Seq<char>, Option<Seq<char>>)>;

/// Relies on serde_json::from_slice and serde_json::Value::{get, as_str}:
/// decodes the client's opening message, an object with a string `question`
/// and an optional string `captcha_token`, a value determined by the
/// message bytes alone.
#[verifier::external_body]
fn parse_user_request(bytes: &[u8]) -> (r: Option<UserRequest>)
    ensures
        match r {
            None => user_request_of(bytes@) is None,
            Some(u) => user_request_of(bytes@) == Some((u.question@, u.captcha_token.deep_view())),
        },
{
    let v: serde_json::Value = serde_json::from_slice(bytes).ok()?;
    let question = v.get("question")?.as_str()?.to_string();
    let captcha_token = v.get("captcha_token").and_then(|t| t.as_str()).map(str::to_string);
    Some(UserRequest { question, captcha_token })
}

/// The messages relayed for a record sequence.  An unparseable record or an
/// explicit finish is terminal: it yields the final finish message and
/// nothing after it is relayed.  Role markers are dropped.
pub open spec fn relay_msgs(records: Seq<Seq<u8>>) -> Seq<StreamItemView>
    decreases records.len(),
{
    if records.len() == 0 {
        Seq::empty()
    } else {
        match translate_spec(event_fields_of(records[0])) {
            None => seq![StreamItemView::Finish(FinishReason::Unavailable)],
            Some(m) => match m {
                StreamItemView::Finish(r) => seq![StreamItemView::Finish(r)],
                StreamItemView::Delta(t) => seq![StreamItemView::Delta(t)] + relay_msgs(
                    records.skip(1),
                ),
                _ => relay_msgs(records.skip(1)),
            },
        }
    }
}

/// Whether a record sequence contains a terminal record: an unparseable one
/// or an explicit finish.
pub open spec fn relay_terminated(records: Seq<Seq<u8>>) -> bool
    decreases records.len(),
{
    if records.len() == 0 {
        false
    } else {
        match translate_spec(event_fields_of(records[0])) {
            None => true,
            Some(m) => match m {
                StreamItemView::Finish(r) => true,
                _ => relay_terminated(records.skip(1)),
            },
        }
    }
}

/// The concatenated text of the fragments among relayed messages.
pub open spec fn items_text(msgs: Seq<StreamItemView>) -> Seq<char>
    decreases msgs.len(),
{
    if msgs.len() == 0 {
        Seq::empty()
    } else {
        (match msgs[0] {
            StreamItemView::Delta(t) => t,
            _ => Seq::empty(),
        }) + items_text(msgs.skip(1))
    }
}

/// The mathematical state of a session.
pub struct SessionView {
    pub phase: Phase,
    pub secret: Seq<char>,
    pub remote_ip: Seq<char>,
    pub location: Seq<char>,
    pub prompt: Option<PromptView>,
    pub now: LocalDateTime,
    pub question: Seq<char>,
    pub answer: Seq<char>,
    pub buffered: Seq<u8>,
    pub history: Seq<OutMsg>,
}

/// The internal consistency of a session: the history obeys the client
/// ordering guarantee, the accumulated answer is exactly the text forwarded
/// so far, nothing has been sent before dispatch, the prompt template is
/// still at hand until it is consumed, and in mid-relay the history has the
/// streaming form.
pub open spec fn session_inv(s: SessionView) -> bool {
    &&& wf_client_history(s.history)
    &&& s.answer == deltas_text(s.history)
    &&& s.now.wf()
    &&& (s.phase == Phase::AwaitingRequest || s.phase == Phase::AwaitingVerification)
        ==> s.history == Seq::<OutMsg>::empty()
    &&& (s.phase == Phase::AwaitingRequest || s.phase == Phase::AwaitingVerification)
        ==> s.prompt is Some
    &&& (s.phase == Phase::AwaitingUpstream || s.phase == Phase::Streaming) ==> streaming_shape(
        s.history,
    )
}

/// One relay session.  The caller drives it by `step`; the machine owns the
/// accumulation buffer and the answer accumulator exclusively.
pub struct RelaySession {
    phase: Phase,
    secret: String,
    remote_ip: String,
    location: String,
    prompt: Option<Prompt>,
    now: LocalDateTime,
    question: String,
    answer: String,
    parser: ChatStreamParser,
    history: Ghost<Seq<OutMsg>>,
}

impl View for RelaySession {
    type V = SessionView;

    closed spec fn view(&self) -> SessionView {
        SessionView {
            phase: self.phase,
            secret: self.secret@,
            remote_ip: self.remote_ip@,
            location: self.location@,
            prompt: match self.prompt {
                None => None,
                Some(ref p) => Some(p@),
            },
            now: self.now,
            question: self.question@,
            answer: self.answer@,
            buffered: self.parser@,
            history: self.history@,
        }
    }
}

impl RelaySession {
    /// Open a session over one fresh connection.  `secret` is the verifier's
    /// shared secret, `remote_ip` and `location` describe the caller, and
    /// `now` is the local date and time at session start.
    pub fn new(
        secret: String,
        remote_ip: String,
        location: String,
        prompt: Prompt,
        now: LocalDateTime,
    ) -> (s: RelaySession)
        requires
            now.wf(),
        ensures
            s@ == (SessionView {
                phase: Phase::AwaitingRequest,
                secret: secret@,
                remote_ip: remote_ip@,
                location: location@,
                prompt: Some(prompt@),
                now,
                question: Seq::<char>::empty(),
                answer: Seq::<char>::empty(),
                buffered: Seq::<u8>::empty(),
                history: Seq::<OutMsg>::empty(),
            }),
            session_inv(s@),
    {
        let s = RelaySession {
            phase: Phase::AwaitingRequest,
            secret,
            remote_ip,
            location,
            prompt: Some(prompt),
            now,
            question: String::new(),
            answer: String::new(),
            parser: ChatStreamParser::new(),
            history: Ghost(Seq::empty()),
        };
        s
    }
}

proof fn lemma_sends_of_singleton(a: ActionView)
    ensures
        sends_of(seq![a]) == send_of(a),
{
    assert(seq![a].drop_last() =~= Seq::<ActionView>::empty());
    assert(seq![a].last() == a);
    assert(sends_of(Seq::<ActionView>::empty()) == Seq::<OutMsg>::empty());
    assert(Seq::<OutMsg>::empty() + send_of(a) =~= send_of(a));
}

proof fn lemma_sends_of_concat(x: Seq<ActionView>, y: Seq<ActionView>)
    ensures
        sends_of(x + y) == sends_of(x) + sends_of(y),
    decreases y.len(),
{
    if y.len() == 0 {
        assert(x + y =~= x);
        assert(sends_of(y) == Seq::<OutMsg>::empty());
        assert(sends_of(x) + Seq::<OutMsg>::empty() =~= sends_of(x));
    } else {
        lemma_sends_of_concat(x, y.drop_last());
        assert((x + y).drop_last() =~= x + y.drop_last());
        assert((x + y).last() == y.last());
        assert(sends_of(x) + (sends_of(y.drop_last()) + send_of(y.last())) =~= (sends_of(x)
            + sends_of(y.drop_last())) + send_of(y.last()));
    }
}

proof fn lemma_sends_of_map_send(msgs: Seq<StreamItemView>)
    ensures
        sends_of(msgs.map_values(|m: StreamItemView| ActionView::Send(m))) == msgs.map_values(
            |m: StreamItemView| OutMsg::Item(m),
        ),
    decreases msgs.len(),
{
    let f = |m: StreamItemView| ActionView::Send(m);
    let g = |m: StreamItemView| OutMsg::Item(m);
    if msgs.len() == 0 {
        assert(msgs.map_values(f) =~= Seq::<ActionView>::empty());
        assert(msgs.map_values(g) =~= Seq::<OutMsg>::empty());
    } else {
        let m0 = msgs.drop_last();
        lemma_sends_of_map_send(m0);
        assert(msgs.map_values(f) =~= m0.map_values(f).push(ActionView::Send(msgs.last())));
        lemma_sends_of_push(m0.map_values(f), ActionView::Send(msgs.last()));
        assert(m0.map_values(g) + send_of(ActionView::Send(msgs.last())) =~= msgs.map_values(g));
    }
}

impl RelaySession {
    /// Generate the session identifier, build the transcript record, and
    /// close the session: the record is handed to the log store and the
    /// completion message carrying the same identifier goes to the client,
    /// in that order and last.
    fn push_completion(&mut self, acts: &mut Vec<SessionAction>) -> (t: Ghost<TranscriptView>)
        ensures
            t@.question == old(self)@.question,
            t@.response == old(self)@.answer,
            t@.remote_ip == old(self)@.remote_ip,
            t@.location == old(self)@.location,
            t@.id.len() == 47,
            final(acts).deep_view() == old(acts).deep_view() + seq![
                ActionView::Record(t@),
                ActionView::SendEnd(t@.id),
            ],
            final(self)@ == (SessionView {
                phase: Phase::Done,
                history: old(self)@.history.push(OutMsg::End(t@.id)),
                ..old(self)@
            }),
    {
        let id = crate::id::make_id();
        let ts = crate::id::get_utc_timestamp_sec();
        let record = TranscriptRecord::new(
            id.clone(),
            self.question.clone(),
            self.answer.clone(),
            self.remote_ip.clone(),
            self.location.clone(),
            ts,
        );
        let ghost t = record@;
        let ghost acts0 = acts.deep_view();
        acts.push(SessionAction::Record(record));
        acts.push(SessionAction::SendEnd(EndMessage { id }));
        self.phase = Phase::Done;
        proof {
            self.history@ = self.history@.push(OutMsg::End(t.id));
            assert(acts.deep_view() =~= acts0 + seq![
                ActionView::Record(t),
                ActionView::SendEnd(t.id),
            ]);
        }
        Ghost(t)
    }

    /// Extract, translate and relay every complete record now buffered,
    /// stopping at the first terminal record.  Fragments are forwarded and
    /// accumulated; role markers are dropped; a finish classification or an
    /// unparseable record yields the final finish message and ends the
    /// relay.
    fn relay_buffered(&mut self, acts: &mut Vec<SessionAction>) -> (terminated: bool)
        requires
            old(self)@.phase == Phase::Streaming,
            streaming_shape(old(self)@.history),
            old(self)@.answer == deltas_text(old(self)@.history),
        ensures
            ({
                let msgs = relay_msgs(records_of(old(self)@.buffered));
                &&& final(acts).deep_view() == old(acts).deep_view() + msgs.map_values(
                    |m: StreamItemView| ActionView::Send(m),
                )
                &&& final(self)@.history == old(self)@.history + msgs.map_values(
                    |m: StreamItemView| OutMsg::Item(m),
                )
                &&& final(self)@.answer == old(self)@.answer + items_text(msgs)
                &&& terminated == relay_terminated(records_of(old(self)@.buffered))
                &&& (!terminated ==> final(self)@.buffered == leftover(old(self)@.buffered)
                    && streaming_shape(final(self)@.history))
                &&& (terminated ==> finished_shape(final(self)@.history))
                &&& final(self)@.answer == deltas_text(final(self)@.history)
                &&& final(self)@ == (SessionView {
                    answer: final(self)@.answer,
                    buffered: final(self)@.buffered,
                    history: final(self)@.history,
                    ..old(self)@
                })
            }),
        decreases old(self)@.buffered.len(),
    {
        let ghost b0 = self.parser@;
        let ghost send_map = |m: StreamItemView| ActionView::Send(m);
        let ghost item_map = |m: StreamItemView| OutMsg::Item(m);
        let rec_opt = self.parser.next_record();
        let rec = match rec_opt {
            None => {
                proof {
                    let msgs = relay_msgs(records_of(b0));
                    assert(records_of(b0) == Seq::<Seq<u8>>::empty());
                    assert(msgs == Seq::<StreamItemView>::empty());
                    assert(msgs.map_values(send_map) =~= Seq::<ActionView>::empty());
                    assert(msgs.map_values(item_map) =~= Seq::<OutMsg>::empty());
                    assert(acts.deep_view() + msgs.map_values(send_map) =~= acts.deep_view());
                    assert(self.history@ + msgs.map_values(item_map) =~= self.history@);
                    assert(self.answer@ + items_text(msgs) =~= self.answer@);
                    assert(leftover(b0) == b0);
                }
                return false;
            },
            Some(rec) => rec,
        };
        let ghost b1 = self.parser@;
        let ghost rv = rec@;
        proof {
            assert(records_of(b0) == seq![rv] + records_of(b1));
            assert((seq![rv] + records_of(b1))[0] == rv);
            assert((seq![rv] + records_of(b1)).skip(1) =~= records_of(b1));
            crate::stream_parser::lemma_step_bounds(b0);
        }
        let item = StreamItem::from_json_bytes(rec.as_slice());
        match item {
            None => {
                let ghost h0 = self.history@;
                let ghost acts0 = acts.deep_view();
                acts.push(SessionAction::Send(StreamItem::Finish(FinishReason::Unavailable)));
                proof {
                    self.history@ = h0.push(
                        OutMsg::Item(StreamItemView::Finish(FinishReason::Unavailable)),
                    );
                    let msgs = relay_msgs(records_of(b0));
                    assert(msgs == seq![StreamItemView::Finish(FinishReason::Unavailable)]);
                    assert(acts.deep_view() =~= acts0 + msgs.map_values(send_map));
                    assert(self.history@ =~= h0 + msgs.map_values(item_map));
                    assert(msgs.skip(1) =~= Seq::<StreamItemView>::empty());
                    assert(items_text(msgs) == Seq::<char>::empty() + items_text(msgs.skip(1)));
                    assert(self.answer@ + items_text(msgs) =~= self.answer@);
                    lemma_streaming_push_finish(h0, FinishReason::Unavailable);
                    lemma_deltas_text_push(
                        h0,
                        OutMsg::Item(StreamItemView::Finish(FinishReason::Unavailable)),
                    );
                    assert(deltas_text(self.history@) =~= self.answer@);
                }
                true
            },
            Some(StreamItem::Finish(reason)) => {
                let ghost h0 = self.history@;
                let ghost acts0 = acts.deep_view();
                acts.push(SessionAction::Send(StreamItem::Finish(reason)));
                proof {
                    self.history@ = h0.push(OutMsg::Item(StreamItemView::Finish(reason)));
                    let msgs = relay_msgs(records_of(b0));
                    assert(msgs == seq![StreamItemView::Finish(reason)]);
                    assert(acts.deep_view() =~= acts0 + msgs.map_values(send_map));
                    assert(self.history@ =~= h0 + msgs.map_values(item_map));
                    assert(msgs.skip(1) =~= Seq::<StreamItemView>::empty());
                    assert(items_text(msgs) == Seq::<char>::empty() + items_text(msgs.skip(1)));
                    assert(self.answer@ + items_text(msgs) =~= self.answer@);
                    lemma_streaming_push_finish(h0, reason);
                    lemma_deltas_text_push(h0, OutMsg::Item(StreamItemView::Finish(reason)));
                    assert(deltas_text(self.history@) =~= self.answer@);
                }
                true
            },
            Some(StreamItem::Delta(t)) => {
                let ghost tv = t@;
                let ghost h0 = self.history@;
                let ghost a0 = self.answer@;
                let ghost acts0 = acts.deep_view();
                self.answer.append(t.as_str());
                acts.push(SessionAction::Send(StreamItem::Delta(t)));
                proof {
                    self.history@ = h0.push(OutMsg::Item(StreamItemView::Delta(tv)));
                    lemma_streaming_push_delta(h0, tv);
                    lemma_deltas_text_push(h0, OutMsg::Item(StreamItemView::Delta(tv)));
                }
                let terminated = self.relay_buffered(acts);
                proof {
                    let msgs = relay_msgs(records_of(b0));
                    let msgs1 = relay_msgs(records_of(b1));
                    assert(msgs == seq![StreamItemView::Delta(tv)] + msgs1);
                    assert(msgs[0] == StreamItemView::Delta(tv));
                    assert(msgs.skip(1) =~= msgs1);
                    assert(items_text(msgs) == tv + items_text(msgs1));
                    assert(msgs.map_values(send_map) =~= seq![
                        ActionView::Send(StreamItemView::Delta(tv)),
                    ] + msgs1.map_values(send_map));
                    assert(msgs.map_values(item_map) =~= seq![
                        OutMsg::Item(StreamItemView::Delta(tv)),
                    ] + msgs1.map_values(item_map));
                    assert(acts.deep_view() =~= acts0 + msgs.map_values(send_map)) by {
                        assert(acts.deep_view() == (acts0.push(
                            ActionView::Send(StreamItemView::Delta(tv)),
                        )) + msgs1.map_values(send_map));
                        assert((acts0.push(ActionView::Send(StreamItemView::Delta(tv))))
                            + msgs1.map_values(send_map) =~= acts0 + msgs.map_values(send_map));
                    }
                    assert(self.history@ =~= h0 + msgs.map_values(item_map)) by {
                        assert(self.history@ == (h0.push(OutMsg::Item(StreamItemView::Delta(tv))))
                            + msgs1.map_values(item_map));
                        assert((h0.push(OutMsg::Item(StreamItemView::Delta(tv))))
                            + msgs1.map_values(item_map) =~= h0 + msgs.map_values(item_map));
                    }
                    assert(self.answer@ =~= a0 + items_text(msgs)) by {
                        assert(self.answer@ == (a0 + tv) + items_text(msgs1));
                        assert((a0 + tv) + items_text(msgs1) =~= a0 + (tv + items_text(msgs1)));
                    }
                }
                terminated
            },
            Some(StreamItem::RoleMsg) => {
                let terminated = self.relay_buffered(acts);
                proof {
                    assert(relay_msgs(records_of(b0)) == relay_msgs(records_of(b1)));
                }
                terminated
            },
            Some(StreamItem::Start(_)) => {
                let terminated = self.relay_buffered(acts);
                proof {
                    assert(relay_msgs(records_of(b0)) == relay_msgs(records_of(b1)));
                }
                terminated
            },
        }
    }

    /// Abort the session: the error is reported to the client as the one
    /// closing message, and no transcript is written.
    fn abort(&mut self, e: Error) -> (r: Vec<SessionAction>)
        requires
            wf_client_history(old(self)@.history),
            old(self)@.answer == deltas_text(old(self)@.history),
            old(self)@.history == Seq::<OutMsg>::empty() || streaming_shape(old(self)@.history),
        ensures
            final(self)@ == (SessionView {
                phase: Phase::Done,
                history: old(self)@.history + seq![OutMsg::Error(e@)],
                ..old(self)@
            }),
            r.deep_view() == seq![ActionView::SendError(e@)],
            sends_of(r.deep_view()) == seq![OutMsg::Error(e@)],
            wf_client_history(final(self)@.history),
            final(self)@.answer == deltas_text(final(self)@.history),
    {
        let ghost h0 = self.history@;
        let ghost evw = e@;
        let mut acts: Vec<SessionAction> = Vec::new();
        acts.push(SessionAction::SendError(e));
        self.phase = Phase::Done;
        proof {
            self.history@ = h0 + seq![OutMsg::Error(evw)];
            assert(acts.deep_view() =~= seq![ActionView::SendError(evw)]);
            lemma_sends_of_singleton(ActionView::SendError(evw));
            assert(h0.push(OutMsg::Error(evw)) =~= h0 + seq![OutMsg::Error(evw)]);
            lemma_deltas_text_push(h0, OutMsg::Error(evw));
            let h2 = h0 + seq![OutMsg::Error(evw)];
            if h0.len() == 0 {
                assert(h2.len() == 1 && h2[0] == OutMsg::Error(evw));
                assert(wf_client_history(h2));
            } else {
                lemma_wf_streaming_push_closing(h0, OutMsg::Error(evw));
            }
            assert(self.answer@ + Seq::<char>::empty() =~= self.answer@);
        }
        acts
    }
}

/// The transcript a completing session owes: its question, its accumulated
/// answer, its caller metadata, and a fresh date-prefixed identifier.
pub open spec fn transcript_matches(s: SessionView, t: TranscriptView) -> bool {
    &&& t.question == s.question
    &&& t.response == s.answer
    &&& t.remote_ip == s.remote_ip
    &&& t.location == s.location
    &&& t.id.len() == 47
}

impl RelaySession {
    /// Advance the session by one observed event and say what to do next.
    /// Events that cannot occur in the current phase are ignored.
    ///
    /// Beyond the exact per-case behaviour below, every step preserves the
    /// session invariant — in particular the client ordering guarantee
    /// `wf_client_history` — and extends the message history by exactly the
    /// client-bound actions returned, in order.
    pub fn step(&mut self, ev: SessionEvent) -> (r: Vec<SessionAction>)
        requires
            session_inv(old(self)@),
        ensures
            session_inv(final(self)@),
            final(self)@.history == old(self)@.history + sends_of(r.deep_view()),
            final(self)@.secret == old(self)@.secret,
            final(self)@.remote_ip == old(self)@.remote_ip,
            final(self)@.location == old(self)@.location,
            final(self)@.now == old(self)@.now,
            ({
                let s0 = old(self)@;
                let s1 = final(self)@;
                match ev {
                    SessionEvent::Message(b) => if s0.phase != Phase::AwaitingRequest {
                        s1 == s0 && r@.len() == 0
                    } else {
                        match user_request_of(b@) {
                            None => {
                                &&& s1 == (SessionView {
                                    phase: Phase::Done,
                                    history: s1.history,
                                    ..s0
                                })
                                &&& r.deep_view() == seq![
                                    ActionView::SendError(
                                        ErrorView::InvalidRequest("malformed request"@),
                                    ),
                                ]
                            },
                            Some(u) => match u.1 {
                                None => {
                                    &&& s1 == (SessionView {
                                        phase: Phase::Done,
                                        history: s1.history,
                                        ..s0
                                    })
                                    &&& r.deep_view() == seq![
                                        ActionView::SendError(
                                            ErrorView::InvalidRequest("captcha token is missing"@),
                                        ),
                                    ]
                                },
                                Some(tok) => {
                                    &&& s1 == (SessionView {
                                        phase: Phase::AwaitingVerification,
                                        question: u.0,
                                        ..s0
                                    })
                                    &&& r.deep_view() == seq![
                                        ActionView::CallVerifier(
                                            form_body_spec(
                                                encode_utf8(s0.secret),
                                                encode_utf8(tok),
                                                encode_utf8(s0.remote_ip),
                                            ),
                                        ),
                                    ]
                                },
                            },
                        }
                    },
                    SessionEvent::Closed => if s0.phase == Phase::Done {
                        s1 == s0 && r@.len() == 0
                    } else if s0.phase == Phase::Streaming && s0.answer.len() > 0 {
                        &&& s1 == (SessionView { phase: Phase::Done, ..s0 })
                        &&& exists|t: TranscriptView|
                            transcript_matches(s0, t) && r.deep_view() == seq![
                                ActionView::Record(t),
                            ]
                    } else {
                        s1 == (SessionView { phase: Phase::Done, ..s0 }) && r@.len() == 0
                    },
                    SessionEvent::VerifierResponse(b) => if s0.phase
                        != Phase::AwaitingVerification {
                        s1 == s0 && r@.len() == 0
                    } else {
                        match captcha_fields_of(b@) {
                            None => {
                                &&& s1 == (SessionView {
                                    phase: Phase::Done,
                                    history: s1.history,
                                    ..s0
                                })
                                &&& r.deep_view() == seq![
                                    ActionView::SendError(
                                        ErrorView::InternalError(
                                            "captcha verifier response unreadable"@,
                                        ),
                                    ),
                                ]
                            },
                            Some(p) => if !p.0 {
                                &&& s1 == (SessionView {
                                    phase: Phase::Done,
                                    history: s1.history,
                                    ..s0
                                })
                                &&& r.deep_view() == seq![
                                    ActionView::SendError(ErrorView::Forbidden(p.1)),
                                ]
                            } else {
                                match spec_build_request(
                                    s0.prompt.unwrap(),
                                    s0.question,
                                    s0.now,
                                ) {
                                    Err(e) => {
                                        &&& s1 == (SessionView {
                                            phase: Phase::Done,
                                            history: s1.history,
                                            prompt: None,
                                            ..s0
                                        })
                                        &&& r.deep_view() == seq![ActionView::SendError(e)]
                                    },
                                    Ok(req) => {
                                        &&& s1 == (SessionView {
                                            phase: Phase::AwaitingUpstream,
                                            history: s1.history,
                                            prompt: None,
                                            ..s0
                                        })
                                        &&& r.deep_view() == seq![
                                            ActionView::Send(StreamItemView::Start(req.max_tokens)),
                                            ActionView::SendUpstream(req),
                                        ]
                                    },
                                }
                            },
                        }
                    },
                    SessionEvent::VerifierUnreachable => if s0.phase
                        != Phase::AwaitingVerification {
                        s1 == s0 && r@.len() == 0
                    } else {
                        &&& s1 == (SessionView { phase: Phase::Done, history: s1.history, ..s0 })
                        &&& r.deep_view() == seq![
                            ActionView::SendError(
                                ErrorView::InternalError("captcha verifier unreachable"@),
                            ),
                        ]
                    },
                    SessionEvent::UpstreamAccepted => if s0.phase != Phase::AwaitingUpstream {
                        s1 == s0 && r@.len() == 0
                    } else {
                        s1 == (SessionView { phase: Phase::Streaming, ..s0 }) && r@.len() == 0
                    },
                    SessionEvent::UpstreamRefused(status, body) => if s0.phase
                        != Phase::AwaitingUpstream {
                        s1 == s0 && r@.len() == 0
                    } else {
                        &&& s1 == (SessionView { phase: Phase::Done, history: s1.history, ..s0 })
                        &&& r.deep_view() == seq![
                            ActionView::SendError(ErrorView::OpenAIError(status, body@)),
                        ]
                    },
                    SessionEvent::Chunk(c) => if s0.phase != Phase::Streaming {
                        s1 == s0 && r@.len() == 0
                    } else {
                        let appended = s0.buffered + c@;
                        let msgs = relay_msgs(records_of(appended));
                        &&& s1.question == s0.question
                        &&& s1.answer == s0.answer + items_text(msgs)
                        &&& if relay_terminated(records_of(appended)) {
                            &&& s1.phase == Phase::Done
                            &&& exists|t: TranscriptView|
                                transcript_matches(s1, t) && r.deep_view() == msgs.map_values(
                                    |m: StreamItemView| ActionView::Send(m),
                                ) + seq![ActionView::Record(t), ActionView::SendEnd(t.id)]
                        } else {
                            &&& s1 == (SessionView {
                                answer: s1.answer,
                                buffered: leftover(appended),
                                history: s1.history,
                                ..s0
                            })
                            &&& r.deep_view() == msgs.map_values(
                                |m: StreamItemView| ActionView::Send(m),
                            )
                        }
                    },
                    SessionEvent::StreamEnd => if s0.phase != Phase::Streaming {
                        s1 == s0 && r@.len() == 0
                    } else {
                        &&& s1.phase == Phase::Done
                        &&& s1.question == s0.question
                        &&& s1.answer == s0.answer
                        &&& exists|t: TranscriptView|
                            transcript_matches(s1, t) && r.deep_view() == seq![
                                ActionView::Record(t),
                                ActionView::SendEnd(t.id),
                            ]
                    },
                    SessionEvent::StreamFailed => if s0.phase != Phase::Streaming {
                        s1 == s0 && r@.len() == 0
                    } else {
                        &&& s1.phase == Phase::Done
                        &&& s1.question == s0.question
                        &&& s1.answer == s0.answer
                        &&& exists|t: TranscriptView|
                            transcript_matches(s1, t) && r.deep_view() == seq![
                                ActionView::Send(StreamItemView::Finish(FinishReason::Unavailable)),
                                ActionView::Record(t),
                                ActionView::SendEnd(t.id),
                            ]
                    },
                }
            }),
    {
        let ph = self.phase;
        match (ph, ev) {
            (Phase::AwaitingRequest, SessionEvent::Message(b)) => {
                match parse_user_request(b.as_slice()) {
                    None => {
                        let r = self.abort(
                            Error::InvalidRequest(String::from_str("malformed request")),
                        );
                        proof {
                            assert(self.history@ =~= old(self)@.history + sends_of(r.deep_view()));
                        }
                        r
                    },
                    Some(u) => {
                        match u.captcha_token {
                            None => {
                                let r = self.abort(
                                    Error::InvalidRequest(
                                        String::from_str("captcha token is missing"),
                                    ),
                                );
                                proof {
                                    assert(self.history@ =~= old(self)@.history + sends_of(
                                        r.deep_view(),
                                    ));
                                }
                                r
                            },
                            Some(tok) => {
                                self.question = u.question;
                                self.phase = Phase::AwaitingVerification;
                                let body = captcha_form_body(
                                    self.secret.as_str(),
                                    tok.as_str(),
                                    self.remote_ip.as_str(),
                                );
                                let mut acts: Vec<SessionAction> = Vec::new();
                                acts.push(SessionAction::CallVerifier(body));
                                proof {
                                    assert(acts.deep_view() =~= seq![
                                        ActionView::CallVerifier(
                                            form_body_spec(
                                                encode_utf8(old(self)@.secret),
                                                encode_utf8(tok@),
                                                encode_utf8(old(self)@.remote_ip),
                                            ),
                                        ),
                                    ]);
                                    lemma_sends_of_singleton(acts.deep_view()[0]);
                                    assert(self.history@ + sends_of(acts.deep_view())
                                        =~= self.history@);
                                }
                                acts
                            },
                        }
                    },
                }
            },
            (Phase::AwaitingVerification, SessionEvent::VerifierResponse(b)) => {
                match parse_captcha_response(b.as_slice()) {
                    None => {
                        let r = self.abort(
                            Error::InternalError(
                                String::from_str("captcha verifier response unreadable"),
                            ),
                        );
                        proof {
                            assert(self.history@ =~= old(self)@.history + sends_of(r.deep_view()));
                        }
                        r
                    },
                    Some((success, codes)) => {
                        if !success {
                            let r = self.abort(Error::Forbidden(codes));
                            proof {
                                assert(self.history@ =~= old(self)@.history + sends_of(
                                    r.deep_view(),
                                ));
                            }
                            r
                        } else {
                            let prompt_opt = self.prompt.take();
                            let prompt = match prompt_opt {
                                Some(p) => p,
                                None => {
                                    // Unreachable: the invariant keeps the template
                                    // at hand until dispatch consumes it.
                                    let r = self.abort(
                                        Error::InternalError(
                                            String::from_str("prompt template missing"),
                                        ),
                                    );
                                    proof {
                                        assert(false);
                                    }
                                    return r;
                                },
                            };
                            let question = self.question.clone();
                            let now = self.now;
                            match RequestToOpenAI::new(prompt, question, &now) {
                                Err(e) => {
                                    let r = self.abort(e);
                                    proof {
                                        assert(self.history@ =~= old(self)@.history + sends_of(
                                            r.deep_view(),
                                        ));
                                    }
                                    r
                                },
                                Ok(req) => {
                                    let ghost reqv = req@;
                                    let budget = req.max_tokens;
                                    let mut acts: Vec<SessionAction> = Vec::new();
                                    acts.push(SessionAction::Send(StreamItem::Start(budget)));
                                    acts.push(SessionAction::SendUpstream(req));
                                    self.phase = Phase::AwaitingUpstream;
                                    proof {
                                        let ghost start = OutMsg::Item(
                                            StreamItemView::Start(reqv.max_tokens),
                                        );
                                        self.history@ = self.history@ + seq![start];
                                        assert(acts.deep_view() =~= seq![
                                            ActionView::Send(StreamItemView::Start(reqv.max_tokens)),
                                            ActionView::SendUpstream(reqv),
                                        ]);
                                        assert(acts.deep_view().drop_last() =~= seq![
                                            ActionView::Send(StreamItemView::Start(reqv.max_tokens)),
                                        ]);
                                        lemma_sends_of_singleton(
                                            ActionView::Send(StreamItemView::Start(reqv.max_tokens)),
                                        );
                                        assert(sends_of(acts.deep_view()) =~= seq![start]);
                                        assert(streaming_shape(self.history@));
                                        lemma_wf_streaming(self.history@);
                                        lemma_deltas_text_push(old(self)@.history, start);
                                        assert(old(self)@.history.push(start)
                                            =~= old(self)@.history + seq![start]);
                                        assert(self.answer@ + Seq::<char>::empty()
                                            =~= self.answer@);
                                    }
                                    acts
                                },
                            }
                        }
                    },
                }
            },
            (Phase::AwaitingVerification, SessionEvent::VerifierUnreachable) => {
                let r = self.abort(
                    Error::InternalError(String::from_str("captcha verifier unreachable")),
                );
                proof {
                    assert(self.history@ =~= old(self)@.history + sends_of(r.deep_view()));
                }
                r
            },
            (Phase::AwaitingUpstream, SessionEvent::UpstreamAccepted) => {
                self.phase = Phase::Streaming;
                let acts: Vec<SessionAction> = Vec::new();
                proof {
                    assert(acts.deep_view() =~= Seq::<ActionView>::empty());
                    assert(self.history@ + sends_of(acts.deep_view()) =~= self.history@);
                }
                acts
            },
            (Phase::AwaitingUpstream, SessionEvent::UpstreamRefused(status, body)) => {
                let r = self.abort(Error::OpenAIError(status, body));
                proof {
                    assert(self.history@ =~= old(self)@.history + sends_of(r.deep_view()));
                }
                r
            },
            (Phase::Streaming, SessionEvent::Chunk(c)) => {
                self.parser.add_chunk(c.as_slice());
                let ghost appended = self.parser@;
                let ghost msgs = relay_msgs(records_of(appended));
                let ghost send_map = |m: StreamItemView| ActionView::Send(m);
                let ghost item_map = |m: StreamItemView| OutMsg::Item(m);
                let mut acts: Vec<SessionAction> = Vec::new();
                let terminated = self.relay_buffered(&mut acts);
                proof {
                    assert(acts.deep_view() =~= msgs.map_values(send_map));
                    lemma_sends_of_map_send(msgs);
                }
                if terminated {
                    let ghost hmid = self.history@;
                    let ghost acts_mid = acts.deep_view();
                    let t = self.push_completion(&mut acts);
                    proof {
                        lemma_wf_finished_push_closing(hmid, OutMsg::End(t@.id));
                        lemma_deltas_text_push(hmid, OutMsg::End(t@.id));
                        lemma_sends_of_concat(acts_mid, seq![
                            ActionView::Record(t@),
                            ActionView::SendEnd(t@.id),
                        ]);
                        assert(seq![ActionView::Record(t@), ActionView::SendEnd(t@.id)].drop_last()
                            =~= seq![ActionView::Record(t@)]);
                        lemma_sends_of_singleton(ActionView::Record(t@));
                        assert(sends_of(seq![
                            ActionView::Record(t@),
                            ActionView::SendEnd(t@.id),
                        ]) =~= seq![OutMsg::End(t@.id)]);
                        assert(self.history@ =~= old(self)@.history + sends_of(acts.deep_view()))
                            by {
                            assert(self.history@ == (old(self)@.history + msgs.map_values(item_map)
                            ).push(OutMsg::End(t@.id)));
                            assert(sends_of(acts.deep_view()) =~= msgs.map_values(item_map) + seq![
                                OutMsg::End(t@.id),
                            ]);
                        }
                        assert(self.answer@ =~= deltas_text(self.history@));
                        assert(transcript_matches(self@, t@));
                        assert(r_deep_terminated(acts.deep_view(), msgs, t@)) by {
                            assert(acts.deep_view() == acts_mid + seq![
                                ActionView::Record(t@),
                                ActionView::SendEnd(t@.id),
                            ]);
                        }
                    }
                    acts
                } else {
                    proof {
                        lemma_wf_streaming(self.history@);
                    }
                    acts
                }
            },
            (Phase::Streaming, SessionEvent::StreamEnd) => {
                let ghost h0 = self.history@;
                let mut acts: Vec<SessionAction> = Vec::new();
                let t = self.push_completion(&mut acts);
                proof {
                    lemma_wf_streaming_push_closing(h0, OutMsg::End(t@.id));
                    lemma_deltas_text_push(h0, OutMsg::End(t@.id));
                    assert(acts.deep_view() =~= seq![
                        ActionView::Record(t@),
                        ActionView::SendEnd(t@.id),
                    ]);
                    assert(acts.deep_view().drop_last() =~= seq![ActionView::Record(t@)]);
                    lemma_sends_of_singleton(ActionView::Record(t@));
                    assert(sends_of(acts.deep_view()) =~= seq![OutMsg::End(t@.id)]);
                    assert(self.history@ =~= old(self)@.history + sends_of(acts.deep_view()));
                    assert(self.answer@ =~= deltas_text(self.history@));
                    assert(transcript_matches(self@, t@));
                }
                acts
            },
            (Phase::Streaming, SessionEvent::StreamFailed) => {
                let ghost h0 = self.history@;
                let mut acts: Vec<SessionAction> = Vec::new();
                acts.push(SessionAction::Send(StreamItem::Finish(FinishReason::Unavailable)));
                proof {
                    self.history@ = h0.push(
                        OutMsg::Item(StreamItemView::Finish(FinishReason::Unavailable)),
                    );
                    lemma_streaming_push_finish(h0, FinishReason::Unavailable);
                    lemma_deltas_text_push(
                        h0,
                        OutMsg::Item(StreamItemView::Finish(FinishReason::Unavailable)),
                    );
                }
                let ghost hmid = self.history@;
                let t = self.push_completion(&mut acts);
                proof {
                    lemma_wf_finished_push_closing(hmid, OutMsg::End(t@.id));
                    lemma_deltas_text_push(hmid, OutMsg::End(t@.id));
                    assert(acts.deep_view() =~= seq![
                        ActionView::Send(StreamItemView::Finish(FinishReason::Unavailable)),
                        ActionView::Record(t@),
                        ActionView::SendEnd(t@.id),
                    ]);
                    assert(acts.deep_view().drop_last() =~= seq![
                        ActionView::Send(StreamItemView::Finish(FinishReason::Unavailable)),
                        ActionView::Record(t@),
                    ]);
                    assert(acts.deep_view().drop_last().drop_last() =~= seq![
                        ActionView::Send(StreamItemView::Finish(FinishReason::Unavailable)),
                    ]);
                    lemma_sends_of_singleton(
                        ActionView::Send(StreamItemView::Finish(FinishReason::Unavailable)),
                    );
                    assert(sends_of(acts.deep_view().drop_last()) =~= seq![
                        OutMsg::Item(StreamItemView::Finish(FinishReason::Unavailable)),
                    ]);
                    assert(sends_of(acts.deep_view()) =~= seq![
                        OutMsg::Item(StreamItemView::Finish(FinishReason::Unavailable)),
                        OutMsg::End(t@.id),
                    ]);
                    assert(self.history@ =~= old(self)@.history + sends_of(acts.deep_view()));
                    assert(self.answer@ =~= deltas_text(self.history@));
                    assert(transcript_matches(self@, t@));
                }
                acts
            },
            (Phase::Streaming, SessionEvent::Closed) => {
                let mut acts: Vec<SessionAction> = Vec::new();
                let has_text = self.answer.as_str().unicode_len() > 0;
                if has_text {
                    let id = crate::id::make_id();
                    let ts = crate::id::get_utc_timestamp_sec();
                    let record = TranscriptRecord::new(
                        id,
                        self.question.clone(),
                        self.answer.clone(),
                        self.remote_ip.clone(),
                        self.location.clone(),
                        ts,
                    );
                    let ghost t = record@;
                    acts.push(SessionAction::Record(record));
                    proof {
                        assert(acts.deep_view() =~= seq![ActionView::Record(t)]);
                        lemma_sends_of_singleton(ActionView::Record(t));
                        assert(transcript_matches(old(self)@, t));
                    }
                }
                self.phase = Phase::Done;
                proof {
                    assert(sends_of(acts.deep_view()) =~= Seq::<OutMsg>::empty());
                    assert(self.history@ + sends_of(acts.deep_view()) =~= self.history@);
                }
                acts
            },
            (Phase::AwaitingRequest, SessionEvent::Closed)
            | (Phase::AwaitingVerification, SessionEvent::Closed)
            | (Phase::AwaitingUpstream, SessionEvent::Closed) => {
                self.phase = Phase::Done;
                let acts: Vec<SessionAction> = Vec::new();
                proof {
                    assert(acts.deep_view() =~= Seq::<ActionView>::empty());
                    assert(self.history@ + sends_of(acts.deep_view()) =~= self.history@);
                }
                acts
            },
            (_, _) => {
                let acts: Vec<SessionAction> = Vec::new();
                proof {
                    assert(acts.deep_view() =~= Seq::<ActionView>::empty());
                    assert(self.history@ + sends_of(acts.deep_view()) =~= self.history@);
                }
                acts
            },
        }
    }
}

/// The action sequence of a terminated relay step: the relayed messages,
/// then the transcript write and the completion message.
spec fn r_deep_terminated(
    acts: Seq<ActionView>,
    msgs: Seq<StreamItemView>,
    t: TranscriptView,
) -> bool {
    acts == msgs.map_values(|m: StreamItemView| ActionView::Send(m)) + seq![
        ActionView::Record(t),
        ActionView::SendEnd(t.id),
    ]
}

} // verus!
