//! Reassembly of discrete upstream event records out of an arbitrarily
//! fragmented byte stream, and translation of each record into a typed relay
//! message.
//!
//! A record is framed as the literal prefix `data:` followed by a payload and
//! a line-feed terminator; the payload is kept with surrounding ASCII
//! whitespace trimmed.  The parser holds one growable byte buffer into which
//! every arriving byte goes unchanged; chunk boundaries may fall anywhere,
//! including inside the prefix, inside a multi-byte character of the payload,
//! or inside the terminator, without affecting which records come out.

use vstd::prelude::*;
use vstd::string::StringSliceAdditionalSpecFns;

use crate::search::{
    find_first, lemma_find_first_append, lemma_find_first_complete, lemma_find_first_props,
    matches_at,
};

verus! {

/// ASCII whitespace, the byte analogue of what payload trimming removes:
/// HT, LF, VT, FF, CR and the space character.
pub open spec fn is_ws(b: u8) -> bool {
    b == 0x20 || (0x09 <= b && b <= 0x0d)
}

pub open spec fn trim_start_spec(s: Seq<u8>) -> Seq<u8>
    decreases s.len(),
{
    if s.len() > 0 && is_ws(s[0]) {
        trim_start_spec(s.skip(1))
    } else {
        s
    }
}

pub open spec fn trim_end_spec(s: Seq<u8>) -> Seq<u8>
    decreases s.len(),
{
    if s.len() > 0 && is_ws(s.last()) {
        trim_end_spec(s.drop_last())
    } else {
        s
    }
}

/// The payload of a record with leading and trailing ASCII whitespace
/// removed.  Trimming is deliberately byte-level and ASCII-only: the framing
/// around a payload is ASCII (the prefix, a space, the terminator), so this
/// is all a record ever carries there, and multi-byte whitespace inside a
/// payload is payload, left untouched.
pub open spec fn trim_spec(s: Seq<u8>) -> Seq<u8> {
    trim_end_spec(trim_start_spec(s))
}

/// The record prefix marker, the bytes of `data:`.
pub open spec fn event_prefix() -> Seq<u8> {
    seq![0x64u8, 0x61u8, 0x74u8, 0x61u8, 0x3au8]
}

/// The record terminator, a single line feed.
pub open spec fn terminator() -> Seq<u8> {
    seq![0x0au8]
}

/// One scanning step over the buffered bytes: locate the prefix, then the
/// first terminator after it.  If both are present the result is the trimmed
/// payload between them together with the bytes remaining after the
/// terminator; otherwise the buffer holds no complete record yet.
pub open spec fn step_spec(b: Seq<u8>) -> Option<(Seq<u8>, Seq<u8>)> {
    match find_first(b, event_prefix()) {
        None => None,
        Some(i) => {
            let js = i + event_prefix().len();
            match find_first(b.skip(js), terminator()) {
                None => None,
                Some(k) => Some((trim_spec(b.subrange(js, js + k)), b.skip(js + k + 1))),
            }
        },
    }
}

/// Position facts about a successful scanning step; in particular the
/// remaining bytes form a strictly shorter sequence.
pub proof fn lemma_step_bounds(b: Seq<u8>)
    requires
        step_spec(b) is Some,
    ensures
        step_spec(b).unwrap().1.len() < b.len(),
{
    lemma_find_first_props(b, event_prefix());
    let i = find_first(b, event_prefix()).unwrap();
    let js = i + event_prefix().len();
    lemma_find_first_props(b.skip(js), terminator());
    let k = find_first(b.skip(js), terminator()).unwrap();
    assert(matches_at(b.skip(js), terminator(), k));
}

/// A successful scanning step commutes with appending further bytes: the same
/// record comes out, and the appended bytes simply extend the remainder.
pub proof fn lemma_step_append(b: Seq<u8>, c: Seq<u8>)
    requires
        step_spec(b) is Some,
    ensures
        ({
            let (r, rest) = step_spec(b).unwrap();
            step_spec(b + c) == Some((r, rest + c))
        }),
{
    lemma_find_first_props(b, event_prefix());
    let i = find_first(b, event_prefix()).unwrap();
    let js = i + event_prefix().len();
    lemma_find_first_append(b, c, event_prefix());
    lemma_find_first_props(b.skip(js), terminator());
    let k = find_first(b.skip(js), terminator()).unwrap();
    assert(matches_at(b.skip(js), terminator(), k));
    assert((b + c).skip(js) =~= b.skip(js) + c);
    lemma_find_first_append(b.skip(js), c, terminator());
    assert((b + c).subrange(js, js + k) =~= b.subrange(js, js + k));
    assert((b + c).skip(js + k + 1) =~= b.skip(js + k + 1) + c);
}

/// Every complete record currently extractable from the buffered bytes, in
/// payload order.
pub open spec fn records_of(b: Seq<u8>) -> Seq<Seq<u8>>
    decreases b.len(),
    via records_of_decreases
{
    match step_spec(b) {
        None => Seq::empty(),
        Some((r, rest)) => seq![r] + records_of(rest),
    }
}

#[via_fn]
proof fn records_of_decreases(b: Seq<u8>) {
    if step_spec(b) is Some {
        lemma_step_bounds(b);
    }
}

/// The bytes still buffered once every complete record has been extracted.
pub open spec fn leftover(b: Seq<u8>) -> Seq<u8>
    decreases b.len(),
    via leftover_decreases
{
    match step_spec(b) {
        None => b,
        Some((r, rest)) => leftover(rest),
    }
}

#[via_fn]
proof fn leftover_decreases(b: Seq<u8>) {
    if step_spec(b) is Some {
        lemma_step_bounds(b);
    }
}

/// Splitting a byte stream anywhere is harmless: the records of `b + c` are
/// the records already extractable from `b`, followed by the records of `b`'s
/// unconsumed tail extended with `c`.  Applied inductively this says that
/// parsing chunk by chunk yields exactly the records of the unsplit stream.
pub proof fn lemma_records_split(b: Seq<u8>, c: Seq<u8>)
    ensures
        records_of(b + c) == records_of(b) + records_of(leftover(b) + c),
        leftover(b + c) == leftover(leftover(b) + c),
    decreases b.len(),
{
    match step_spec(b) {
        None => {
            assert(records_of(b) =~= Seq::<Seq<u8>>::empty());
            assert(records_of(b) + records_of(b + c) =~= records_of(b + c));
        },
        Some((r, rest)) => {
            lemma_step_bounds(b);
            lemma_step_append(b, c);
            lemma_records_split(rest, c);
            assert(records_of(b + c) =~= seq![r] + records_of(rest + c));
            assert(seq![r] + (records_of(rest) + records_of(leftover(rest) + c)) =~= (seq![r]
                + records_of(rest)) + records_of(leftover(rest) + c));
            assert(records_of(b) =~= seq![r] + records_of(rest));
        },
    }
}

/// The unsplit byte stream: all chunks in arrival order.
pub open spec fn concat_chunks(chunks: Seq<Seq<u8>>) -> Seq<u8>
    decreases chunks.len(),
{
    if chunks.len() == 0 {
        Seq::empty()
    } else {
        concat_chunks(chunks.drop_last()) + chunks.last()
    }
}

/// The records emitted, and the bytes still buffered, after feeding the
/// chunks one at a time into an initially empty parser and extracting every
/// complete record after each chunk.
pub open spec fn fed(chunks: Seq<Seq<u8>>) -> (Seq<Seq<u8>>, Seq<u8>)
    decreases chunks.len(),
{
    if chunks.len() == 0 {
        (Seq::empty(), Seq::empty())
    } else {
        let prev = fed(chunks.drop_last());
        (
            prev.0 + records_of(prev.1 + chunks.last()),
            leftover(prev.1 + chunks.last()),
        )
    }
}

/// For every way of splitting a byte stream into chunks, feeding the chunks
/// in order produces exactly the record sequence of the unsplit stream, and
/// leaves exactly its unconsumed tail buffered.
pub proof fn lemma_chunking_irrelevant(chunks: Seq<Seq<u8>>)
    ensures
        fed(chunks).0 == records_of(concat_chunks(chunks)),
        fed(chunks).1 == leftover(concat_chunks(chunks)),
    decreases chunks.len(),
{
    if chunks.len() == 0 {
        assert(find_first(Seq::<u8>::empty(), event_prefix()) is None);
        assert(records_of(Seq::<u8>::empty()) =~= Seq::<Seq<u8>>::empty());
    } else {
        lemma_chunking_irrelevant(chunks.drop_last());
        lemma_records_split(concat_chunks(chunks.drop_last()), chunks.last());
    }
}

fn is_ws_byte(b: u8) -> (r: bool)
    ensures
        r == is_ws(b),
{
    b == 0x20 || (0x09 <= b && b <= 0x0d)
}

/// Index of the first occurrence of the record prefix in `buf`, if any.
fn find_prefix(buf: &Vec<u8>) -> (r: Option<usize>)
    ensures
        match r {
            Some(i) => i + 5 <= buf.len() && find_first(buf@, event_prefix()) == Some(i as int),
            None => find_first(buf@, event_prefix()) is None,
        },
{
    if buf.len() < 5 {
        return None;
    }
    let mut i: usize = 0;
    while i <= buf.len() - 5
        invariant
            buf.len() >= 5,
            i <= buf.len(),
            forall|j: int| 0 <= j < i ==> !matches_at(buf@, event_prefix(), j),
        decreases buf.len() - i,
    {
        if buf[i] == 0x64 && buf[i + 1] == 0x61 && buf[i + 2] == 0x74 && buf[i + 3] == 0x61
            && buf[i + 4] == 0x3a {
            proof {
                assert(buf@.subrange(i as int, i as int + 5) =~= event_prefix());
                lemma_find_first_complete(buf@, event_prefix(), i as int);
                lemma_find_first_props(buf@, event_prefix());
            }
            return Some(i);
        }
        proof {
            if matches_at(buf@, event_prefix(), i as int) {
                assert(buf@[i as int] == buf@.subrange(i as int, i as int + 5)[0]);
                assert(buf@[i as int + 1] == buf@.subrange(i as int, i as int + 5)[1]);
                assert(buf@[i as int + 2] == buf@.subrange(i as int, i as int + 5)[2]);
                assert(buf@[i as int + 3] == buf@.subrange(i as int, i as int + 5)[3]);
                assert(buf@[i as int + 4] == buf@.subrange(i as int, i as int + 5)[4]);
            }
        }
        i = i + 1;
    }
    proof {
        lemma_find_first_props(buf@, event_prefix());
        if find_first(buf@, event_prefix()) is Some {
            let k = find_first(buf@, event_prefix()).unwrap();
            assert(matches_at(buf@, event_prefix(), k));
        }
    }
    None
}

/// Absolute index of the first line feed at or after `from`, if any.
fn find_newline_from(buf: &Vec<u8>, from: usize) -> (r: Option<usize>)
    requires
        from <= buf.len(),
    ensures
        match r {
            Some(e) => from <= e < buf.len() && find_first(buf@.skip(from as int), terminator())
                == Some(e - from),
            None => find_first(buf@.skip(from as int), terminator()) is None,
        },
{
    let ghost tail = buf@.skip(from as int);
    let mut e = from;
    while e < buf.len()
        invariant
            from <= e <= buf.len(),
            tail == buf@.skip(from as int),
            forall|j: int| 0 <= j < e - from ==> !matches_at(tail, terminator(), j),
        decreases buf.len() - e,
    {
        if buf[e] == 0x0a {
            proof {
                assert(tail.subrange(e - from, e - from + 1) =~= terminator());
                lemma_find_first_complete(tail, terminator(), e - from);
                lemma_find_first_props(tail, terminator());
            }
            return Some(e);
        }
        proof {
            if matches_at(tail, terminator(), e - from) {
                assert(buf@[e as int] == tail.subrange(e - from, e - from + 1)[0]);
            }
        }
        e = e + 1;
    }
    proof {
        lemma_find_first_props(tail, terminator());
        if find_first(tail, terminator()) is Some {
            let k = find_first(tail, terminator()).unwrap();
            assert(matches_at(tail, terminator(), k));
        }
    }
    None
}

/// If the first `a` elements are whitespace and the element at `a` (when
/// there is one) is not, trimming from the front drops exactly those `a`
/// elements.
proof fn lemma_trim_start_idx(s: Seq<u8>, a: int)
    requires
        0 <= a <= s.len(),
        forall|j: int| 0 <= j < a ==> is_ws(s[j]),
        a == s.len() || !is_ws(s[a]),
    ensures
        trim_start_spec(s) == s.skip(a),
    decreases a,
{
    if a == 0 {
        assert(s.skip(0) =~= s);
    } else {
        assert(is_ws(s[0]));
        lemma_trim_start_idx(s.skip(1), a - 1);
        assert(s.skip(1).skip(a - 1) =~= s.skip(a));
    }
}

/// If everything from `b` on is whitespace and the element before `b` (when
/// there is one) is not, trimming from the back keeps exactly the first `b`
/// elements.
proof fn lemma_trim_end_idx(s: Seq<u8>, b: int)
    requires
        0 <= b <= s.len(),
        forall|j: int| b <= j < s.len() ==> is_ws(s[j]),
        b == 0 || !is_ws(s[b - 1]),
    ensures
        trim_end_spec(s) == s.take(b),
    decreases s.len(),
{
    if b == s.len() {
        if s.len() > 0 {
            assert(!is_ws(s.last()));
        }
        assert(s.take(b) =~= s);
    } else {
        assert(is_ws(s.last()));
        lemma_trim_end_idx(s.drop_last(), b);
        assert(s.drop_last().take(b) =~= s.take(b));
    }
}

/// The parser for the upstream event stream: one growable byte buffer into
/// which raw chunks are appended and out of which complete records are
/// scanned.  The abstract state is exactly the buffered byte sequence.
pub struct ChatStreamParser {
    buffer: Vec<u8>,
}

impl View for ChatStreamParser {
    type V = Seq<u8>;

    closed spec fn view(&self) -> Seq<u8> {
        self.buffer@
    }
}

impl ChatStreamParser {
    pub fn new() -> (p: Self)
        ensures
            p@ == Seq::<u8>::empty(),
    {
        Self { buffer: Vec::new() }
    }

    /// Append one raw chunk to the buffer unchanged.  Chunk boundaries carry
    /// no meaning, so nothing is judged here: bytes that do not form valid
    /// text on their own — a multi-byte character split across chunks, say —
    /// may be completed by what arrives next.  A payload that is still not
    /// valid text once its record is complete is never fatal; it merely
    /// fails to translate.
    pub fn add_chunk(&mut self, chunk: &[u8])
        ensures
            final(self)@ == old(self)@ + chunk@,
    {
        let mut tail = vstd::slice::slice_to_vec(chunk);
        self.buffer.append(&mut tail);
    }

    /// Extract the next complete record, if the buffer holds one: the trimmed
    /// payload between the first prefix and the first terminator after it.
    /// Everything up to and including that terminator is consumed.
    pub fn next_record(&mut self) -> (r: Option<Vec<u8>>)
        ensures
            match step_spec(old(self)@) {
                None => r is None && final(self)@ == old(self)@,
                Some(p) => r matches Some(rec) && rec@ == p.0 && final(self)@ == p.1,
            },
    {
        let start = match find_prefix(&self.buffer) {
            None => {
                return None;
            },
            Some(i) => i,
        };
        let js = start + 5;
        let end = match find_newline_from(&self.buffer, js) {
            None => {
                return None;
            },
            Some(e) => e,
        };
        // Trim the payload region [js, end) at both ends.
        let mut a = js;
        while a < end && is_ws_byte(self.buffer[a])
            invariant
                js <= a <= end <= self.buffer.len(),
                forall|j: int| js <= j < a ==> is_ws(self.buffer@[j]),
            decreases end - a,
        {
            a = a + 1;
        }
        let mut b = end;
        while b > a && is_ws_byte(self.buffer[b - 1])
            invariant
                a <= b <= end <= self.buffer.len(),
                forall|j: int| b <= j < end ==> is_ws(self.buffer@[j]),
            decreases b,
        {
            b = b - 1;
        }
        let rec = vstd::slice::slice_to_vec(vstd::slice::slice_subrange(
            self.buffer.as_slice(),
            a,
            b,
        ));
        let rest = vstd::slice::slice_to_vec(vstd::slice::slice_subrange(
            self.buffer.as_slice(),
            end + 1,
            self.buffer.len(),
        ));
        proof {
            let bv = self.buffer@;
            let payload = bv.subrange(js as int, end as int);
            lemma_trim_start_idx(payload, a - js);
            assert(payload.skip(a - js) =~= bv.subrange(a as int, end as int));
            lemma_trim_end_idx(bv.subrange(a as int, end as int), b - a);
            assert(bv.subrange(a as int, end as int).take(b - a) =~= bv.subrange(
                a as int,
                b as int,
            ));
            assert(bv.skip(end + 1) =~= bv.subrange(end + 1, bv.len() as int));
        }
        self.buffer = rest;
        Some(rec)
    }
}

/// Upstream's classification of why generation stopped, extended with
/// `Unavailable` for a stream that could not be completed.
#[derive(Clone, Copy, PartialEq, Eq, Structural, Debug)]
pub enum FinishReason {
    Stop,
    Length,
    ContentFilter,
    Unavailable,
}

/// One typed relay message: the administrative role marker (never forwarded
/// to the client), the opening message carrying the token budget, one
/// incremental text fragment, or the stream's finish classification.
#[derive(Clone, Debug)]
pub enum StreamItem {
    RoleMsg,
    Start(u32),
    Delta(String),
    Finish(FinishReason),
}

/// The mathematical value of a relay message.
pub enum StreamItemView {
    RoleMsg,
    Start(u32),
    Delta(Seq<char>),
    Finish(FinishReason),
}

impl View for StreamItem {
    type V = StreamItemView;

    open spec fn view(&self) -> StreamItemView {
        match self {
            StreamItem::RoleMsg => StreamItemView::RoleMsg,
            StreamItem::Start(n) => StreamItemView::Start(*n),
            StreamItem::Delta(s) => StreamItemView::Delta(s@),
            StreamItem::Finish(r) => StreamItemView::Finish(*r),
        }
    }
}

/// The value of an optional relay message.
pub open spec fn item_view(r: Option<StreamItem>) -> Option<StreamItemView> {
    match r {
        None => None,
        Some(it) => Some(it@),
    }
}

/// What the translator reads out of one JSON event record: whether a first
/// choice exists, the state of its `finish_reason` field (absent-or-null,
/// present but not a string, or a string), whether a `delta` object exists,
/// whether that object carries a `role` field, and its `content` field when
/// that is a string.
pub struct JsonEventFields {
    pub has_choice: bool,
    pub finish: Option<Option<String>>,
    pub has_delta: bool,
    pub has_role: bool,
    pub content: Option<String>,
}

/// The mathematical value of the extracted fields.
pub struct EventFieldsView {
    pub has_choice: bool,
    pub finish: Option<Option<Seq<char>>>,
    pub has_delta: bool,
    pub has_role: bool,
    pub content: Option<Seq<char>>,
}

impl View for JsonEventFields {
    type V = EventFieldsView;

    open spec fn view(&self) -> EventFieldsView {
        EventFieldsView {
            has_choice: self.has_choice,
            finish: self.finish.deep_view(),
            has_delta: self.has_delta,
            has_role: self.has_role,
            content: self.content.deep_view(),
        }
    }
}

/// The fields that JSON-parsing one record yields; a function of the record
/// bytes alone.
pub uninterp spec fn event_fields_of(bytes: Seq<u8>) -> EventFieldsView;

/// Relies on serde_json::from_slice and serde_json::Value::{get, is_null,
/// as_str}: parses one record as JSON and projects out the fields named in
/// `JsonEventFields`, a value determined by the record bytes alone.
#[verifier::external_body]
fn parse_event_fields(bytes: &[u8]) -> (r: JsonEventFields)
    ensures
        r@ == event_fields_of(bytes@),
{
    let v: Option<serde_json::Value> = serde_json::from_slice(bytes).ok();
    let choice = v.as_ref().and_then(|x| x.get("choices")).and_then(|cs| cs.get(0));
    let finish = choice.and_then(|c| c.get("finish_reason")).filter(|f| !f.is_null()).map(
        |f| f.as_str().map(str::to_string),
    );
    let delta = choice.and_then(|c| c.get("delta"));
    JsonEventFields {
        has_choice: choice.is_some(),
        finish,
        has_delta: delta.is_some(),
        has_role: delta.map_or(false, |d| d.get("role").is_some()),
        content: delta.and_then(|d| d.get("content")).and_then(|c| c.as_str()).map(str::to_string),
    }
}

/// Decode a `finish_reason` string against the reasons upstream documents.
pub open spec fn decode_finish(s: Seq<char>) -> Option<FinishReason> {
    if s == "stop"@ {
        Some(FinishReason::Stop)
    } else if s == "length"@ {
        Some(FinishReason::Length)
    } else if s == "content_filter"@ {
        Some(FinishReason::ContentFilter)
    } else {
        None
    }
}

/// The translation of one record, given its extracted fields.  A record
/// without a first choice is untranslatable; a present, non-null
/// `finish_reason` must decode to a known reason and yields the finish
/// message; otherwise the `delta` object yields the role marker when it
/// carries a role, or a text fragment when it carries string content.
pub open spec fn translate_spec(f: EventFieldsView) -> Option<StreamItemView> {
    if !f.has_choice {
        None
    } else {
        match f.finish {
            Some(fin) => match fin {
                Some(s) => match decode_finish(s) {
                    Some(r) => Some(StreamItemView::Finish(r)),
                    None => None,
                },
                None => None,
            },
            None => {
                if !f.has_delta {
                    None
                } else if f.has_role {
                    Some(StreamItemView::RoleMsg)
                } else {
                    match f.content {
                        Some(c) => Some(StreamItemView::Delta(c)),
                        None => None,
                    }
                }
            },
        }
    }
}

/// Translate extracted record fields into a relay message; `None` marks an
/// untranslatable record.
pub fn translate_fields(f: JsonEventFields) -> (r: Option<StreamItem>)
    ensures
        item_view(r) == translate_spec(f@),
{
    if !f.has_choice {
        return None;
    }
    match f.finish {
        Some(fin) => match fin {
            Some(s) => {
                if crate::text::str_eq(s.as_str(), "stop") {
                    Some(StreamItem::Finish(FinishReason::Stop))
                } else if crate::text::str_eq(s.as_str(), "length") {
                    Some(StreamItem::Finish(FinishReason::Length))
                } else if crate::text::str_eq(s.as_str(), "content_filter") {
                    Some(StreamItem::Finish(FinishReason::ContentFilter))
                } else {
                    None
                }
            },
            None => None,
        },
        None => {
            if !f.has_delta {
                None
            } else if f.has_role {
                Some(StreamItem::RoleMsg)
            } else {
                match f.content {
                    Some(c) => Some(StreamItem::Delta(c)),
                    None => None,
                }
            }
        },
    }
}

impl StreamItem {
    /// Translate one raw record.
    pub fn from_json_bytes(bytes: &[u8]) -> (r: Option<StreamItem>)
        ensures
            item_view(r) == translate_spec(event_fields_of(bytes@)),
    {
        translate_fields(parse_event_fields(bytes))
    }

    /// Translate one raw record given as a string slice.
    pub fn from_json_str(s: &str) -> (r: Option<StreamItem>)
        ensures
            item_view(r) == translate_spec(event_fields_of(s.spec_bytes())),
    {
        Self::from_json_bytes(s.as_bytes())
    }
}

impl ChatStreamParser {
    /// Extract and translate the next complete record.  When the buffer
    /// holds no complete record the parser is left unchanged; when it does,
    /// the record is consumed whether or not it translates.
    pub fn next(&mut self) -> (r: Option<StreamItem>)
        ensures
            match step_spec(old(self)@) {
                None => r is None && final(self)@ == old(self)@,
                Some(p) => final(self)@ == p.1 && item_view(r) == translate_spec(
                    event_fields_of(p.0),
                ),
            },
    {
        match self.next_record() {
            None => None,
            Some(rec) => StreamItem::from_json_bytes(rec.as_slice()),
        }
    }
}

} // verus!
