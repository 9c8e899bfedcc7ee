//! The anti-abuse verification call, seen from the library's side: building
//! the form-encoded request body, and reading the verifier's JSON verdict.
//! The HTTP exchange itself belongs to the caller.

use vstd::prelude::*;
use vstd::string::{StrSliceExecFns, StringExecFns, StringSliceAdditionalSpecFns};

use crate::text::{ascii_to_string, ascii_view};

verus! {

/// The bytes a URI-component encoding leaves unescaped: ASCII alphanumerics
/// and `- _ . ! ~ * ' ( )`.
pub open spec fn is_unreserved(b: u8) -> bool {
    ||| (0x41 <= b && b <= 0x5a)
    ||| (0x61 <= b && b <= 0x7a)
    ||| (0x30 <= b && b <= 0x39)
    ||| b == 0x2d
    ||| b == 0x5f
    ||| b == 0x2e
    ||| b == 0x21
    ||| b == 0x7e
    ||| b == 0x2a
    ||| b == 0x27
    ||| b == 0x28
    ||| b == 0x29
}

/// The uppercase hexadecimal digit for one value below 16.
pub open spec fn hex_digit(d: int) -> u8 {
    if d < 10 {
        (0x30 + d) as u8
    } else {
        (0x41 + (d - 10)) as u8
    }
}

/// One byte of the encoding: unreserved bytes stand for themselves, every
/// other byte becomes a percent escape of two uppercase hexadecimal digits.
pub open spec fn percent_encode_byte(b: u8) -> Seq<u8> {
    if is_unreserved(b) {
        seq![b]
    } else {
        seq![0x25u8, hex_digit(b as int / 16), hex_digit(b as int % 16)]
    }
}

/// The URI-component encoding of a byte sequence.
pub open spec fn percent_encode(bytes: Seq<u8>) -> Seq<u8>
    decreases bytes.len(),
{
    if bytes.len() == 0 {
        Seq::empty()
    } else {
        percent_encode_byte(bytes[0]) + percent_encode(bytes.skip(1))
    }
}

proof fn lemma_percent_encode_push(bytes: Seq<u8>, x: u8)
    ensures
        percent_encode(bytes.push(x)) == percent_encode(bytes) + percent_encode_byte(x),
    decreases bytes.len(),
{
    if bytes.len() == 0 {
        let p = bytes.push(x);
        assert(p[0] == x);
        assert(p.skip(1) =~= Seq::<u8>::empty());
        assert(percent_encode(p) == percent_encode_byte(x) + percent_encode(p.skip(1)));
        assert(percent_encode(p.skip(1)) == Seq::<u8>::empty());
        assert(percent_encode_byte(x) + Seq::<u8>::empty() =~= percent_encode_byte(x));
        assert(percent_encode(bytes) + percent_encode_byte(x) =~= percent_encode_byte(x));
    } else {
        assert(bytes.push(x).skip(1) =~= bytes.skip(1).push(x));
        lemma_percent_encode_push(bytes.skip(1), x);
        assert(percent_encode_byte(bytes.push(x)[0]) + (percent_encode(bytes.skip(1))
            + percent_encode_byte(x)) =~= (percent_encode_byte(bytes[0]) + percent_encode(
            bytes.skip(1),
        )) + percent_encode_byte(x));
    }
}

proof fn lemma_percent_encode_ascii(bytes: Seq<u8>)
    ensures
        forall|i: int|
            0 <= i < percent_encode(bytes).len() ==> #[trigger] percent_encode(bytes)[i] < 0x80,
    decreases bytes.len(),
{
    if bytes.len() > 0 {
        lemma_percent_encode_ascii(bytes.skip(1));
        let head = percent_encode_byte(bytes[0]);
        assert forall|i: int| 0 <= i < percent_encode(bytes).len() implies #[trigger] percent_encode(
            bytes,
        )[i] < 0x80 by {
            if i < head.len() {
                assert(percent_encode(bytes)[i] == head[i]);
            } else {
                assert(percent_encode(bytes)[i] == percent_encode(bytes.skip(1))[i - head.len()]);
            }
        }
    }
}

fn hex_byte(d: u8) -> (r: u8)
    requires
        d < 16,
    ensures
        r == hex_digit(d as int),
{
    if d < 10 {
        0x30 + d
    } else {
        0x41 + (d - 10)
    }
}

fn is_unreserved_byte(b: u8) -> (r: bool)
    ensures
        r == is_unreserved(b),
{
    (0x41 <= b && b <= 0x5a) || (0x61 <= b && b <= 0x7a) || (0x30 <= b && b <= 0x39) || b == 0x2d
        || b == 0x5f || b == 0x2e || b == 0x21 || b == 0x7e || b == 0x2a || b == 0x27 || b == 0x28
        || b == 0x29
}

/// URI-component encode a string's UTF-8 bytes for use in a form body.
pub fn encode_form_data(s: &str) -> (r: String)
    ensures
        r@ == ascii_view(percent_encode(s.spec_bytes())),
{
    let bytes = s.as_bytes();
    let n = bytes.len();
    let mut v: Vec<u8> = Vec::new();
    let mut i: usize = 0;
    while i < n
        invariant
            n == bytes@.len(),
            i <= n,
            v@ == percent_encode(bytes@.take(i as int)),
        decreases n - i,
    {
        let b = bytes[i];
        let ghost prefix = bytes@.take(i as int);
        if is_unreserved_byte(b) {
            v.push(b);
        } else {
            v.push(0x25);
            v.push(hex_byte(b / 16));
            v.push(hex_byte(b % 16));
        }
        proof {
            lemma_percent_encode_push(prefix, b);
            assert(bytes@.take(i + 1) =~= prefix.push(b));
            assert(v@ =~= percent_encode(prefix) + percent_encode_byte(b));
        }
        i = i + 1;
    }
    proof {
        assert(bytes@.take(n as int) =~= bytes@);
        lemma_percent_encode_ascii(bytes@);
    }
    ascii_to_string(v)
}

/// The verification request body: the shared secret, the client's token and
/// the caller's network address, URI-component encoded into form fields.
pub open spec fn form_body_spec(secret: Seq<u8>, token: Seq<u8>, ip: Seq<u8>) -> Seq<char> {
    "secret="@ + ascii_view(percent_encode(secret)) + "&response="@ + ascii_view(
        percent_encode(token),
    ) + "&remoteip="@ + ascii_view(percent_encode(ip))
}

/// Build the verification request body.
pub fn captcha_form_body(secret: &str, token: &str, ip: &str) -> (r: String)
    ensures
        r@ == form_body_spec(secret.spec_bytes(), token.spec_bytes(), ip.spec_bytes()),
{
    let mut body = String::from_str("secret=");
    let e1 = encode_form_data(secret);
    body.append(e1.as_str());
    body.append("&response=");
    let e2 = encode_form_data(token);
    body.append(e2.as_str());
    body.append("&remoteip=");
    let e3 = encode_form_data(ip);
    body.append(e3.as_str());
    body
}

/// What JSON-decoding the verifier's verdict yields: whether verification
/// passed, and the reported failure codes; a function of the body bytes
/// alone.
pub uninterp spec fn captcha_fields_of(bytes: Seq<u8>) -> Option<(bool, Seq<Seq<char>>)>;

/// Relies on serde_json::from_slice and serde_json::Value::{get, as_bool,
/// as_array, as_str}: decodes the verifier's verdict, an object with a
/// boolean `success` and a string array `error-codes`, a value determined by
/// the body bytes alone.
#[verifier::external_body]
pub(crate) fn parse_captcha_response(bytes: &[u8]) -> (r: Option<(bool, Vec<String>)>)
    ensures
        match r {
            None => captcha_fields_of(bytes@) is None,
            Some(p) => captcha_fields_of(bytes@) == Some((p.0, p.1.deep_view())),
        },
{
    let v: serde_json::Value = serde_json::from_slice(bytes).ok()?;
    let success = v.get("success")?.as_bool()?;
    let codes = v.get("error-codes")?.as_array()?.iter().map(
        |e| e.as_str().map(str::to_string),
    ).collect::<Option<Vec<String>>>()?;
    Some((success, codes))
}

} // verus!
