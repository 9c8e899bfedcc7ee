//! Small text utilities the rest of the library builds on: equality of
//! string slices at the character level, construction of ASCII strings from
//! byte vectors, and decimal formatting of integers.

use vstd::prelude::*;
use vstd::string::StrSliceExecFns;

verus! {

/// The characters of a pure-ASCII byte sequence.
pub open spec fn ascii_view(b: Seq<u8>) -> Seq<char> {
    b.map_values(|x: u8| x as char)
}

/// Relies on String::from_utf8: ASCII bytes are valid UTF-8 and decode to
/// exactly the characters with the same code points.
#[verifier::external_body]
pub(crate) fn ascii_to_string(v: Vec<u8>) -> (r: String)
    requires
        forall|i: int| 0 <= i < v@.len() ==> v@[i] < 0x80,
    ensures
        r@ == ascii_view(v@),
{
    String::from_utf8(v).unwrap_or_default()
}

/// Character-for-character equality of two string slices.
pub fn str_eq(a: &str, b: &str) -> (r: bool)
    ensures
        r == (a@ == b@),
{
    let alen = a.unicode_len();
    let blen = b.unicode_len();
    if alen != blen {
        return false;
    }
    let mut i: usize = 0;
    while i < alen
        invariant
            alen == a@.len(),
            alen == b@.len(),
            i <= alen,
            forall|j: int| 0 <= j < i ==> a@[j] == b@[j],
        decreases alen - i,
    {
        if a.get_char(i) != b.get_char(i) {
            return false;
        }
        i = i + 1;
    }
    proof {
        assert(a@ =~= b@);
    }
    true
}

/// The ASCII digit for one decimal digit value.
pub open spec fn digit_byte(d: int) -> u8 {
    (0x30 + d) as u8
}

/// The decimal digits of a nonnegative integer, most significant first.
pub open spec fn dec_bytes(n: int) -> Seq<u8>
    decreases n,
{
    if n < 10 {
        seq![digit_byte(if n >= 0 { n } else { 0 })]
    } else {
        dec_bytes(n / 10) + seq![digit_byte(n % 10)]
    }
}

/// Decimal digits are ASCII.
pub proof fn lemma_dec_bytes_ascii(n: int)
    ensures
        forall|i: int| 0 <= i < dec_bytes(n).len() ==> #[trigger] dec_bytes(n)[i] < 0x80,
    decreases n,
{
    if n >= 10 {
        lemma_dec_bytes_ascii(n / 10);
        assert(forall|i: int| 0 <= i < dec_bytes(n / 10).len() ==> #[trigger] dec_bytes(n)[i]
            == dec_bytes(n / 10)[i]);
    }
}

/// Append the decimal digits of `n` to `v`.
pub fn push_dec_u64(v: &mut Vec<u8>, n: u64)
    ensures
        final(v)@ == old(v)@ + dec_bytes(n as int),
    decreases n,
{
    if n < 10 {
        v.push(0x30 + (n as u8));
        assert(final(v)@ =~= old(v)@ + dec_bytes(n as int));
    } else {
        assert(n / 10 < n && n % 10 < 10) by (nonlinear_arith)
            requires
                n >= 10,
        ;
        push_dec_u64(v, n / 10);
        v.push(0x30 + ((n % 10) as u8));
        assert(final(v)@ =~= old(v)@ + dec_bytes(n as int));
    }
}

/// Append exactly two decimal digits, zero padded.
pub fn push_two_digits(v: &mut Vec<u8>, n: u8)
    requires
        n < 100,
    ensures
        final(v)@ == old(v)@ + seq![digit_byte(n as int / 10), digit_byte(n as int % 10)],
{
    v.push(0x30 + n / 10);
    v.push(0x30 + n % 10);
    assert(final(v)@ =~= old(v)@ + seq![digit_byte(n as int / 10), digit_byte(n as int % 10)]);
}

/// Append exactly four decimal digits, zero padded.
pub fn push_four_digits(v: &mut Vec<u8>, n: u16)
    requires
        n < 10000,
    ensures
        final(v)@ == old(v)@ + seq![
            digit_byte(n as int / 1000),
            digit_byte(n as int / 100 % 10),
            digit_byte(n as int / 10 % 10),
            digit_byte(n as int % 10),
        ],
{
    v.push(0x30 + (n / 1000) as u8);
    v.push(0x30 + (n / 100 % 10) as u8);
    v.push(0x30 + (n / 10 % 10) as u8);
    v.push(0x30 + (n % 10) as u8);
    assert(final(v)@ =~= old(v)@ + seq![
        digit_byte(n as int / 1000),
        digit_byte(n as int / 100 % 10),
        digit_byte(n as int / 10 % 10),
        digit_byte(n as int % 10),
    ]);
}

} // verus!
