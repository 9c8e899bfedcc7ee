//! Session identity: date-prefixed globally unique session identifiers and
//! opaque high-entropy secrets.
//!
//! An identifier is the current UTC calendar date, formatted as four, two and
//! two zero-padded decimal digits separated by hyphens, followed by one more
//! hyphen and a random unique suffix.  The fixed-width date prefix makes
//! identifiers of different days lexicographically distinct however the
//! suffixes fall out.

use vstd::arithmetic::div_mod::{lemma_div_denominator, lemma_fundamental_div_mod};
use vstd::assert_by_contradiction;
use vstd::prelude::*;
use vstd::string::StringExecFns;

use crate::text::{ascii_to_string, ascii_view, digit_byte};

verus! {

/// Relies on chrono::Utc::now and chrono::DateTime::timestamp: the number of
/// non-leap seconds since the Unix epoch, read from the system clock.
#[verifier::external_body]
pub fn get_utc_timestamp_sec() -> i64 {
    chrono::Utc::now().timestamp()
}

/// The UTC calendar date (year, month, day) of a timestamp; a function of
/// the timestamp alone.
pub uninterp spec fn utc_ymd_of(ts: int) -> (int, int, int);

/// Relies on chrono::DateTime::from_timestamp and the Datelike accessors
/// year, month and day: the UTC calendar date of `ts` seconds since the
/// epoch.  Timestamps from the epoch to the last second of year 9999 are in
/// chrono's documented range, so the conversion cannot fail, the year lies
/// in 1970..=9999, the month in 1..=12 and the day in 1..=31.
#[verifier::external_body]
fn utc_ymd(ts: i64) -> (r: (u16, u8, u8))
    requires
        0 <= ts < 253402300800,
    ensures
        utc_ymd_of(ts as int) == (r.0 as int, r.1 as int, r.2 as int),
        1970 <= r.0 <= 9999,
        1 <= r.1 <= 12,
        1 <= r.2 <= 31,
{
    let dt = chrono::DateTime::<chrono::Utc>::from_timestamp(ts, 0).unwrap();
    let y = chrono::Datelike::year(&dt);
    (y as u16, chrono::Datelike::month(&dt) as u8, chrono::Datelike::day(&dt) as u8)
}

/// The ten bytes of a calendar date formatted as `YYYY-MM-DD`.
pub open spec fn date_bytes(y: int, m: int, d: int) -> Seq<u8> {
    seq![
        digit_byte(y / 1000),
        digit_byte(y / 100 % 10),
        digit_byte(y / 10 % 10),
        digit_byte(y % 10),
        0x2du8,
        digit_byte(m / 10),
        digit_byte(m % 10),
        0x2du8,
        digit_byte(d / 10),
        digit_byte(d % 10),
    ]
}

/// Format a calendar date as `YYYY-MM-DD`.
pub fn format_utc_date(y: u16, m: u8, d: u8) -> (r: String)
    requires
        1000 <= y <= 9999,
        1 <= m <= 12,
        1 <= d <= 31,
    ensures
        r@ == ascii_view(date_bytes(y as int, m as int, d as int)),
{
    let mut v: Vec<u8> = Vec::new();
    crate::text::push_four_digits(&mut v, y);
    v.push(0x2d);
    crate::text::push_two_digits(&mut v, m);
    v.push(0x2d);
    crate::text::push_two_digits(&mut v, d);
    proof {
        assert(v@ =~= date_bytes(y as int, m as int, d as int));
    }
    ascii_to_string(v)
}

/// The current UTC date, formatted as `YYYY-MM-DD`.  A clock reading outside
/// the years 1970..=9999 is clamped to that range first.
pub fn get_utc_date() -> (r: String)
    ensures
        r@.len() == 10,
        exists|y: int, m: int, d: int|
            1000 <= y <= 9999 && 1 <= m <= 12 && 1 <= d <= 31 && r@ == ascii_view(
                date_bytes(y, m, d),
            ),
{
    let mut ts = get_utc_timestamp_sec();
    if ts < 0 {
        ts = 0;
    }
    if ts >= 253402300800 {
        ts = 253402300799;
    }
    let (y, m, d) = utc_ymd(ts);
    let date = format_utc_date(y, m, d);
    proof {
        assert(1000 <= y as int <= 9999 && 1 <= m as int <= 12 && 1 <= d as int <= 31 && date@
            == ascii_view(date_bytes(y as int, m as int, d as int)));
    }
    date
}

/// Relies on uuid::Uuid::new_v4 and its Display implementation: a freshly
/// generated random UUID printed in the hyphenated form, which is exactly 36
/// characters.
#[verifier::external_body]
fn uuid_v4_string() -> (r: String)
    ensures
        r@.len() == 36,
{
    format!("{}", uuid::Uuid::new_v4())
}

/// Compose a session identifier out of a formatted date and a unique suffix.
pub fn make_id_from(date: &str, suffix: &str) -> (r: String)
    ensures
        r@ == date@ + "-"@ + suffix@,
{
    let mut s = String::from_str(date);
    s.append("-");
    s.append(suffix);
    s
}

/// Generate a session identifier: the current UTC date followed by a random
/// unique suffix.  Together with `lemma_ids_on_distinct_days_differ` this
/// gives that identifiers generated on different days are never equal,
/// whatever their suffixes.
pub fn make_id() -> (r: String)
    ensures
        r@.len() == 47,
        exists|y: int, m: int, d: int, suffix: Seq<char>|
            1000 <= y <= 9999 && 1 <= m <= 12 && 1 <= d <= 31 && suffix.len() == 36 && r@
                == ascii_view(date_bytes(y, m, d)) + "-"@ + suffix,
{
    let mut ts = get_utc_timestamp_sec();
    if ts < 0 {
        ts = 0;
    }
    if ts >= 253402300800 {
        ts = 253402300799;
    }
    let (y, m, d) = utc_ymd(ts);
    let date = format_utc_date(y, m, d);
    let unique = uuid_v4_string();
    let id = make_id_from(date.as_str(), unique.as_str());
    proof {
        reveal_strlit("-");
        assert(1000 <= y as int <= 9999 && 1 <= m as int <= 12 && 1 <= d as int <= 31 && unique@.len()
            == 36 && id@ == ascii_view(date_bytes(y as int, m as int, d as int)) + "-"@ + unique@);
    }
    id
}

/// The standard-alphabet unpadded base64 encoding of a byte sequence; a
/// function of the bytes alone.
pub uninterp spec fn base64_of(b: Seq<u8>) -> Seq<char>;

/// Relies on rand::thread_rng and RngCore::fill_bytes: 32 bytes drawn from
/// the thread-local cryptographically secure generator.
#[verifier::external_body]
fn random_bytes_32() -> (r: Vec<u8>)
    ensures
        r@.len() == 32,
{
    let mut rng = rand::thread_rng();
    let mut bytes = [0u8; 32];
    rand::RngCore::fill_bytes(&mut rng, &mut bytes);
    bytes.to_vec()
}

/// Relies on base64's STANDARD_NO_PAD engine: the unpadded standard-alphabet
/// encoding, four characters for every full three-byte group and two or
/// three for a trailing partial group.
#[verifier::external_body]
fn base64_no_pad(b: &Vec<u8>) -> (r: String)
    ensures
        r@ == base64_of(b@),
        r@.len() == (b@.len() * 4 + 2) / 3,
{
    base64::Engine::encode(&base64::engine::general_purpose::STANDARD_NO_PAD, b)
}

/// Generate an opaque high-entropy secret: 32 random bytes, base64 encoded
/// for transport.
pub fn make_secret() -> (r: String)
    ensures
        r@.len() == 43,
        exists|b: Seq<u8>| b.len() == 32 && r@ == base64_of(b),
{
    let bytes = random_bytes_32();
    let s = base64_no_pad(&bytes);
    proof {
        assert(bytes@.len() == 32 && s@ == base64_of(bytes@));
    }
    s
}

/// Two numbers below 10000 with the same four decimal digits are the same
/// number.
proof fn lemma_four_digits_determine(a: int, b: int)
    requires
        0 <= a <= 9999,
        0 <= b <= 9999,
        a / 1000 == b / 1000,
        a / 100 % 10 == b / 100 % 10,
        a / 10 % 10 == b / 10 % 10,
        a % 10 == b % 10,
    ensures
        a == b,
{
    lemma_div_denominator(a, 100, 10);
    lemma_div_denominator(b, 100, 10);
    lemma_fundamental_div_mod(a / 100, 10);
    lemma_fundamental_div_mod(b / 100, 10);
    lemma_div_denominator(a, 10, 10);
    lemma_div_denominator(b, 10, 10);
    lemma_fundamental_div_mod(a / 10, 10);
    lemma_fundamental_div_mod(b / 10, 10);
    lemma_fundamental_div_mod(a, 10);
    lemma_fundamental_div_mod(b, 10);
}

/// Two numbers below 100 with the same two decimal digits are the same
/// number.
proof fn lemma_two_digits_determine(a: int, b: int)
    requires
        0 <= a <= 99,
        0 <= b <= 99,
        a / 10 == b / 10,
        a % 10 == b % 10,
    ensures
        a == b,
{
    lemma_fundamental_div_mod(a, 10);
    lemma_fundamental_div_mod(b, 10);
}

/// Identifiers generated on two different UTC calendar days differ, whatever
/// their suffixes: the fixed-width date prefix already distinguishes them,
/// so the two identifiers are never equal even when generated at the same
/// instant.
pub proof fn lemma_ids_on_distinct_days_differ(
    y1: int,
    m1: int,
    d1: int,
    s1: Seq<char>,
    y2: int,
    m2: int,
    d2: int,
    s2: Seq<char>,
)
    requires
        1000 <= y1 <= 9999,
        1 <= m1 <= 12,
        1 <= d1 <= 31,
        1000 <= y2 <= 9999,
        1 <= m2 <= 12,
        1 <= d2 <= 31,
        (y1, m1, d1) != (y2, m2, d2),
    ensures
        ascii_view(date_bytes(y1, m1, d1)) + "-"@ + s1 != ascii_view(date_bytes(y2, m2, d2))
            + "-"@ + s2,
{
    let db1 = date_bytes(y1, m1, d1);
    let db2 = date_bytes(y2, m2, d2);
    let id1 = ascii_view(db1) + "-"@ + s1;
    let id2 = ascii_view(db2) + "-"@ + s2;
    assert_by_contradiction!(id1 != id2, {
        assert forall|i: int| 0 <= i < 10 implies db1[i] == db2[i] by {
            assert(id1[i] == ascii_view(db1)[i]);
            assert(id2[i] == ascii_view(db2)[i]);
            assert(db1[i] as char == db2[i] as char);
        }
        assert(db1[0] == db2[0] && db1[1] == db2[1] && db1[2] == db2[2] && db1[3] == db2[3]);
        lemma_four_digits_determine(y1, y2);
        assert(db1[5] == db2[5] && db1[6] == db2[6]);
        lemma_two_digits_determine(m1, m2);
        assert(db1[8] == db2[8] && db1[9] == db2[9]);
        lemma_two_digits_determine(d1, d2);
    });
}

} // verus!
