//! The decision core of the administrative identity check: splitting the
//! configured administrator list, and judging the identity the access layer
//! reports.  Reading the environment and calling the identity provider stay
//! with the caller.

use vstd::prelude::*;
use vstd::string::StrSliceExecFns;

use crate::error::{Error, ErrorView};
use crate::prompt::find_occurrence;
use crate::search::{find_first, lemma_find_first_props};
use crate::text::str_eq;

verus! {

/// The fields of a comma-separated list, in order; an empty list is one
/// empty field.
pub open spec fn split_commas_spec(s: Seq<char>) -> Seq<Seq<char>>
    decreases s.len(),
    via split_commas_spec_decreases
{
    match find_first(s, seq![',']) {
        None => seq![s],
        Some(i) => seq![s.take(i)] + split_commas_spec(s.skip(i + 1)),
    }
}

#[via_fn]
proof fn split_commas_spec_decreases(s: Seq<char>) {
    lemma_find_first_props(s, seq![',']);
}

/// Split a comma-separated list into its fields.
pub fn split_commas(s: &str) -> (r: Vec<String>)
    ensures
        r.deep_view() == split_commas_spec(s@),
{
    let slen = s.unicode_len();
    let mut out: Vec<String> = Vec::new();
    let mut pos: usize = 0;
    proof {
        reveal_strlit(",");
        assert(","@ =~= seq![',']);
        assert(s@.skip(0) =~= s@);
        assert(out.deep_view() =~= Seq::<Seq<char>>::empty());
        assert(out.deep_view() + split_commas_spec(s@) =~= split_commas_spec(s@));
    }
    loop
        invariant
            slen == s@.len(),
            pos <= slen,
            ","@ == seq![','],
            split_commas_spec(s@) == out.deep_view() + split_commas_spec(s@.skip(pos as int)),
        decreases slen - pos,
    {
        let ghost out0 = out.deep_view();
        let ghost tail = s@.skip(pos as int);
        match find_occurrence(s, ",", pos) {
            None => {
                out.push(s.substring_char(pos, slen).to_owned());
                proof {
                    assert(tail =~= s@.subrange(pos as int, slen as int));
                    assert(split_commas_spec(tail) == seq![tail]);
                    assert(out.deep_view() =~= out0 + seq![tail]);
                    assert(out0 + (seq![tail] + Seq::<Seq<char>>::empty()) =~= out0 + seq![tail]);
                    assert(split_commas_spec(s@) =~= out.deep_view() + Seq::<Seq<char>>::empty())
                        by {
                        assert(split_commas_spec(s@) == out0 + split_commas_spec(tail));
                        assert(out0 + seq![tail] =~= (out0 + seq![tail]) + Seq::<
                            Seq<char>,
                        >::empty());
                    }
                }
                return out;
            },
            Some(i) => {
                out.push(s.substring_char(pos, i).to_owned());
                proof {
                    let rel = i - pos;
                    assert(split_commas_spec(tail) == seq![tail.take(rel)] + split_commas_spec(
                        tail.skip(rel + 1),
                    ));
                    assert(tail.take(rel) =~= s@.subrange(pos as int, i as int));
                    assert(tail.skip(rel + 1) =~= s@.skip(i + 1));
                    assert(out.deep_view() =~= out0 + seq![tail.take(rel)]);
                    assert(out.deep_view() + split_commas_spec(s@.skip(i + 1)) =~= out0 + (seq![
                        tail.take(rel),
                    ] + split_commas_spec(tail.skip(rel + 1))));
                }
                pos = i + 1;
            },
        }
    }
}

/// The identity the access layer reported is an administrator: it carries no
/// error, names an address, and that address stands in the configured list.
pub open spec fn is_admin(
    err: Option<Seq<char>>,
    email: Option<Seq<char>>,
    admins: Seq<Seq<char>>,
) -> bool {
    &&& err is None
    &&& match email {
        Some(e) => admins.contains(e),
        None => false,
    }
}

/// Judge a reported identity against the configured administrator list.
/// Anything short of a clean, listed identity is forbidden.
#[verifier::loop_isolation(false)]
pub fn check_admin(err: Option<String>, email: Option<String>, admins: &Vec<String>) -> (r: Result<
    (),
    Error,
>)
    ensures
        r is Ok <==> is_admin(err.deep_view(), email.deep_view(), admins.deep_view()),
        r matches Err(e) ==> e@ == ErrorView::Forbidden(Seq::<Seq<char>>::empty()),
{
    match err {
        Some(_) => {
            return Err(forbidden());
        },
        None => {},
    }
    let email = match email {
        Some(e) => e,
        None => {
            return Err(forbidden());
        },
    };
    let mut i: usize = 0;
    while i < admins.len()
        invariant
            i <= admins@.len(),
            forall|j: int| 0 <= j < i ==> admins.deep_view()[j] != email@,
        decreases admins@.len() - i,
    {
        proof {
            assert(admins.deep_view()[i as int] == admins@[i as int]@);
        }
        if str_eq(admins[i].as_str(), email.as_str()) {
            proof {
                assert(admins.deep_view()[i as int] == email@);
                assert(admins.deep_view().contains(email@));
            }
            return Ok(());
        }
        i = i + 1;
    }
    proof {
        if admins.deep_view().contains(email@) {
            let j = choose|j: int|
                0 <= j < admins.deep_view().len() && admins.deep_view()[j] == email@;
            assert(admins.deep_view()[j] != email@);
        }
    }
    Err(forbidden())
}

/// The rejection of a failed identity check.
fn forbidden() -> (e: Error)
    ensures
        e@ == ErrorView::Forbidden(Seq::<Seq<char>>::empty()),
{
    let codes: Vec<String> = Vec::new();
    proof {
        assert(codes.deep_view() =~= Seq::<Seq<char>>::empty());
    }
    Error::Forbidden(codes)
}

} // verus!
