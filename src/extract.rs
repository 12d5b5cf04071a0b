//! Who a request comes from, as the request handlers receive it.
use crate::user::User;
use vstd::prelude::*;

verus! {

/// The participant a request was resolved to; `Anonymous` when it could not
/// be resolved.
pub enum BaseUser {
    User(User),
    Anonymous,
}

/// A request that must come from a known participant.
#[derive(Clone, PartialEq, Eq)]
pub struct BreakoutUser(pub User);

/// A request from a signed-in person.
pub struct CurrentUser(pub Box<User>);

/// A request from a signed-in person, or from nobody in particular.
pub struct MaybeCurrentUser(pub Option<Box<User>>);

/// A request from an administrator.
pub struct AdminUser(pub Box<User>);

/// A request that must come from nobody signed in.
pub struct NoUser;

/// The address a request comes from.
pub struct RealIp(pub String);

/// Whether `c` has the Unicode property White_Space.
pub open spec fn is_white_space(c: char) -> bool {
    let u = c as u32;
    (0x9 <= u <= 0xd) || u == 0x20 || u == 0x85 || u == 0xa0 || u == 0x1680 || (0x2000 <= u
        <= 0x200a) || u == 0x2028 || u == 0x2029 || u == 0x202f || u == 0x205f || u == 0x3000
}

/// A text without its leading white space.
pub open spec fn trim_start_of(s: Seq<char>) -> Seq<char>
    decreases s.len(),
{
    if s.len() > 0 && is_white_space(s[0]) {
        trim_start_of(s.drop_first())
    } else {
        s
    }
}

/// A text without its trailing white space.
pub open spec fn trim_end_of(s: Seq<char>) -> Seq<char>
    decreases s.len(),
{
    if s.len() > 0 && is_white_space(s.last()) {
        trim_end_of(s.drop_last())
    } else {
        s
    }
}

/// A text with the white space at both ends taken off.
pub open spec fn trim_of(s: Seq<char>) -> Seq<char> {
    trim_end_of(trim_start_of(s))
}

/// The part of a comma-separated list before its first comma; the whole text
/// if it has none.
pub open spec fn first_field(s: Seq<char>) -> Seq<char>
    decreases s.len(),
{
    if s.len() == 0 {
        s
    } else if s[0] == ',' {
        Seq::empty()
    } else {
        seq![s[0]] + first_field(s.drop_first())
    }
}

proof fn lemma_first_field(a: Seq<char>, b: Seq<char>)
    requires
        !a.contains(','),
    ensures
        first_field(a + seq![','] + b) == a,
        first_field(a) == a,
    decreases a.len(),
{
    let s = a + seq![','] + b;
    if a.len() == 0 {
        assert(s[0] == ',');
    } else {
        assert(!a.drop_first().contains(',')) by {
            if a.drop_first().contains(',') {
                let i = choose|i: int| 0 <= i < a.drop_first().len() && a.drop_first()[i] == ',';
                assert(a[i + 1] == ',');
            }
        }
        lemma_first_field(a.drop_first(), b);
        assert(s.drop_first() =~= a.drop_first() + seq![','] + b);
        assert(a[0] != ',') by {
            assert(a[0] == a[0]);
            if a[0] == ',' {
                assert(a.contains(','));
            }
        }
        assert(seq![a[0]] + a.drop_first() =~= a);
    }
}

/// Relies on `str::split_once`: the text before and after the first comma,
/// if there is one.
#[verifier::external_body]
fn split_at_comma(s: &str) -> (r: Option<(&str, &str)>)
    ensures
        match r {
            Some((before, after)) => s@ == before@ + seq![','] + after@ && !before@.contains(','),
            None => !s@.contains(','),
        },
{
    s.split_once(',')
}

/// Relies on `str::trim`, which takes off the leading and trailing characters
/// that have the Unicode property White_Space.
#[verifier::external_body]
fn trimmed(s: &str) -> (r: String)
    ensures
        r@ == trim_of(s@),
{
    s.trim().to_string()
}

/// The client's address: the first entry of the `X-Forwarded-For` list that
/// a proxy passed on, without surrounding white space; else the address of
/// the peer.
pub fn client_ip(forwarded: Option<&str>, peer: &str) -> (r: RealIp)
    ensures
        r.0@ == match forwarded {
            Some(list) => trim_of(first_field(list@)),
            None => peer@,
        },
{
    match forwarded {
        Some(list) => {
            let first = match split_at_comma(list) {
                Some((before, _)) => {
                    proof {
                        let after = choose|after: Seq<char>| list@ == before@ + seq![','] + after;
                        lemma_first_field(before@, after);
                    }
                    before
                },
                None => {
                    proof { lemma_first_field(list@, Seq::empty()); }
                    list
                },
            };
            RealIp(trimmed(first))
        },
        None => RealIp(peer.to_owned()),
    }
}

} // verus!
