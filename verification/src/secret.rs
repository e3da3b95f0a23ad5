//! Operations on the strings that hold passwords.

use vstd::prelude::*;
use zeroize::Zeroize;

verus! {

/// `zeroize::Zeroize::zeroize` on a string: the memory that it uses is
/// overwritten with zeros, and the string that is left is empty.
#[verifier::external_body]
fn wiped(secret: String) -> (left: String)
    ensures
        left@ == Seq::<char>::empty(),
{
    let mut left = secret;
    left.zeroize();
    left
}

/// Whether `left` is what the wiping of `secret` leaves: an outcome of `wiped`
/// on that very string.
pub closed spec fn wipes(secret: String, left: String) -> bool {
    call_ensures(wiped, (secret,), left)
}

/// Wipe a string in place.
pub fn wipe(secret: &mut String)
    ensures
        wipes(*old(secret), *final(secret)),
        final(secret)@ == Seq::<char>::empty(),
{
    let mut held: String = String::new();
    std::mem::swap(&mut held, secret);
    *secret = wiped(held);
}

/// A string that was wiped is empty.
pub proof fn lemma_wiped_is_empty(secret: String, left: String)
    requires
        wipes(secret, left),
    ensures
        left@ == Seq::<char>::empty(),
{
}

/// `String::pop`: takes the last character off, if there is one.
pub assume_specification[ std::string::String::pop ](s: &mut String) -> (last: Option<char>)
    ensures
        old(s)@.len() == 0 ==> last is None && final(s)@ == old(s)@,
        old(s)@.len() > 0 ==> last == Some(old(s)@.last()) && final(s)@ == old(s)@.drop_last(),
;

/// Nothing else is a wiping: what is left of a secret is what the wiping of that
/// very string gave.
proof fn lemma_only_wiping_wipes(secret: String, left: String)
    ensures
        wipes(secret, left) <==> call_ensures(wiped, (secret,), left),
{
}

} // verus!
