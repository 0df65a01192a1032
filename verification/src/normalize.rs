//! Identifier normalization: a display name maps to its store key by
//! lowercasing and keeping only ASCII alphanumeric characters. This rule is
//! the primary-key derivation and is shared by every path that names a record.

use vstd::prelude::*;
use vstd::string::StrSliceExecFns;

verus! {

/// What `str::to_lowercase` returns: a function of the characters alone.
pub uninterp spec fn lower_of(s: Seq<char>) -> Seq<char>;

/// Relies on `str::to_lowercase`: the Unicode lowercase of the string,
/// depending only on its characters; empty input stays empty.
#[verifier::external_body]
fn lowercase(s: &str) -> (r: String)
    ensures
        r@ == lower_of(s@),
        s@.len() == 0 ==> r@.len() == 0,
{
    s.to_lowercase()
}

/// Relies on `String::push`: appends one character at the end.
#[verifier::external_body]
fn push_char(s: &mut String, c: char)
    ensures
        final(s)@ == old(s)@.push(c),
{
    s.push(c)
}

/// ASCII alphanumeric: a digit or an ASCII letter of either case.
pub open spec fn is_id_char(c: char) -> bool {
    (48 <= c as u32 && c as u32 <= 57) || (97 <= c as u32 && c as u32 <= 122) || (65 <= c as u32
        && c as u32 <= 90)
}

/// The normalized identifier of a display name: its lowercase form with
/// everything but ASCII alphanumeric characters removed.
pub open spec fn normalized(s: Seq<char>) -> Seq<char> {
    lower_of(s).filter(|c: char| is_id_char(c))
}

/// Normalize a display name into a store key.
pub fn to_id(text: &str) -> (r: String)
    ensures
        r@ == normalized(text@),
{
    let lowered = lowercase(text);
    let n = lowered.as_str().unicode_len();
    let mut out = String::new();
    for i in 0..n
        invariant
            n == lowered@.len(),
            lowered@ == lower_of(text@),
            out@ == lowered@.take(i as int).filter(|c: char| is_id_char(c)),
    {
        let c = lowered.as_str().get_char(i);
        proof {
            reveal_with_fuel(Seq::filter, 2);
            let t = lowered@.take(i + 1);
            assert(t.drop_last() =~= lowered@.take(i as int));
            assert(t.last() == c);
            assert(t.filter(|c: char| is_id_char(c)) == if is_id_char(c) {
                t.drop_last().filter(|c: char| is_id_char(c)).push(c)
            } else {
                t.drop_last().filter(|c: char| is_id_char(c))
            });
        }
        let u = c as u32;
        if (48 <= u && u <= 57) || (97 <= u && u <= 122) || (65 <= u && u <= 90) {
            push_char(&mut out, c);
        }
    }
    proof {
        assert(lowered@.take(n as int) =~= lowered@);
    }
    out
}

/// Derive the store key for a username; `None` when nothing remains after
/// normalization, in which case the name is rejected as invalid.
pub fn username_key(username: &str) -> (r: Option<String>)
    ensures
        match r {
            Some(k) => k@ == normalized(username@) && k@.len() > 0,
            None => normalized(username@).len() == 0,
        },
{
    let id = to_id(username);
    if id.as_str().is_empty() {
        None
    } else {
        Some(id)
    }
}

} // verus!
