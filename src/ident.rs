use rand::Rng;
use vstd::prelude::*;
use vstd::std_specs::iter::IteratorSpec;

verus! {

/// Length of a generated paste identifier, in characters.
pub const PASTE_ID_LENGTH: usize = 22;

/// An ASCII letter or digit.
pub open spec fn is_alphanumeric(c: char) -> bool {
    ('A' <= c <= 'Z') || ('a' <= c <= 'z') || ('0' <= c <= '9')
}

/// The shape of a generated identifier: `PASTE_ID_LENGTH` ASCII letters and digits.
pub open spec fn is_paste_id(id: Seq<char>) -> bool {
    &&& id.len() == PASTE_ID_LENGTH
    &&& forall|i: int| 0 <= i < id.len() ==> is_alphanumeric(#[trigger] id[i])
}

/// Relies on rand 0.8's `thread_rng` sampled through `distributions::Alphanumeric`:
/// each draw is one of `A-Z`, `a-z`, `0-9`, and the iterator never ends, so `take(n)`
/// yields exactly `n` of them.
#[verifier::external_body]
fn draw_alphanumeric(n: usize) -> (r: String)
    ensures
        r@.len() == n,
        forall|i: int| 0 <= i < r@.len() ==> is_alphanumeric(#[trigger] r@[i]),
{
    rand::thread_rng().sample_iter(&rand::distributions::Alphanumeric).take(n).map(char::from).collect()
}

/// A fresh random identifier of `PASTE_ID_LENGTH` ASCII letters and digits.
pub fn generate_paste_id() -> (r: String)
    ensures
        is_paste_id(r@),
{
    draw_alphanumeric(PASTE_ID_LENGTH)
}

/// Whether `id` may be looked up: non-empty and at most `MAX_ID_LENGTH` characters.
///
/// Stops reading after `MAX_ID_LENGTH + 1` characters.
pub fn is_valid_lookup_id(id: &str) -> (r: bool)
    ensures
        r == crate::store::is_valid_id(id@),
{
    broadcast use vstd::string::axiom_spec_iter, vstd::string::next_postcondition;

    let mut chars = id.chars();
    let mut n: usize = 0;
    loop
        invariant
            n <= crate::store::MAX_ID_LENGTH,
            n <= id@.len(),
            chars.remaining() == id@.skip(n as int),
        decreases id@.len() - n,
    {
        match chars.next() {
            None => {
                return n > 0;
            },
            Some(_) => {
                if n == crate::store::MAX_ID_LENGTH {
                    return false;
                }
                n += 1;
            },
        }
    }
}

} // verus!
