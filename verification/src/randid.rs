//! Random identifier generation: a fixed-length draw from a fixed
//! alphanumeric character set, with the random choice itself made by the
//! `rand` crate behind a trusted wrapper.

use vstd::prelude::*;

use crate::text::push_char;

verus! {

/// The character set random identifiers draw from.
pub open spec fn rand_charset() -> Seq<char> {
    "ABCDEFGHIJKLMNOPQRSTUVWXYZabcdefghijklmnopqrstuvwxyz0123456789"@
}

/// Relies on rand's `Rng::gen_range` over `0..bound` on the thread-local
/// generator: the drawn value is always strictly below the bound. The bound
/// must be positive, as `gen_range` does not return on an empty range.
#[verifier::external_body]
fn rand_below(bound: usize) -> (r: usize)
    requires
        bound > 0,
    ensures
        r < bound,
{
    let mut rng = rand::thread_rng();
    rand::Rng::gen_range(&mut rng, 0..bound)
}

/// Draws a ten-character random identifier; every character comes from the
/// fixed character set, whatever the generator returns.
pub fn generate_rand_string() -> (r: String)
    ensures
        r@.len() == 10,
        forall|i: int| 0 <= i < r@.len() ==> rand_charset().contains(#[trigger] r@[i]),
{
    let charset: &str = "ABCDEFGHIJKLMNOPQRSTUVWXYZabcdefghijklmnopqrstuvwxyz0123456789";
    proof {
        reveal_strlit("ABCDEFGHIJKLMNOPQRSTUVWXYZabcdefghijklmnopqrstuvwxyz0123456789");
    }
    let mut s = String::new();
    let mut i: usize = 0;
    while i < 10
        invariant
            i <= 10,
            s@.len() == i,
            charset@ == rand_charset(),
            charset@.len() == 62,
            forall|j: int| 0 <= j < i ==> rand_charset().contains(#[trigger] s@[j]),
        decreases 10 - i,
    {
        let idx = rand_below(62);
        let c = charset.get_char(idx);
        proof {
            assert(rand_charset()[idx as int] == c);
            assert(rand_charset().contains(c));
        }
        push_char(&mut s, c);
        i += 1;
    }
    s
}

} // verus!
