//! Continuation tokens: eight symbols drawn from the upper case letters and
//! the digits.

use vstd::prelude::*;
use rand::Rng;

verus! {

/// The number of symbols in a token.
pub const KEY_LENGTH: usize = 8;

/// The number of symbols in the token alphabet.
pub const ALPHABET_SIZE: u8 = 36;

/// The symbol that stands at index `n` of the alphabet: `A` to `Z` at 0 to
/// 25, then `0` to `9`.
pub open spec fn symbol_at(n: int) -> char {
    if n < 26 {
        (n + 65) as char
    } else {
        (n - 26 + 48) as char
    }
}

/// Whether `c` is a symbol of the token alphabet.
pub open spec fn is_key_symbol(c: char) -> bool {
    ('A' <= c && c <= 'Z') || ('0' <= c && c <= '9')
}

/// Whether `s` has the form of a token: eight symbols of the alphabet.
pub open spec fn is_key(s: Seq<char>) -> bool {
    &&& s.len() == KEY_LENGTH
    &&& forall|i: int| 0 <= i < s.len() ==> is_key_symbol(#[trigger] s[i])
}

/// Calls `Rng::gen_range` on the thread-local generator of `rand` with the
/// half-open range from 0 to `bound`. The range must not be empty; the
/// number drawn lies in it. Nothing else is known of the number.
#[verifier::external_body]
fn random_below(bound: u8) -> (n: u8)
    requires
        bound > 0,
    ensures
        n < bound,
{
    rand::thread_rng().gen_range(0..bound)
}

/// The alphabet symbol with index `n`.
pub fn symbol(n: u8) -> (c: char)
    requires
        n < ALPHABET_SIZE,
    ensures
        c == symbol_at(n as int),
        is_key_symbol(c),
{
    if n < 26 {
        (n + 65) as char
    } else {
        (n - 26 + 48) as char
    }
}

/// A fresh token: eight symbols, each drawn at random from the alphabet.
pub fn random_key() -> (key: String)
    ensures
        is_key(key@),
{
    let mut key = String::new();
    let mut i: usize = 0;
    while i < KEY_LENGTH
        invariant
            i <= KEY_LENGTH,
            key@.len() == i,
            forall|k: int| 0 <= k < key@.len() ==> is_key_symbol(#[trigger] key@[k]),
        decreases KEY_LENGTH - i,
    {
        let n = random_below(ALPHABET_SIZE);
        key.push(symbol(n));
        i = i + 1;
    }
    key
}

} // verus!
