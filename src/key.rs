//! Keys: extending a short key by repetition, and drawing a random one.

use rand::Rng;
use vstd::prelude::*;
use vstd::arithmetic::div_mod::{lemma_mod_bound, lemma_small_mod};

use crate::alphabet::{all_letters, is_letter, num_to_char, ALPHABET_LEN};
use crate::error::CipherError;

verus! {

/// The key `k` repeated cyclically to length `n`: position `i` holds
/// `k[i mod |k|]`.
pub open spec fn cycle(k: Seq<char>, n: nat) -> Seq<char>
    recommends
        k.len() > 0,
{
    Seq::new(n, |i: int| k[i % (k.len() as int)])
}

/// The key that pairs with a text of `n` characters: `k` itself when it is
/// long enough, else `k` repeated to length `n`.
pub open spec fn effective_key(k: Seq<char>, n: nat) -> Seq<char> {
    if n <= k.len() {
        k
    } else {
        cycle(k, n)
    }
}

/// A key cycled to its own length is the key itself.
pub proof fn lemma_cycle_own_length(k: Seq<char>)
    requires
        k.len() > 0,
    ensures
        cycle(k, k.len()) == k,
{
    assert forall|i: int| 0 <= i < k.len() implies #[trigger] cycle(k, k.len())[i] == k[i] by {
        lemma_small_mod(i as nat, k.len());
    }
    assert(cycle(k, k.len()) =~= k);
}

/// Position `i` of the effective key for a text of `n` characters holds
/// `k[i mod |k|]`.
pub proof fn lemma_effective_key_index(k: Seq<char>, n: nat, i: int)
    requires
        k.len() > 0,
        0 <= i < n,
    ensures
        effective_key(k, n).len() >= n,
        effective_key(k, n)[i] == k[i % (k.len() as int)],
{
    if n <= k.len() {
        lemma_small_mod(i as nat, k.len());
    }
}

/// The effective key consists of letters exactly when the key does.
pub proof fn lemma_effective_key_letters(k: Seq<char>, n: nat)
    requires
        k.len() > 0,
    ensures
        all_letters(effective_key(k, n)) <==> all_letters(k),
{
    if n > k.len() {
        let e = effective_key(k, n);
        if all_letters(k) {
            assert forall|i: int| 0 <= i < e.len() implies is_letter(#[trigger] e[i]) by {
                lemma_mod_bound(i, k.len() as int);
            }
        }
        if all_letters(e) {
            assert forall|i: int| 0 <= i < k.len() implies is_letter(#[trigger] k[i]) by {
                lemma_small_mod(i as nat, k.len());
                assert(e[i] == k[i]);
            }
        }
    }
}

/// Extends `old_key` by repeating its characters in order until it is
/// `required_length` long. A key already that long is returned unchanged.
/// An empty key cannot be extended.
pub fn extend_key(old_key: &str, required_length: usize) -> (r: Result<String, CipherError>)
    ensures
        old_key@.len() == 0 <==> r is Err,
        r matches Err(e) ==> e == CipherError::InvalidKey,
        r matches Ok(s) ==> s@ == effective_key(old_key@, required_length as nat),
{
    let len = old_key.unicode_len();
    if len == 0 {
        return Err(CipherError::InvalidKey);
    }
    let mut new_key = old_key.to_owned();
    proof {
        lemma_cycle_own_length(old_key@);
    }
    let mut i: usize = len;
    while i < required_length
        invariant
            len == old_key@.len(),
            len > 0,
            len <= i,
            i == len || i <= required_length,
            new_key@ == cycle(old_key@, i as nat),
        decreases required_length - i,
    {
        let c = old_key.get_char(i % len);
        new_key.push(c);
        assert(new_key@ =~= cycle(old_key@, (i + 1) as nat));
        i = i + 1;
    }
    Ok(new_key)
}

/// Relies on `rand::Rng::gen_range` with `rand::rngs::OsRng`: a number drawn
/// from the operating system's random source, uniformly from the half-open
/// range `0..bound`. `gen_range` panics on an empty range, which `requires`
/// leaves out; `OsRng` panics only if the operating system's source fails.
#[verifier::external_body]
fn draw_below(bound: u32) -> (r: u32)
    requires
        bound > 0,
    ensures
        r < bound,
{
    rand::rngs::OsRng.gen_range(0..bound)
}

/// A random key of `length` letters, each drawn independently and uniformly
/// from the whole alphabet `a`..`z`.
pub fn random_key(length: usize) -> (r: String)
    ensures
        r@.len() == length,
        all_letters(r@),
{
    let mut key = String::new();
    let mut i: usize = 0;
    while i < length
        invariant
            i <= length,
            key@.len() == i,
            all_letters(key@),
        decreases length - i,
    {
        let n = draw_below(ALPHABET_LEN);
        key.push(num_to_char(n));
        i = i + 1;
    }
    key
}

} // verus!
