//! Encryption and decryption: letter-wise addition and subtraction of key
//! ordinals modulo 26.

use vstd::prelude::*;
use vstd::arithmetic::div_mod::lemma_mod_bound;
use vstd::std_specs::iter::IteratorSpec;
use vstd::string::{axiom_spec_iter, next_postcondition};

use crate::alphabet::{
    all_letters, char_to_num, is_letter, lemma_letter_ord, letter, num_to_char, ord,
};
use crate::error::CipherError;
use crate::key::{extend_key, lemma_effective_key_index, lemma_effective_key_letters};

verus! {

/// Encrypts one letter: `(ord(c) + ord(k)) mod 26`.
pub open spec fn shift_up(c: char, k: char) -> char {
    letter((ord(c) + ord(k)) % 26)
}

/// Decrypts one letter: `(ord(c) - ord(k))` taken modulo 26 into `0..26`.
pub open spec fn shift_down(c: char, k: char) -> char {
    letter((ord(c) - ord(k)) % 26)
}

/// The encryption of `p` under `k`, the key repeated as far as `p` reaches.
pub open spec fn encipher(p: Seq<char>, k: Seq<char>) -> Seq<char> {
    Seq::new(p.len(), |i: int| shift_up(p[i], k[i % (k.len() as int)]))
}

/// The decryption of `c` under `k`, the key repeated as far as `c` reaches.
pub open spec fn decipher(c: Seq<char>, k: Seq<char>) -> Seq<char> {
    Seq::new(c.len(), |i: int| shift_down(c[i], k[i % (k.len() as int)]))
}

/// Why a text and a key are refused, if they are: an empty key first, then a
/// character outside `a`..`z` in either.
pub open spec fn refusal(t: Seq<char>, k: Seq<char>) -> Option<CipherError> {
    if k.len() == 0 {
        Some(CipherError::InvalidKey)
    } else if !all_letters(t) || !all_letters(k) {
        Some(CipherError::InvalidCharacter)
    } else {
        None
    }
}

/// The ordinals of the characters of `s`, or `None` where one of them is not
/// a lowercase letter.
fn ordinals_of(s: &str) -> (r: Option<Vec<u32>>)
    ensures
        r is Some <==> all_letters(s@),
        r matches Some(v) ==> v@.len() == s@.len() && forall|i: int|
            0 <= i < v@.len() ==> (#[trigger] v@[i]) as int == ord(s@[i]) && v@[i] < 26,
{
    broadcast use axiom_spec_iter, next_postcondition;

    let mut it = s.chars();
    let mut v: Vec<u32> = Vec::new();
    loop
        invariant
            it.obeys_prophetic_iter_laws(),
            v@.len() + it.remaining().len() == s@.len(),
            it.remaining() == s@.skip(v@.len() as int),
            forall|i: int| 0 <= i < v@.len() ==> is_letter(#[trigger] s@[i]),
            forall|i: int|
                0 <= i < v@.len() ==> (#[trigger] v@[i]) as int == ord(s@[i]) && v@[i] < 26,
        decreases s@.len() - v@.len(),
    {
        match it.next() {
            None => {
                return Some(v);
            },
            Some(c) => {
                assert(c == s@[v@.len() as int]);
                match char_to_num(c) {
                    None => {
                        return None;
                    },
                    Some(n) => {
                        v.push(n);
                    },
                }
            },
        }
    }
}

/// Decrypting under a key what was encrypted under it gives the plaintext
/// back; the ciphertext consists of letters, so decryption accepts it.
pub proof fn lemma_round_trip(p: Seq<char>, k: Seq<char>)
    requires
        all_letters(p),
        all_letters(k),
        k.len() > 0,
    ensures
        all_letters(encipher(p, k)),
        refusal(encipher(p, k), k) is None,
        decipher(encipher(p, k), k) == p,
{
    let c = encipher(p, k);
    assert forall|i: int| 0 <= i < p.len() implies is_letter(#[trigger] c[i]) && decipher(c, k)[i]
        == p[i] by {
        let kc = k[i % (k.len() as int)];
        lemma_mod_bound(i, k.len() as int);
        let a = ord(p[i]);
        let b = ord(kc);
        lemma_letter_ord((a + b) % 26);
        lemma_letter_ord((((a + b) % 26) - b) % 26);
        assert((((a + b) % 26) - b) % 26 == a);
        assert(letter(a) == p[i]);
    }
    assert(decipher(c, k) =~= p);
}

/// The ordinals of `text` and of the key paired with it, position by
/// position, or why the two are refused.
fn prepare(text: &str, key: &str) -> (r: Result<(Vec<u32>, Vec<u32>), CipherError>)
    ensures
        refusal(text@, key@) matches Some(e) ==> r == Err::<(Vec<u32>, Vec<u32>), CipherError>(e),
        refusal(text@, key@) is None ==> (r matches Ok((t, k)) && t@.len() == text@.len()
            && k@.len() >= t@.len() && forall|i: int|
            0 <= i < t@.len() ==> {
                &&& (#[trigger] t@[i]) < 26
                &&& k@[i] < 26
                &&& t@[i] as int == ord(text@[i])
                &&& k@[i] as int == ord(key@[i % (key@.len() as int)])
            }),
{
    let len = text.unicode_len();
    let effective = match extend_key(key, len) {
        Ok(s) => s,
        Err(e) => {
            return Err(e);
        },
    };
    proof {
        lemma_effective_key_letters(key@, len as nat);
    }
    let t = match ordinals_of(text) {
        Some(t) => t,
        None => {
            return Err(CipherError::InvalidCharacter);
        },
    };
    let k = match ordinals_of(effective.as_str()) {
        Some(k) => k,
        None => {
            return Err(CipherError::InvalidCharacter);
        },
    };
    proof {
        assert forall|i: int| 0 <= i < t@.len() implies k@[i] as int == ord(
            key@[i % (key@.len() as int)],
        ) by {
            lemma_effective_key_index(key@, len as nat, i);
        }
    }
    Ok((t, k))
}

/// Pairs text ordinals with key ordinals and turns each sum (or, when
/// `decrypting`, each difference) modulo 26 back into a letter.
fn combine(t: &Vec<u32>, k: &Vec<u32>, decrypting: bool) -> (r: String)
    requires
        k@.len() >= t@.len(),
        forall|i: int| 0 <= i < t@.len() ==> (#[trigger] t@[i]) < 26 && k@[i] < 26,
    ensures
        r@.len() == t@.len(),
        forall|i: int|
            0 <= i < t@.len() ==> (#[trigger] r@[i]) == if decrypting {
                letter((t@[i] - k@[i]) % 26)
            } else {
                letter((t@[i] + k@[i]) % 26)
            },
{
    let mut out = String::new();
    let mut i: usize = 0;
    while i < t.len()
        invariant
            i <= t@.len(),
            k@.len() >= t@.len(),
            forall|j: int| 0 <= j < t@.len() ==> (#[trigger] t@[j]) < 26 && k@[j] < 26,
            out@.len() == i,
            forall|j: int|
                0 <= j < i ==> (#[trigger] out@[j]) == if decrypting {
                    letter((t@[j] - k@[j]) % 26)
                } else {
                    letter((t@[j] + k@[j]) % 26)
                },
        decreases t@.len() - i,
    {
        let n: u32 = if decrypting {
            (t[i] + 26 - k[i]) % 26
        } else {
            (t[i] + k[i]) % 26
        };
        assert(decrypting ==> n as int == (t@[i as int] - k@[i as int]) % 26);
        out.push(num_to_char(n));
        i = i + 1;
    }
    out
}

/// Encrypts `plaintext` under `key`: each letter is shifted forward by the
/// ordinal of the key letter paired with it, the key being repeated when it is
/// shorter than the text.
pub fn encrypt(plaintext: &str, key: &str) -> (r: Result<String, CipherError>)
    ensures
        refusal(plaintext@, key@) matches Some(e) ==> r == Err::<String, CipherError>(e),
        refusal(plaintext@, key@) is None ==> (r matches Ok(c) && c@ == encipher(
            plaintext@,
            key@,
        )),
{
    let (t, k) = match prepare(plaintext, key) {
        Ok(p) => p,
        Err(e) => {
            return Err(e);
        },
    };
    let c = combine(&t, &k, false);
    assert(c@ =~= encipher(plaintext@, key@));
    Ok(c)
}

/// Decrypts `ciphertext` under `key`: each letter is shifted back by the
/// ordinal of the key letter paired with it, wrapping round below `a`.
pub fn decrypt(ciphertext: &str, key: &str) -> (r: Result<String, CipherError>)
    ensures
        refusal(ciphertext@, key@) matches Some(e) ==> r == Err::<String, CipherError>(e),
        refusal(ciphertext@, key@) is None ==> (r matches Ok(p) && p@ == decipher(
            ciphertext@,
            key@,
        )),
{
    let (t, k) = match prepare(ciphertext, key) {
        Ok(p) => p,
        Err(e) => {
            return Err(e);
        },
    };
    let p = combine(&t, &k, true);
    assert(p@ =~= decipher(ciphertext@, key@));
    Ok(p)
}

} // verus!
