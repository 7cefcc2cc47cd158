//! The mapping between the 26 lowercase letters and their ordinals `0..26`.

use vstd::prelude::*;

verus! {

/// The number of letters in the alphabet.
pub const ALPHABET_LEN: u32 = 26;

/// A lowercase Latin letter, `a` through `z`.
pub open spec fn is_letter(c: char) -> bool {
    'a' <= c && c <= 'z'
}

/// Every character of `s` is a lowercase letter.
pub open spec fn all_letters(s: Seq<char>) -> bool {
    forall|i: int| 0 <= i < s.len() ==> is_letter(#[trigger] s[i])
}

/// The ordinal of a letter: `a` is 0, `z` is 25.
pub open spec fn ord(c: char) -> int {
    (c as u32) as int - ('a' as u32) as int
}

/// The letter with ordinal `n`, for `0 <= n < 26`.
pub open spec fn letter(n: int) -> char {
    ((n + ('a' as u32) as int) as u32) as char
}

/// The letter with ordinal `n` is a letter, and its ordinal is `n`.
pub proof fn lemma_letter_ord(n: int)
    requires
        0 <= n < 26,
    ensures
        is_letter(letter(n)),
        ord(letter(n)) == n,
{
}

/// The letter whose ordinal is `n`.
pub fn num_to_char(n: u32) -> (c: char)
    requires
        n < ALPHABET_LEN,
    ensures
        c == letter(n as int),
        is_letter(c),
        ord(c) == n as int,
{
    let b: u8 = 97u8 + n as u8;
    b as char
}

/// The ordinal of `c`, or `None` where `c` is not a lowercase letter.
pub fn char_to_num(c: char) -> (r: Option<u32>)
    ensures
        is_letter(c) <==> r.is_some(),
        r matches Some(n) ==> n as int == ord(c) && n < ALPHABET_LEN && letter(n as int) == c,
{
    if 'a' <= c && c <= 'z' {
        Some(c as u32 - 'a' as u32)
    } else {
        None
    }
}

} // verus!
