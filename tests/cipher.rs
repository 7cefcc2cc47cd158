use vigenere::{char_to_num, decrypt, encrypt, extend_key, num_to_char, random_key, CipherError};

const ASCII_LOWER: [char; 26] = [
    'a', 'b', 'c', 'd', 'e', 'f', 'g', 'h', 'i', 'j', 'k', 'l', 'm', 'n', 'o', 'p', 'q', 'r', 's',
    't', 'u', 'v', 'w', 'x', 'y', 'z',
];

#[test]
fn test_num_to_chars() {
    assert_eq!(num_to_char(0), ASCII_LOWER[0]);
    assert_eq!(num_to_char(22), ASCII_LOWER[22]);
}

#[test]
fn test_char_to_nums() {
    assert_eq!(char_to_num(ASCII_LOWER[7]), Some(7));
    assert_eq!(char_to_num(ASCII_LOWER[15]), Some(15));
}

#[test]
fn test_encrypt() {
    let plaintext = "abc";
    let key = "bcz";
    assert_eq!(encrypt(plaintext, key).unwrap(), "bdb");
}

#[test]
fn test_encrypt_decrypt() {
    let plaintext = "asdfsdgsdfsda";
    let key = "ayrj";
    assert_eq!(decrypt(&encrypt(plaintext, key).unwrap(), key).unwrap(), plaintext);
}

#[test]
fn tables_are_inverse_over_the_alphabet() {
    for n in 0..26u32 {
        let c = num_to_char(n);
        assert_eq!(c, ASCII_LOWER[n as usize]);
        assert_eq!(char_to_num(c), Some(n));
    }
    assert_eq!(num_to_char(25), 'z');
}

#[test]
fn char_to_num_rejects_non_letters() {
    assert_eq!(char_to_num('A'), None);
    assert_eq!(char_to_num('1'), None);
    assert_eq!(char_to_num('{'), None);
    assert_eq!(char_to_num('`'), None);
    assert_eq!(char_to_num('é'), None);
}

#[test]
fn extend_key_repeats_cyclically() {
    assert_eq!(extend_key("ab", 5).unwrap(), "ababa");
    assert_eq!(extend_key("abc", 7).unwrap(), "abcabca");
    assert_eq!(extend_key("z", 3).unwrap(), "zzz");
}

#[test]
fn extend_key_leaves_long_key_unchanged() {
    assert_eq!(extend_key("abc", 3).unwrap(), "abc");
    assert_eq!(extend_key("abcdef", 2).unwrap(), "abcdef");
    assert_eq!(extend_key("abc", 0).unwrap(), "abc");
}

#[test]
fn extend_key_refuses_empty_key() {
    assert_eq!(extend_key("", 4), Err(CipherError::InvalidKey));
    assert_eq!(extend_key("", 0), Err(CipherError::InvalidKey));
}

#[test]
fn encrypt_wraps_round() {
    assert_eq!(encrypt("z", "b").unwrap(), "a");
}

#[test]
fn decrypt_wraps_round() {
    assert_eq!(decrypt("a", "b").unwrap(), "z");
}

#[test]
fn encrypt_literal_scenario() {
    assert_eq!(encrypt("abc", "bcz").unwrap(), "bdb");
    assert_eq!(decrypt("bdb", "bcz").unwrap(), "abc");
}

#[test]
fn encrypt_extends_short_key() {
    // key "ab" becomes "ababa"
    assert_eq!(encrypt("aaaaa", "ab").unwrap(), "ababa");
    assert_eq!(encrypt("hello", "b").unwrap(), "ifmmp");
}

#[test]
fn encrypt_uses_only_prefix_of_long_key() {
    assert_eq!(encrypt("aa", "bcdef").unwrap(), "bc");
    assert_eq!(decrypt("bc", "bcdef").unwrap(), "aa");
}

#[test]
fn empty_text_gives_empty_result() {
    assert_eq!(encrypt("", "key").unwrap(), "");
    assert_eq!(decrypt("", "key").unwrap(), "");
}

#[test]
fn encrypt_refuses_invalid_input() {
    assert_eq!(encrypt("ab1", "key"), Err(CipherError::InvalidCharacter));
    assert_eq!(encrypt("abc", ""), Err(CipherError::InvalidKey));
    assert_eq!(encrypt("abc", "kEy"), Err(CipherError::InvalidCharacter));
    // a bad character past the end of the text is still refused
    assert_eq!(encrypt("ab", "key!"), Err(CipherError::InvalidCharacter));
    assert_eq!(encrypt("", ""), Err(CipherError::InvalidKey));
    assert_eq!(encrypt("a1", ""), Err(CipherError::InvalidKey));
}

#[test]
fn decrypt_refuses_invalid_input() {
    assert_eq!(decrypt("a b", "key"), Err(CipherError::InvalidCharacter));
    assert_eq!(decrypt("abc", ""), Err(CipherError::InvalidKey));
    assert_eq!(decrypt("abc", "k3y"), Err(CipherError::InvalidCharacter));
}

#[test]
fn round_trip_over_several_keys() {
    let texts = ["", "a", "z", "thequickbrownfoxjumpsoverthelazydog", "zzzzzzzz"];
    let keys = ["a", "z", "ayrj", "lemon", "averyveryverylongkeyindeedlongerthanthetext"];
    for p in texts.iter() {
        for k in keys.iter() {
            let c = encrypt(p, k).unwrap();
            assert_eq!(c.chars().count(), p.chars().count());
            assert_eq!(decrypt(&c, k).unwrap(), *p);
        }
    }
}

#[test]
fn random_key_has_requested_length_of_letters() {
    assert_eq!(random_key(0), "");
    for n in [1usize, 5, 26, 100] {
        let k = random_key(n);
        assert_eq!(k.chars().count(), n);
        assert!(k.chars().all(|c| c.is_ascii_lowercase()));
    }
}

#[test]
fn random_key_draws_every_letter_evenly() {
    let n = 26_000usize;
    let k = random_key(n);
    let mut counts = [0usize; 26];
    for c in k.chars() {
        counts[(c as u8 - b'a') as usize] += 1;
    }
    // expected 1000 per letter; these bounds are many standard deviations wide
    for (i, &count) in counts.iter().enumerate() {
        assert!(count > 700 && count < 1300, "letter {} drawn {} times", i, count);
    }
}

#[test]
fn random_key_works_as_a_key() {
    let k = random_key(8);
    let c = encrypt("attackatdawn", &k).unwrap();
    assert_eq!(decrypt(&c, &k).unwrap(), "attackatdawn");
}
