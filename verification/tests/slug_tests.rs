use sluggen::slug;
use sluggen::slug_rand;
use sluggen::slug_rand_c;
use sluggen::slug_rand_sep;
use sluggen::slug_rand_sep_c;
use sluggen::slug_sep;
use sluggen::SlugError;

#[test]
fn test_hello_world() {
    assert_eq!("hello-world", slug("hello world"));
    assert_eq!("hello_world", slug_sep("hello world", "_"));
    assert_eq!("helloworld", slug_sep("hello world", ""));
    assert_eq!("hello%%world", slug_sep("hello world", "%%"));
}

#[test]
fn test_email() {
    assert_eq!(slug("alice@bob.com"), "alice-bob-com");
    assert_eq!(slug("alice@bob.com"), "alice-bob-com");
}

#[test]
fn test_starts_with_number() {
    assert_eq!(slug("10 amazing secrets"), "10-amazing-secrets");
}

#[test]
fn test_contains_numbers() {
    assert_eq!(slug("the 101 dalmatians"), "the-101-dalmatians");
    assert_eq!(
        slug_rand("the 101 dalmatians").len(),
        "the-101-dalmatians".len() + 1 + 5
    );
    assert_eq!(
        slug_rand_c("the 101 dalmatians", 10).unwrap().len(),
        "the-101-dalmatians".len() + 1 + 10
    );
    assert_eq!(
        slug_rand_sep_c("the 101 dalmatians", "_", 10).unwrap().len(),
        "the-101-dalmatians".len() + 1 + 10
    );
}

#[test]
fn test_ends_with_number() {
    assert_eq!(slug("lucky number 7"), "lucky-number-7");
}

#[test]
fn test_numbers_and_symbols() {
    assert_eq!(slug("1000 reasons you are #1"), "1000-reasons-you-are-1");
}

#[test]
fn test_separator() {
    assert_eq!(slug_sep("hello world", "."), "hello.world");
    assert_eq!(slug_sep("hello world", "_"), "hello_world");
    assert_eq!(
        slug_rand_sep("hello world-", "_").len(),
        "hello_world".len() + 1 + 5
    );
}

#[test]
fn test_phonetic_conversion() {
    assert_eq!(slug("影師嗎"), "ying-shi-ma");
}

#[test]
fn test_accented_text() {
    assert_eq!(slug("Æúű--cool?"), "aeuu-cool");
    assert_eq!(
        slug("Nín hǎo. Wǒ shì zhōng guó rén"),
        "nin-hao-wo-shi-zhong-guo-ren"
    );
}

#[test]
fn test_accented_text_non_word_chars() {
    assert_eq!(slug("jaja---lol-méméméoo--a"), "jaja-lol-mememeoo-a");
}

#[test]
fn test_cyrillic_text() {
    assert_eq!(slug("Компьютер"), "komp-iuter");
}

#[test]
fn test_macro() {
    assert_eq!(slug("Компьютер"), "komp-iuter");
    assert_eq!(slug_sep("hello world", "-"), "hello-world");
    assert_eq!(slug_sep("hello world", " "), "hello world");
}

#[test]
fn test_random_length() {
    assert_eq!("hello-world".len() + 1 + 5, slug_rand("hello world").len());
    assert_eq!(
        "hello_world".len() + 1 + 5,
        slug_rand_sep("hello world", "_").len()
    );
}

#[test]
fn test_invalid_length() {
    assert_eq!(slug_rand_c("hello world", -1), Err(SlugError::InvalidLength));
    assert_eq!(
        slug_rand_sep_c("hello world", "_", -3),
        Err(SlugError::InvalidLength)
    );
    assert_eq!(
        SlugError::InvalidLength.message(),
        "randomness length must be a non-negative count"
    );
}

#[test]
fn test_zero_length_suffix() {
    let s = slug_rand_c("hello world", 0).unwrap();
    assert_eq!(s, "hello-world-");
    let t = slug_rand_sep_c("hello world", "_", 0).unwrap();
    assert_eq!(t, "hello_world_");
}

#[test]
fn test_empty_and_wordless_input() {
    assert_eq!(slug(""), "");
    assert_eq!(slug("!!! ??? ..."), "");
    assert_eq!(slug_sep("@@@", "_"), "");
    let r = slug_rand("!!!");
    assert_eq!(r.len(), 5);
    assert!(r.chars().all(|c| c.is_ascii_lowercase() || c.is_ascii_digit()));
}

#[test]
fn test_idempotent_on_valid_slugs() {
    assert_eq!(slug("hello-world"), "hello-world");
    assert_eq!(slug("10-amazing-secrets"), "10-amazing-secrets");
    assert_eq!(slug_sep("a_b_c", "_"), "a_b_c");
    assert_eq!(slug_sep("helloworld", ""), "helloworld");
    assert_eq!(slug_sep("hello%%world", "%%"), "hello%%world");
}

#[test]
fn test_suffix_prefix_and_alphabet() {
    let s = slug_rand_c("hello", 3).unwrap();
    assert_eq!(s.len(), "hello".len() + 1 + 3);
    assert!(s.starts_with("hello-"));
    let suffix = &s["hello-".len()..];
    assert!(suffix
        .chars()
        .all(|c| c.is_ascii_lowercase() || c.is_ascii_digit()));
    let t = slug_rand_sep("hello world", "%%");
    assert_eq!(t.len(), "hello%%world".len() + 2 + 5);
    assert!(t.starts_with("hello%%world%%"));
}

#[test]
fn test_unmapped_and_control_chars() {
    // An unmapped code point is dropped, with no separator left behind.
    assert_eq!(slug("a\u{378}b"), "ab");
    // DEL transliterates to nothing and is dropped as well.
    assert_eq!(slug("a\u{7f}b"), "ab");
    // A control character below DEL passes the transliterator unchanged
    // and collapses into a separator as non-word material.
    assert_eq!(slug("a\tb"), "a-b");
}

#[test]
fn test_suffix_varies() {
    let first = slug_rand("fixed input");
    let mut saw_other = false;
    for _ in 0..20 {
        if slug_rand("fixed input") != first {
            saw_other = true;
        }
    }
    assert!(saw_other);
}
