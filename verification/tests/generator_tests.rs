use penguin::mixer::ComplexityLevel;
use penguin::Penguin;

const SPECIALS: &str = "!@#$%^&*";

#[test]
fn generates_the_requested_count() {
    let penguin = Penguin::new(vec!["hello", "world"]);
    let passwords = penguin.generate_password(3, Some(ComplexityLevel::Basic), Some(true), Some(8));
    assert_eq!(passwords.len(), 3);
    for p in passwords.iter() {
        assert_eq!(p.chars().count(), 8);
    }
}

#[test]
fn empty_words_generate_empty_strings() {
    let penguin = Penguin::new(vec![]);
    let passwords = penguin.generate_password(2, Some(ComplexityLevel::Penguin), None, Some(40));
    assert_eq!(passwords, vec!["", ""]);
}

#[test]
fn default_bundle_is_medium_whole_words_12() {
    let penguin = Penguin::new(vec!["abcdefghij"]);
    let passwords = penguin.generate_password(1, None, None, None);
    assert_eq!(passwords.len(), 1);
    let chars: Vec<char> = passwords[0].chars().collect();
    // Length 12 and the Medium separator shapes show the bundle defaults.
    assert_eq!(chars.len(), 12);
    assert_eq!(&passwords[0][0..10], "abcdefghij");
    assert!(SPECIALS.contains(chars[10]));
    assert!(chars[11].is_ascii_digit());
}

#[test]
fn length_alone_keeps_the_other_defaults() {
    let penguin = Penguin::new(vec!["abcdefghij", "klmnopqrst"]);
    let passwords = penguin.generate_password(1, None, None, Some(20));
    assert_eq!(passwords.len(), 1);
    let chars: Vec<char> = passwords[0].chars().collect();
    assert_eq!(chars.len(), 20);
    // Still Medium and whole words: word, special, digit, then the second
    // word truncated at the target length.
    let first: String = chars[0..10].iter().collect();
    let rest: String = chars[12..20].iter().collect();
    assert!(SPECIALS.contains(chars[10]));
    assert!(chars[11].is_ascii_digit());
    if first == "abcdefghij" {
        assert_eq!(rest, "klmnopqr");
    } else {
        assert_eq!(first, "klmnopqrst");
        assert_eq!(rest, "abcdefgh");
    }
}

#[test]
fn penguin_tier_ignores_requested_length() {
    let penguin = Penguin::new(vec!["ignored"]);
    let passwords = penguin.generate_password(1, Some(ComplexityLevel::Penguin), None, Some(12));
    assert_eq!(passwords[0].chars().count(), 64);
}
