use penguin::mixer::{ComplexityLevel, PenguinMixer};

const SPECIALS: &str = "!@#$%^&*";

fn is_special(c: char) -> bool {
    SPECIALS.contains(c)
}

fn in_superset(c: char) -> bool {
    c.is_ascii_lowercase() || c.is_ascii_uppercase() || c.is_ascii_digit() || is_special(c)
}

#[test]
fn empty_words_give_empty_string() {
    let levels = [
        ComplexityLevel::Basic,
        ComplexityLevel::Medium,
        ComplexityLevel::Hard,
        ComplexityLevel::Penguin,
    ];
    let empty: Vec<&str> = vec![];
    for &level in levels.iter() {
        for &whole in [true, false].iter() {
            for &len in [0usize, 1, 12, 64].iter() {
                let mixer = PenguinMixer::new(level, whole, len);
                assert_eq!(mixer.mix_password(&empty), "");
            }
        }
    }
}

#[test]
fn penguin_tier_is_64_superset_chars() {
    for &len in [0usize, 5, 12, 100].iter() {
        let mixer = PenguinMixer::new(ComplexityLevel::Penguin, true, len);
        let p = mixer.mix_password(&vec!["ignored"]);
        assert_eq!(p.chars().count(), 64);
        assert!(p.chars().all(in_superset));
    }
}

#[test]
fn regular_tiers_hit_exact_length() {
    let levels = [ComplexityLevel::Basic, ComplexityLevel::Medium, ComplexityLevel::Hard];
    let words = vec!["hello", "world"];
    for &level in levels.iter() {
        for &whole in [true, false].iter() {
            for &len in [0usize, 1, 5, 12, 33].iter() {
                let mixer = PenguinMixer::new(level, whole, len);
                let p = mixer.mix_password(&words);
                assert_eq!(p.chars().count(), len);
            }
        }
    }
}

#[test]
fn basic_whole_words_example() {
    let mixer = PenguinMixer::new(ComplexityLevel::Basic, true, 12);
    let p = mixer.mix_password(&vec!["hello", "world"]);
    let chars: Vec<char> = p.chars().collect();
    assert_eq!(chars.len(), 12);
    // Both five-letter words fit exactly: word, digit, word, digit.
    assert!(p.contains("hello"));
    assert!(p.contains("world"));
    assert!(chars[5].is_ascii_digit());
    assert!(chars[11].is_ascii_digit());
}

#[test]
fn basic_separator_is_one_digit() {
    let mixer = PenguinMixer::new(ComplexityLevel::Basic, true, 6);
    let p = mixer.mix_password(&vec!["ab", "cd"]);
    let chars: Vec<char> = p.chars().collect();
    assert_eq!(chars.len(), 6);
    assert!(chars[2].is_ascii_digit());
    assert!(chars[5].is_ascii_digit());
    let first: String = chars[0..2].iter().collect();
    let second: String = chars[3..5].iter().collect();
    assert!(
        (first == "ab" && second == "cd") || (first == "cd" && second == "ab"),
        "unexpected words in {}",
        p
    );
}

#[test]
fn medium_separator_is_special_then_digit() {
    let mixer = PenguinMixer::new(ComplexityLevel::Medium, true, 12);
    let p = mixer.mix_password(&vec!["abcdefghij"]);
    let chars: Vec<char> = p.chars().collect();
    assert_eq!(chars.len(), 12);
    assert_eq!(&p[0..10], "abcdefghij");
    assert!(is_special(chars[10]));
    assert!(chars[11].is_ascii_digit());
}

#[test]
fn padding_fills_to_length_with_superset_chars() {
    let mixer = PenguinMixer::new(ComplexityLevel::Basic, true, 10);
    let p = mixer.mix_password(&vec!["ab"]);
    let chars: Vec<char> = p.chars().collect();
    assert_eq!(chars.len(), 10);
    assert_eq!(&p[0..2], "ab");
    assert!(chars[2].is_ascii_digit());
    assert!(chars[3..].iter().all(|&c| in_superset(c)));
}

#[test]
fn truncation_cuts_mid_word() {
    let mixer = PenguinMixer::new(ComplexityLevel::Basic, true, 4);
    let p = mixer.mix_password(&vec!["abcdefgh"]);
    assert_eq!(p, "abcd");
}

#[test]
fn zero_length_gives_empty_string() {
    let mixer = PenguinMixer::new(ComplexityLevel::Basic, true, 0);
    assert_eq!(mixer.mix_password(&vec!["a"]), "");
}

#[test]
fn char_mix_basic_cycle() {
    let mixer = PenguinMixer::new(ComplexityLevel::Basic, false, 9);
    let p = mixer.mix_password(&vec!["aaaa"]);
    let chars: Vec<char> = p.chars().collect();
    assert_eq!(chars.len(), 9);
    for (i, &c) in chars.iter().enumerate() {
        if i % 4 == 0 {
            assert!(c.is_ascii_digit(), "position {} of {}", i, p);
        } else {
            assert_eq!(c, 'a', "position {} of {}", i, p);
        }
    }
}

#[test]
fn char_mix_medium_cycle() {
    let mixer = PenguinMixer::new(ComplexityLevel::Medium, false, 8);
    let p = mixer.mix_password(&vec!["aa"]);
    let chars: Vec<char> = p.chars().collect();
    assert_eq!(chars.len(), 8);
    for (i, &c) in chars.iter().enumerate() {
        match i % 4 {
            0 => assert!(is_special(c), "position {} of {}", i, p),
            1 => assert!(c.is_ascii_digit(), "position {} of {}", i, p),
            _ => assert_eq!(c, 'a', "position {} of {}", i, p),
        }
    }
}

#[test]
fn char_mix_empty_pool_falls_back_to_lowercase() {
    let mixer = PenguinMixer::new(ComplexityLevel::Basic, false, 4);
    let p = mixer.mix_password(&vec![""]);
    let chars: Vec<char> = p.chars().collect();
    assert_eq!(chars.len(), 4);
    assert!(chars[0].is_ascii_digit());
    assert!(chars[1..].iter().all(|c| c.is_ascii_lowercase()));
}

#[test]
fn hard_whole_words_shuffle_keeps_the_characters() {
    let mixer = PenguinMixer::new(ComplexityLevel::Hard, true, 4);
    let p = mixer.mix_password(&vec!["ab"]);
    let chars: Vec<char> = p.chars().collect();
    assert_eq!(chars.len(), 4);
    assert_eq!(chars.iter().filter(|&&c| c == 'a').count(), 1);
    assert_eq!(chars.iter().filter(|&&c| c == 'b').count(), 1);
    assert_eq!(chars.iter().filter(|&&c| is_special(c)).count(), 1);
    assert_eq!(chars.iter().filter(|&&c| c.is_ascii_digit()).count(), 1);
}

#[test]
fn hard_char_mix_shuffle_keeps_the_characters() {
    let mixer = PenguinMixer::new(ComplexityLevel::Hard, false, 4);
    let p = mixer.mix_password(&vec!["zz"]);
    let chars: Vec<char> = p.chars().collect();
    assert_eq!(chars.len(), 4);
    assert_eq!(chars.iter().filter(|&&c| c == 'z').count(), 2);
    assert_eq!(chars.iter().filter(|&&c| is_special(c)).count(), 1);
    assert_eq!(chars.iter().filter(|&&c| c.is_ascii_digit()).count(), 1);
}

#[test]
fn mixer_new_stores_the_settings() {
    let mixer = PenguinMixer::new(ComplexityLevel::Hard, false, 17);
    assert_eq!(mixer.length, 17);
    assert!(!mixer.use_whole_words);
    assert!(matches!(mixer.complexity, ComplexityLevel::Hard));
}

#[test]
fn mixer_default_is_medium_whole_words_12() {
    let mixer = PenguinMixer::default();
    assert_eq!(mixer.length, 12);
    assert!(mixer.use_whole_words);
    assert!(matches!(mixer.complexity, ComplexityLevel::Medium));
}
