use pseudocode::chars::CharClass;
use pseudocode::number::integer_from_digits;
use pseudocode::text::{chars_of, spells, text_of};

#[test]
fn chars_of_keeps_every_character() {
    assert_eq!(chars_of(""), Vec::<char>::new());
    assert_eq!(chars_of("aé日\n"), vec!['a', 'é', '日', '\n']);
}

#[test]
fn text_of_takes_the_range() {
    let chars = chars_of("héllo wörld");
    assert_eq!(text_of(&chars, 0, 5), "héllo");
    assert_eq!(text_of(&chars, 6, 11), "wörld");
    assert_eq!(text_of(&chars, 3, 3), "");
    assert_eq!(text_of(&chars, 0, chars.len()), "héllo wörld");
}

#[test]
fn spells_compares_the_whole_range() {
    let chars = chars_of("ENDIF x");
    assert!(spells(&chars, 0, 5, "ENDIF"));
    assert!(!spells(&chars, 0, 5, "ENDIFS"));
    assert!(!spells(&chars, 0, 5, "END"));
    assert!(!spells(&chars, 0, 4, "ENDIF"));
    assert!(!spells(&chars, 0, 5, "ENDIG"));
    assert!(!spells(&chars, 0, 5, "endif"));
    assert!(spells(&chars, 3, 5, "IF"));
    assert!(spells(&chars, 2, 2, ""));
    assert!(!spells(&chars, 2, 3, ""));
}

#[test]
fn integer_from_digits_reads_a_range() {
    let chars = chars_of("x-120y007");
    assert_eq!(integer_from_digits(&chars, 1, 5), -120);
    assert_eq!(integer_from_digits(&chars, 2, 5), 120);
    assert_eq!(integer_from_digits(&chars, 2, 4), 12);
    assert_eq!(integer_from_digits(&chars, 6, 9), 7);
    let chars = chars_of("-9223372036854775808");
    assert_eq!(integer_from_digits(&chars, 0, chars.len()), i64::MIN);
    assert_eq!(integer_from_digits(&chars, 1, chars.len()), i64::MAX);
    assert_eq!(integer_from_digits(&chars, 1, chars.len() - 1), 922337203685477580);
}

#[test]
fn character_classes() {
    for c in ['0', '5', '9'] {
        assert!(CharClass::Digit.accepts(c));
        assert!(!CharClass::Alphabetic.accepts(c));
    }
    for c in ['a', 'z', 'A', 'Z', 'm'] {
        assert!(CharClass::Alphabetic.accepts(c));
        assert!(!CharClass::Digit.accepts(c));
    }
    for c in ['/', ':', '@', '[', '`', '{', 'é', '٣', '_'] {
        assert!(!CharClass::Digit.accepts(c));
        assert!(!CharClass::Alphabetic.accepts(c));
        assert!(!CharClass::Whitespace.accepts(c));
    }
    for c in [' ', '\t', '\n', '\x0C', '\r'] {
        assert!(CharClass::Whitespace.accepts(c));
    }
    assert!(!CharClass::Whitespace.accepts('\x0B'));
    assert!(!CharClass::Whitespace.accepts('\u{a0}'));
    assert!(CharClass::LineBody.accepts('"'));
    assert!(!CharClass::LineBody.accepts('\n'));
    assert!(CharClass::StringBody.accepts('\''));
    assert!(!CharClass::StringBody.accepts('"'));
    assert!(!CharClass::StringBody.accepts('\n'));
    assert!(CharClass::Exactly('x').accepts('x'));
    assert!(!CharClass::Exactly('x').accepts('y'));
}
