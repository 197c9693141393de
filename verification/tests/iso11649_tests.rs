use qrbill::chunked;
use qrbill::iso11649::{Iso11649, Iso11649Error};

#[test]
fn creditor_reference_check_digits() {
    let cases: Vec<(&str, &str)> = vec![
        ("a", "RF25 A"),
        ("b", "RF95 B"),
        ("C", "RF68 C"),
        ("fulano", "RF29 FULA NO"),
        ("FULANO", "RF29 FULA NO"),
        ("coti2223pongiste", "RF15 COTI 2223 PONG ISTE"),
        ("coti2223pongistejc", "RF83 COTI 2223 PONG ISTE JC"),
        ("coti 2223 pongistejc", "RF83 COTI 2223 PONG ISTE JC"),
        ("coti 2223 pongiste-jc", "RF83 COTI 2223 PONG ISTE JC"),
        (
            "too long because it takes up more than 25 characters",
            "RF24 TOOL ONGB ECAU SEIT TAKE S",
        ),
        ("12345678901234", "RF53 1234 5678 9012 34"),
        ("1234567890123456789", "RF25 1234 5678 9012 3456 789"),
        ("12345678901234567890", "RF20 1234 5678 9012 3456 7890"),
        ("123456789012345678901", "RF40 1234 5678 9012 3456 7890 1"),
        ("1234567890123456789012", "RF40 1234 5678 9012 3456 7890 1"),
        ("12345678901234567890123", "RF40 1234 5678 9012 3456 7890 1"),
    ];
    for (input, expected) in cases {
        assert_eq!(chunked(&Iso11649::new(input).with_checksum()), expected);
    }
}

#[test]
fn generated_reference_for_fulano() {
    assert_eq!(chunked(&Iso11649::new("fulano").with_checksum()), "RF29 FULA NO");
}

#[test]
fn normalization_uppercases_and_strips() {
    assert_eq!(Iso11649::new("a").without_checksum(), "A");
    assert_eq!(Iso11649::new("B").without_checksum(), "B");
    assert_eq!(Iso11649::new("MixEdCaSe").without_checksum(), "MIXEDCASE");
    assert_eq!(Iso11649::new("wIth spACes").without_checksum(), "WITHSPACES");
}

#[test]
fn transliteration_folds_diacritics() {
    assert_eq!(Iso11649::new("\u{e1}\u{c0}\u{e4}\u{c4}").without_checksum(), "AAAA");
    assert_eq!(Iso11649::new("\u{e9}\u{e8}\u{c9}\u{c8}").without_checksum(), "EEEE");
}

#[test]
fn generated_references_pass_strict_validation() {
    let inputs = vec![
        "a",
        "fulano",
        "ABCDEFGHIJ",
        "ABCDEFGHIJABCDEFGHIJA",
        "coti 2223 pongiste-jc",
        "12345678901234567890123",
        "Extra infos about the x",
    ];
    for input in inputs {
        let reference = Iso11649::new(input).with_checksum();
        assert!(Iso11649::validate(&reference).is_ok());
    }
}

#[test]
fn with_checksum_round_trips_known_references() {
    let cases = vec![
        "RF25A",
        "RF61AB",
        "RF45ABC",
        "RF67ABCD",
        "RF09ABCDE",
        "RF02ABCDEF",
        "RF51ABCDEFG",
        "RF74ABCDEFGH",
        "RF19ABCDEFGHI",
        "RF21ABCDEFGHIJ",
        "RF76ABCDEFGHIJA",
        "RF20ABCDEFGHIJAB",
        "RF19ABCDEFGHIJABC",
        "RF86ABCDEFGHIJABCD",
        "RF66ABCDEFGHIJABCDE",
        "RF76ABCDEFGHIJABCDEF",
        "RF79ABCDEFGHIJABCDEFG",
        "RF61ABCDEFGHIJABCDEFGH",
        "RF77ABCDEFGHIJABCDEFGHI",
        "RF98ABCDEFGHIJABCDEFGHIJ",
        "RF16ABCDEFGHIJABCDEFGHIJA",
    ];
    for input in cases {
        let body = &input[4..];
        let parsed = Iso11649::new(body);
        assert_eq!(parsed.without_checksum(), body);
        assert_eq!(parsed.with_checksum(), input);
        assert!(Iso11649::validate(input).is_ok());
    }
}

#[test]
fn validation_strips_punctuation() {
    assert!(Iso11649::validate("RF29 FULA NO").is_ok());
    assert!(Iso11649::validate("RF29-FULANO").is_ok());
    assert!(Iso11649::validate("RF29.FU,LA/NO:").is_ok());
}

#[test]
fn validation_rejects_short_and_long_references() {
    assert_eq!(Iso11649::validate("RF1").unwrap_err(), Iso11649Error::InvalidLength);
    assert_eq!(
        Iso11649::validate("RF00ABCDEFGHIJABCDEFGHIJAB").unwrap_err(),
        Iso11649Error::InvalidLength
    );
}

#[test]
fn validation_rejects_missing_prefix() {
    assert_eq!(
        Iso11649::validate("AB12345").unwrap_err(),
        Iso11649Error::InvalidFormat
    );
}

#[test]
fn validation_rejects_bad_characters() {
    assert_eq!(
        Iso11649::validate("RF12_4567").unwrap_err(),
        Iso11649Error::InvalidCharacters
    );
}

#[test]
fn validation_rejects_bad_check_digits() {
    assert_eq!(
        Iso11649::validate("RF00ABCD").unwrap_err(),
        Iso11649Error::InvalidChecksum
    );
}

#[test]
fn original_returns_the_normalized_body() {
    assert_eq!(Iso11649::new("coti 2223 pongiste-jc").original(), "COTI2223PONGISTEJC");
}

#[test]
fn chunked_groups_by_four() {
    assert_eq!(chunked(""), "");
    assert_eq!(chunked("abcd"), "abcd");
    assert_eq!(chunked("abcde"), "abcd e");
    assert_eq!(chunked("abcdefgh"), "abcd efgh");
}
