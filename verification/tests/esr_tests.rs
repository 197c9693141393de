use qrbill::esr::{checksum, is_checksum_valid, Error, Esr};

#[test]
fn checksum_of_sample_reference_is_one() {
    assert_eq!(checksum(String::from("24075237")).unwrap(), "1");
}

#[test]
fn checksum_of_other_samples() {
    assert_eq!(checksum(String::from("24075277")).unwrap(), "2");
    assert_eq!(checksum(String::from("240")).unwrap(), "4");
}

#[test]
fn checksum_rejects_non_digits() {
    assert_eq!(checksum(String::from("24A75237")).unwrap_err(), Error::InvalidFormat);
}

#[test]
fn checksum_of_empty_prefix_is_zero() {
    assert_eq!(checksum(String::new()).unwrap(), "0");
}

#[test]
fn with_checksum_accepts_valid_references() {
    assert!(Esr::try_with_checksum(String::from("240752371")).is_ok());
    assert!(Esr::try_with_checksum(String::from("240752772")).is_ok());
    assert!(Esr::try_with_checksum(String::from("210000000000045842312240456")).is_ok());
}

#[test]
fn with_checksum_rejects_bad_checksum() {
    let esr = Esr::try_with_checksum(String::from("24075237"));
    assert_eq!(esr.unwrap_err(), Error::InvalidChecksum);
}

#[test]
fn with_checksum_rejects_non_digits() {
    let esr = Esr::try_with_checksum(String::from("24075A37"));
    assert_eq!(esr.unwrap_err(), Error::InvalidFormat);
}

#[test]
fn with_checksum_rejects_bad_lengths() {
    assert_eq!(
        Esr::try_with_checksum(String::from("2404")).unwrap_err(),
        Error::InvalidLength
    );
    assert_eq!(
        Esr::try_with_checksum(String::from("2100000000000458423122404546")).unwrap_err(),
        Error::InvalidLength
    );
}

#[test]
fn without_checksum_appends_the_checksum_digit() {
    let esr = Esr::try_without_checksum(String::from("0000000024075277")).unwrap();
    assert_eq!(esr.to_raw(), "240752772");
}

#[test]
fn without_checksum_round_trips_through_with_checksum() {
    let esr = Esr::try_without_checksum(String::from("24075237")).unwrap();
    let raw = esr.to_raw();
    assert_eq!(raw, "240752371");
    assert!(Esr::try_with_checksum(raw).is_ok());
}

#[test]
fn without_checksum_rejects_bad_lengths() {
    assert_eq!(
        Esr::try_without_checksum(String::from("2404")).unwrap_err(),
        Error::InvalidLength
    );
    assert_eq!(
        Esr::try_without_checksum(String::from("21000000000004584231224045")).unwrap_err(),
        Error::InvalidLength
    );
}

#[test]
fn mutating_the_last_digit_breaks_the_checksum() {
    let esr = Esr::try_without_checksum(String::from("24075237")).unwrap();
    let raw = esr.to_raw();
    let (body, check) = raw.split_at(raw.len() - 1);
    let check_digit: u32 = check.parse().unwrap();
    for other in 0..10u32 {
        if other == check_digit {
            continue;
        }
        let mutated = format!("{}{}", body, other);
        assert_eq!(
            Esr::try_with_checksum(mutated).unwrap_err(),
            Error::InvalidChecksum
        );
    }
}

#[test]
fn spaces_and_leading_zeros_are_normalized() {
    let esr = Esr::try_with_checksum(String::from("00 24 07 52 37 1")).unwrap();
    assert_eq!(esr.to_raw(), "240752371");
}

#[test]
fn formatted_pads_and_groups() {
    let esr = Esr::try_with_checksum(String::from("240752371")).unwrap();
    assert_eq!(esr.formatted(), "00 00000 00000 00000 02407 52371");
}

#[test]
fn try_new_accepts_short_references() {
    let esr = Esr::try_new(String::from("2404")).unwrap();
    assert_eq!(esr.to_raw(), "2404");
}

#[test]
fn is_checksum_valid_checks_the_last_digit() {
    assert!(is_checksum_valid("240752371").is_ok());
    assert_eq!(is_checksum_valid("240752372").unwrap_err(), Error::InvalidChecksum);
}
