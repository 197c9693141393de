use qrbill::billing_infos::swico::builder::Date;
use qrbill::billing_infos::swico::parser::{s1_parser, SyntaxParserError};
use qrbill::billing_infos::swico::syntax::SyntaxValidatorError;
use qrbill::billing_infos::swico::{Swico, SwicoComponent, SwicoError};
use qrbill::billing_infos::{BillingInfoError, BillingInfos};

#[test]
fn builder_produces_canonical_structured_text() {
    let fmt_doc = Date::new(2024, 6, 30).unwrap();
    let start_vat = Date::new(2024, 5, 1).unwrap();
    let s = BillingInfos::swico()
        .s1_builder()
        .vat_num("112806097")
        .client_ref(r"145258\/D\\p\\t")
        .conditions("3:10;0:30")
        .invoice_ref("24073428")
        .vat_date_naive(start_vat, Some(fmt_doc))
        .doc_date_naive(fmt_doc)
        .add_unstructured("Paiement de septante-trois annees de retard")
        .build()
        .unwrap();
    let res = r"//S1/10/24073428/11/240630/20/145258\/D\\p\\t/30/112806097/31/240501240630/40/3:10;0:30";
    assert_eq!(s.structured().unwrap(), res);
    assert_eq!(s.unstructured().unwrap(), "Paiement de septante-trois annees de retard");
}

#[test]
fn builder_parser_round_trip() {
    let s = BillingInfos::swico()
        .s1_builder()
        .invoice_ref("24073428")
        .doc_date("240630")
        .client_ref("145258\\/D\u{e9}p\u{f4}t")
        .vat_num("112806097")
        .vat_date("240501240630")
        .conditions("3:10;0:30")
        .build()
        .unwrap();
    let canonical = s.structured().unwrap();
    let reparsed: BillingInfos = canonical.parse().unwrap();
    assert_eq!(reparsed.structured().unwrap(), canonical);
}

#[test]
fn last_write_wins_in_the_builder() {
    let b = BillingInfos::swico()
        .s1_builder()
        .invoice_ref("one")
        .invoice_ref("24073428")
        .doc_date("240630")
        .build()
        .unwrap();
    let s = b.structured().unwrap();
    assert!(s.contains("/10/24073428"));
    assert!(!s.contains("one"));
}

#[test]
fn single_field_sets_get_no_prefix() {
    let b = BillingInfos::swico()
        .s1_builder()
        .add_unstructured("Some invoice message")
        .build()
        .unwrap();
    assert!(b.structured().is_none());
    assert_eq!(b.unstructured().unwrap(), "Some invoice message");
}

#[test]
fn builder_rejects_oversized_sets() {
    let long = "x".repeat(141);
    let e = BillingInfos::swico()
        .s1_builder()
        .add_unstructured(&long)
        .build()
        .unwrap_err();
    assert!(matches!(e, SwicoError::TooLong(141)));
}

#[test]
fn builder_accepts_a_full_set() {
    let long = "x".repeat(140);
    let b = BillingInfos::swico()
        .s1_builder()
        .add_unstructured(&long)
        .build()
        .unwrap();
    assert_eq!(b.len(), 140);
}

#[test]
fn parsing_accepts_known_payloads() {
    let cases = vec![
        "//S1/10/10201409/11/190512/20/1400.000-53/30/106017086/31/180508/32/7.7/40/2:10;0:30",
        "//S1/10/10104/11/180228/30/395856455/31/180226180227/32/3.7:400.19;7.7:553.39;0:14/40/0:30",
        "//S1/10/4031202511/11/180107/20/61257233.4/30/105493567/32/8:49.82/33/2.5:14.85/40/0:30",
        r"//S1/10/X.66711\/8824/11/200712/20/MW-2020-04/30/107978798/32/2.5:117.22/40/3:5;1.5:20;1:40;0:60",
        "//S1/10/24073428/11/240729/20/145258\\/D\u{e9}p\u{f4}t/30/112806097/31/240630240731/40/3:10;0:30",
    ];
    for s in cases {
        let msg = "Message au payeur";
        let raw = format!("{}{}", msg, s);
        let b: BillingInfos = raw.parse().unwrap();
        assert_eq!(b.structured().unwrap(), s);
        assert_eq!(b.unstructured().unwrap(), msg);
    }
}

#[test]
fn parsing_without_marker_is_refused() {
    let r = "just a message".parse::<BillingInfos>();
    assert!(matches!(r, Err(BillingInfoError::FromParser(_))));
}

#[test]
fn parsing_rejects_unknown_beacons() {
    let r = Swico::try_from_str("//S1/10/abc/12/def");
    match r {
        Err(SwicoError::FromSyntaxParser(SyntaxParserError::InvalidBeacons(t))) => {
            assert_eq!(t, "/12/");
        }
        other => panic!("expected an unknown-beacon error, got {:?}", other),
    }
}

#[test]
fn parsing_without_any_field_marker_is_refused() {
    let r = Swico::try_from_str("text //S1 nothing more");
    assert!(matches!(
        r,
        Err(SwicoError::FromSyntaxParser(SyntaxParserError::IndexError))
    ));
}

#[test]
fn parser_returns_a_version_for_plain_input() {
    assert!(s1_parser("//S1/10/abc").is_ok());
}

#[test]
fn validator_rejects_short_dates() {
    let r = Swico::try_from_str("//S1/11/2406");
    assert!(matches!(
        r,
        Err(SwicoError::FromSyntaxValidator(SyntaxValidatorError::InvalidDateFormat(_)))
    ));
}

#[test]
fn validator_rejects_impossible_dates() {
    let r = Swico::try_from_str("//S1/11/241301");
    assert!(matches!(
        r,
        Err(SwicoError::FromSyntaxValidator(SyntaxValidatorError::InvalidDate(_)))
    ));
    let r = Swico::try_from_str("//S1/11/240230");
    assert!(matches!(
        r,
        Err(SwicoError::FromSyntaxValidator(SyntaxValidatorError::InvalidDate(_)))
    ));
}

#[test]
fn validator_accepts_leap_days() {
    assert!(Swico::try_from_str("//S1/11/240229").is_ok());
    assert!(matches!(
        Swico::try_from_str("//S1/11/230229"),
        Err(SwicoError::FromSyntaxValidator(SyntaxValidatorError::InvalidDate(_)))
    ));
}

#[test]
fn validator_rejects_bad_vat_numbers() {
    let r = Swico::try_from_str("//S1/30/12345");
    assert!(matches!(
        r,
        Err(SwicoError::FromSyntaxValidator(SyntaxValidatorError::InvalidVatNum(_)))
    ));
    let r = Swico::try_from_str("//S1/30/10601708a");
    assert!(matches!(
        r,
        Err(SwicoError::FromSyntaxValidator(SyntaxValidatorError::InvalidVatNum(_)))
    ));
}

#[test]
fn validator_rejects_bad_escaping() {
    let r = Swico::try_from_str(r"//S1/10/a\b");
    assert!(matches!(
        r,
        Err(SwicoError::FromSyntaxValidator(SyntaxValidatorError::InvalidEscapeChar(_)))
    ));
    let r = Swico::try_from_str(r"//S1/20/ends\");
    assert!(matches!(
        r,
        Err(SwicoError::FromSyntaxValidator(SyntaxValidatorError::InvalidEscapeChar(_)))
    ));
}

#[test]
fn validator_rejects_decimal_commas() {
    let r = Swico::try_from_str("//S1/32/1,5");
    assert!(matches!(
        r,
        Err(SwicoError::FromSyntaxValidator(SyntaxValidatorError::InvalidDecimalPoint(_)))
    ));
}

#[test]
fn validator_rejects_non_numeric_subgroups() {
    let r = Swico::try_from_str("//S1/32/x:10");
    assert!(matches!(
        r,
        Err(SwicoError::FromSyntaxValidator(SyntaxValidatorError::InvalidNumber(_)))
    ));
}

#[test]
fn validator_rejects_malformed_conditions() {
    let r = Swico::try_from_str("//S1/40/3:10:5");
    assert!(matches!(
        r,
        Err(SwicoError::FromSyntaxValidator(SyntaxValidatorError::InvalidConditions(_)))
    ));
    let r = Swico::try_from_str("//S1/40/3:999");
    assert!(matches!(
        r,
        Err(SwicoError::FromSyntaxValidator(SyntaxValidatorError::InvalidDays(_)))
    ));
}

#[test]
fn validator_accepts_exponent_and_dot_numbers() {
    assert!(Swico::try_from_str("//S1/32/7.7").is_ok());
    assert!(Swico::try_from_str("//S1/32/8:1000;2.5:51.8;7.7:250").is_ok());
    assert!(Swico::try_from_str("//S1/32/1e2:.5").is_ok());
}

#[test]
fn component_registry_is_fixed() {
    assert_eq!(SwicoComponent::Unstructured.get_id(), 0);
    assert_eq!(SwicoComponent::Prefix.get_id(), 1);
    assert_eq!(SwicoComponent::Conditions.get_id(), 40);
    assert_eq!(SwicoComponent::for_parsing().len(), 8);
    let invalids = SwicoComponent::invalids();
    assert_eq!(invalids.len(), 92);
    assert!(invalids.contains(&String::from("/00/")));
    assert!(invalids.contains(&String::from("/12/")));
    assert!(!invalids.contains(&String::from("/10/")));
}

#[test]
fn dates_are_validated_at_construction() {
    assert!(Date::new(2024, 2, 29).is_some());
    assert!(Date::new(2023, 2, 29).is_none());
    assert!(Date::new(2000, 2, 29).is_some());
    assert!(Date::new(2024, 13, 1).is_none());
    assert!(Date::new(2024, 4, 31).is_none());
}

#[test]
fn unstructured_text_is_trimmed_of_unicode_whitespace() {
    let raw = "\u{a0}\u{2003}Message au payeur\u{a0} //S1/10/abc";
    let b: BillingInfos = raw.parse().unwrap();
    assert_eq!(b.unstructured().unwrap(), "Message au payeur");
}
