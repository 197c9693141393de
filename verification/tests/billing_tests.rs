use qrbill::billing_infos::swico::StructuredSet;
use qrbill::billing_infos::swico::SwicoComponent;
use qrbill::billing_infos::utils::{
    make_paragraph_from_raw, split_unstructured, DataType, Fold, RawData, RawDataKind,
    TotalLenght,
};
use qrbill::billing_infos::{BillingInfoError, BillingInfos};
use qrbill::esr::Esr;
use qrbill::iso11649::Iso11649;
use qrbill::label::{Labels, Language, Translation};
use qrbill::render::{Part, What};
use qrbill::{Currency, Reference};

#[test]
fn add_unstructured_sets_the_override() {
    let msg = "Invoice F248956-24RI for a new gaming chair";
    let bi = BillingInfos::new().add_unstructured(msg).unwrap();
    assert_eq!(bi.unstructured().unwrap(), msg);
    assert!(bi.structured().is_none());
    assert_eq!(bi.len(), msg.chars().count());
    assert!(!bi.is_empty());
}

#[test]
fn new_billing_infos_are_empty() {
    let bi = BillingInfos::new();
    assert!(bi.unstructured().is_none());
    assert!(bi.structured().is_none());
    assert!(bi.is_empty());
}

#[test]
fn the_override_replaces_the_emitter_text() {
    let res_builder = "Unstructured from builder";
    let res_struct = "Unstructured from struct";
    let bi = BillingInfos::swico()
        .s1_builder()
        .add_unstructured(res_builder)
        .build()
        .unwrap()
        .add_unstructured(res_struct)
        .unwrap();
    assert_eq!(bi.unstructured().unwrap(), res_struct);
    let bi = BillingInfos::swico()
        .s1_builder()
        .add_unstructured(res_builder)
        .build()
        .unwrap();
    assert_eq!(bi.unstructured().unwrap(), res_builder);
}

#[test]
fn add_unstructured_rejects_oversized_text() {
    let long = "y".repeat(141);
    let r = BillingInfos::new().add_unstructured(&long);
    assert!(matches!(
        r,
        Err(BillingInfoError::Swico(qrbill::billing_infos::swico::SwicoError::TooLong(141)))
    ));
}

#[test]
fn the_combined_cap_is_exactly_140() {
    let s = "//S1/10/24073428/11/240729/30/112806097";
    let bi: BillingInfos = s.parse().unwrap();
    let structured_len = bi.structured().unwrap().chars().count();
    let fits = "z".repeat(140 - structured_len);
    let bi2 = bi.clone().add_unstructured(&fits).unwrap();
    assert_eq!(bi2.len(), 140);
    let too_much = "z".repeat(140 - structured_len + 1);
    let r = bi.add_unstructured(&too_much);
    assert!(matches!(
        r,
        Err(BillingInfoError::Swico(qrbill::billing_infos::swico::SwicoError::TooLong(141)))
    ));
}

#[test]
fn short_text_stands_alone_in_a_paragraph() {
    let bi = BillingInfos::new().add_unstructured("short note").unwrap();
    assert_eq!(bi.as_paragraph().unwrap(), vec!["short note"]);
}

#[test]
fn empty_billing_infos_give_no_paragraph() {
    assert!(BillingInfos::new().as_paragraph().is_none());
}

#[test]
fn long_text_is_split_at_a_break_character() {
    let a = "a".repeat(40);
    let b = "b".repeat(39);
    let text = format!("{}. {}", a, b);
    let lines = split_unstructured(&text);
    assert_eq!(lines.len(), 2);
    assert_eq!(lines[0], format!("{}.", a));
    assert_eq!(lines[1], b);
}

#[test]
fn unbreakable_long_text_folds_to_a_single_empty_line() {
    let text = "q".repeat(200);
    let lines = split_unstructured(&text);
    assert_eq!(lines, vec![String::new()]);
    let mut rd = RawData::new();
    rd.insert(DataType::Unstructured, vec![text]);
    let p = make_paragraph_from_raw(&rd).unwrap();
    assert_eq!(p, vec![String::new()]);
}

#[test]
fn structured_text_is_divided_by_length() {
    let s = "//S1/10/10201409/11/190512/20/1400.000-53/30/106017086/31/180508/32/7.7/40/2:10;0:30";
    let bi: BillingInfos = s.parse().unwrap();
    let total = bi.structured().unwrap().chars().count();
    let expected_lines = if total >= 125 {
        3
    } else if total >= 70 {
        2
    } else {
        1
    };
    let lines = bi.as_paragraph().unwrap();
    assert_eq!(lines.len(), 1 + expected_lines);
    assert_eq!(lines[0], "");
    let joined: String = lines[1..].concat();
    assert_eq!(joined, s);
}

#[test]
fn paragraph_puts_the_message_first() {
    let s = "//S1/10/24073428/11/240729/30/112806097";
    let raw = format!("A payment message{}", s);
    let bi: BillingInfos = raw.parse().unwrap();
    let lines = bi.as_paragraph().unwrap();
    assert_eq!(lines[0], "A payment message");
    let joined: String = lines[1..].concat();
    assert_eq!(joined, s);
}

#[test]
fn raw_data_folds_its_slots() {
    let mut rd = RawData::new();
    assert!(rd.is_empty());
    rd.insert(
        DataType::Structured,
        vec![String::from("/10/a"), String::from("/11/b")],
    );
    assert_eq!(rd.fold_from(&DataType::Structured).unwrap(), "/10/a/11/b");
    assert!(rd.fold_from(&DataType::Unstructured).is_none());
    assert_eq!(rd.tot_len(), 10);
}

#[test]
fn emitters_expose_their_raw_data() {
    let bi = BillingInfos::swico()
        .s1_builder()
        .invoice_ref("24073428")
        .doc_date("240630")
        .build()
        .unwrap();
    assert_eq!(bi.structured().unwrap(), "//S1/10/24073428/11/240630");
    let sw = BillingInfos::swico();
    assert!(sw.raw_data().is_none());
}

#[test]
fn structured_sets_keep_id_order() {
    let mut set = StructuredSet::new();
    set.insert(SwicoComponent::Conditions, String::from("0:30"));
    set.insert(SwicoComponent::InvoiceRef, String::from("inv"));
    set.insert(SwicoComponent::DocDate, String::from("240630"));
    assert_eq!(set.len(), 3);
    assert_eq!(set.entry_at(0).0.get_id(), 10);
    assert_eq!(set.entry_at(1).0.get_id(), 11);
    assert_eq!(set.entry_at(2).0.get_id(), 40);
    assert_eq!(set.get(SwicoComponent::InvoiceRef).unwrap(), "inv");
    assert!(set.get(SwicoComponent::VatNum).is_none());
    set.insert(SwicoComponent::InvoiceRef, String::from("other"));
    assert_eq!(set.len(), 3);
    assert_eq!(set.get(SwicoComponent::InvoiceRef).unwrap(), "other");
}

#[test]
fn labels_come_in_four_languages() {
    assert_eq!(Labels::for_language(Language::German).payment_part, "Zahlteil");
    assert_eq!(Labels::for_language(Language::English).receipt, "Receipt");
    assert_eq!(
        Labels::for_language(Language::French).acceptance_point,
        "Point de d\u{e9}p\u{f4}t"
    );
    assert_eq!(Labels::for_language(Language::Italian).currency, "Valuta");
}

#[test]
fn translations_pick_one_language() {
    let t = Translation::new("Amount", "Betrag", "Montant", "Importo");
    assert_eq!(t.to(Language::English), "Amount");
    assert_eq!(t.to(Language::German), "Betrag");
    assert_eq!(t.to(Language::French), "Montant");
    assert_eq!(t.to(Language::Italian), "Importo");
}

#[test]
fn currencies_have_fixed_codes() {
    assert_eq!(Currency::SwissFranc.code(), "CHF");
    assert_eq!(Currency::Euro.code(), "EUR");
}

#[test]
fn references_list_their_payload_lines() {
    let esr = Esr::try_with_checksum(String::from("240752371")).unwrap();
    let lines = Reference::Qrr(esr).data_list();
    assert_eq!(lines, vec!["QRR", "240752371"]);

    let scor = Iso11649::new("fulano");
    let lines = Reference::Scor(scor).data_list();
    assert_eq!(lines, vec!["SCOR", "RF29FULANO"]);

    let lines = Reference::Absent.data_list();
    assert_eq!(lines, vec!["NON", ""]);
}

#[test]
fn render_passes_enumerate_their_parts() {
    assert_eq!(What::OnlyReceipt.parts(), vec![Part::Receipt]);
    assert_eq!(What::ReceiptAndPayment.parts(), vec![Part::Receipt, Part::Payment]);
}
