//! Translations of the payment-document heading labels into the four
//! allowed languages.

use vstd::prelude::*;

verus! {

use vstd::string::StringExecFns;

/// The languages a payment document may be rendered in.
#[derive(Debug, Clone, Copy)]
pub enum Language {
    German,
    English,
    French,
    Italian,
}

/// A collection of heading labels in a single language.
#[derive(Debug)]
pub struct Labels {
    pub payment_part: String,
    pub payable_to: String,
    pub reference: String,
    pub additional_information: String,
    pub currency: String,
    pub amount: String,
    pub receipt: String,
    pub acceptance_point: String,
    pub payable_by: String,
    pub payable_by_extended: String,
    pub payable_by_date: String,
}

impl Labels {
    /// All known labels in the given language.
    pub fn for_language(language: Language) -> (r: Labels)
        ensures
            match language {
                Language::German => {
                    &&& r.payment_part@ == "Zahlteil"@
                    &&& r.payable_to@ == "Konto / Zahlbar an"@
                    &&& r.reference@ == "Referenz"@
                    &&& r.additional_information@ == "Zus\u{e4}tzliche Informationen"@
                    &&& r.currency@ == "W\u{e4}hrung"@
                    &&& r.amount@ == "Betrag"@
                    &&& r.receipt@ == "Empfangsschein"@
                    &&& r.acceptance_point@ == "Annahmestelle"@
                    &&& r.payable_by@ == "Zahlbar durch"@
                    &&& r.payable_by_extended@ == "Zahlbar durch (Name/Adresse)"@
                    &&& r.payable_by_date@ == "Zahlbar bis"@
                },
                Language::English => {
                    &&& r.payment_part@ == "Payment part"@
                    &&& r.payable_to@ == "Account / Payable to"@
                    &&& r.reference@ == "Reference"@
                    &&& r.additional_information@ == "Additional information"@
                    &&& r.currency@ == "Currency"@
                    &&& r.amount@ == "Amount"@
                    &&& r.receipt@ == "Receipt"@
                    &&& r.acceptance_point@ == "Acceptance point"@
                    &&& r.payable_by@ == "Payable by"@
                    &&& r.payable_by_extended@ == "Payable by (name/address)"@
                    &&& r.payable_by_date@ == "Payable by"@
                },
                Language::French => {
                    &&& r.payment_part@ == "Section paiement"@
                    &&& r.payable_to@ == "Compte / Payable \u{e0}"@
                    &&& r.reference@ == "R\u{e9}f\u{e9}rence"@
                    &&& r.additional_information@ == "Informations suppl\u{e9}mentaires"@
                    &&& r.currency@ == "Monnaie"@
                    &&& r.amount@ == "Montant"@
                    &&& r.receipt@ == "R\u{e9}c\u{e9}piss\u{e9}"@
                    &&& r.acceptance_point@ == "Point de d\u{e9}p\u{f4}t"@
                    &&& r.payable_by@ == "Payable par"@
                    &&& r.payable_by_extended@ == "Payable par (nom/adresse)"@
                    &&& r.payable_by_date@ == "Payable jusqu\u{2019}au"@
                },
                Language::Italian => {
                    &&& r.payment_part@ == "Sezione pagamento"@
                    &&& r.payable_to@ == "Conto / Pagabile a"@
                    &&& r.reference@ == "Riferimento"@
                    &&& r.additional_information@ == "Informazioni supplementari"@
                    &&& r.currency@ == "Valuta"@
                    &&& r.amount@ == "Importo"@
                    &&& r.receipt@ == "Ricevuta"@
                    &&& r.acceptance_point@ == "Punto di accettazione"@
                    &&& r.payable_by@ == "Pagabile da"@
                    &&& r.payable_by_extended@ == "Pagabile da (nome/indirizzo)"@
                    &&& r.payable_by_date@ == "Pagabile fino al"@
                },
            },
    {
        match language {
            Language::German => Labels {
                payment_part: String::from_str("Zahlteil"),
                payable_to: String::from_str("Konto / Zahlbar an"),
                reference: String::from_str("Referenz"),
                additional_information: String::from_str("Zus\u{e4}tzliche Informationen"),
                currency: String::from_str("W\u{e4}hrung"),
                amount: String::from_str("Betrag"),
                receipt: String::from_str("Empfangsschein"),
                acceptance_point: String::from_str("Annahmestelle"),
                payable_by: String::from_str("Zahlbar durch"),
                payable_by_extended: String::from_str("Zahlbar durch (Name/Adresse)"),
                payable_by_date: String::from_str("Zahlbar bis"),
            },
            Language::English => Labels {
                payment_part: String::from_str("Payment part"),
                payable_to: String::from_str("Account / Payable to"),
                reference: String::from_str("Reference"),
                additional_information: String::from_str("Additional information"),
                currency: String::from_str("Currency"),
                amount: String::from_str("Amount"),
                receipt: String::from_str("Receipt"),
                acceptance_point: String::from_str("Acceptance point"),
                payable_by: String::from_str("Payable by"),
                payable_by_extended: String::from_str("Payable by (name/address)"),
                payable_by_date: String::from_str("Payable by"),
            },
            Language::French => Labels {
                payment_part: String::from_str("Section paiement"),
                payable_to: String::from_str("Compte / Payable \u{e0}"),
                reference: String::from_str("R\u{e9}f\u{e9}rence"),
                additional_information: String::from_str(
                    "Informations suppl\u{e9}mentaires"),
                currency: String::from_str("Monnaie"),
                amount: String::from_str("Montant"),
                receipt: String::from_str("R\u{e9}c\u{e9}piss\u{e9}"),
                acceptance_point: String::from_str("Point de d\u{e9}p\u{f4}t"),
                payable_by: String::from_str("Payable par"),
                payable_by_extended: String::from_str("Payable par (nom/adresse)"),
                payable_by_date: String::from_str("Payable jusqu\u{2019}au"),
            },
            Language::Italian => Labels {
                payment_part: String::from_str("Sezione pagamento"),
                payable_to: String::from_str("Conto / Pagabile a"),
                reference: String::from_str("Riferimento"),
                additional_information: String::from_str("Informazioni supplementari"),
                currency: String::from_str("Valuta"),
                amount: String::from_str("Importo"),
                receipt: String::from_str("Ricevuta"),
                acceptance_point: String::from_str("Punto di accettazione"),
                payable_by: String::from_str("Pagabile da"),
                payable_by_extended: String::from_str("Pagabile da (nome/indirizzo)"),
                payable_by_date: String::from_str("Pagabile fino al"),
            },
        }
    }
}

/// One label in all four languages.
#[derive(Debug)]
pub struct Translation {
    en: String,
    de: String,
    fr: String,
    it: String,
}

impl Translation {
    pub closed spec fn spec_en(&self) -> Seq<char> {
        self.en@
    }

    pub closed spec fn spec_de(&self) -> Seq<char> {
        self.de@
    }

    pub closed spec fn spec_fr(&self) -> Seq<char> {
        self.fr@
    }

    pub closed spec fn spec_it(&self) -> Seq<char> {
        self.it@
    }

    /// A label from its four renderings.
    pub fn new(en: &str, de: &str, fr: &str, it: &str) -> (r: Translation)
        ensures
            r.spec_en() == en@,
            r.spec_de() == de@,
            r.spec_fr() == fr@,
            r.spec_it() == it@,
    {
        Translation {
            en: String::from_str(en),
            de: String::from_str(de),
            fr: String::from_str(fr),
            it: String::from_str(it),
        }
    }

    /// The label's rendering in a language.
    pub fn to(&self, language: Language) -> (r: String)
        ensures
            r@ == match language {
                Language::German => self.spec_de(),
                Language::English => self.spec_en(),
                Language::French => self.spec_fr(),
                Language::Italian => self.spec_it(),
            },
    {
        match language {
            Language::German => self.de.clone(),
            Language::English => self.en.clone(),
            Language::French => self.fr.clone(),
            Language::Italian => self.it.clone(),
        }
    }
}

} // verus!
