//! Billing information: an optional structured emitter and an optional
//! free-text override, with canonical serialization, character-count
//! accounting, and folding into display paragraphs.

use vstd::prelude::*;

pub mod swico;
pub mod utils;

verus! {

use crate::billing_infos::swico::entry_lines;
use crate::billing_infos::swico::lemma_concat_entry_lines;
use crate::billing_infos::swico::parser::parse_ok_set;
use crate::billing_infos::swico::spec_get;
use crate::billing_infos::swico::spec_serialize;
use crate::billing_infos::swico::swico_parse_err;
use crate::billing_infos::swico::Swico;
use crate::billing_infos::swico::SwicoComponent;
use crate::billing_infos::swico::SwicoError;
use crate::billing_infos::swico::syntax::spec_validate_fault;
use crate::billing_infos::utils::concat_all;
use crate::billing_infos::utils::make_paragraph_from_raw;
use crate::billing_infos::utils::spec_paragraph;
use crate::billing_infos::utils::DataType;
use crate::billing_infos::utils::Fold;
use crate::billing_infos::utils::RawData;
use crate::billing_infos::utils::RawDataKind;
use crate::chars::add_clamped;
use vstd::string::StrSliceExecFns;
use vstd::string::StringExecFns;

/// The sources of structured billing data; today only the Swico S1
/// syntax.
#[derive(Debug, Clone)]
enum Emitter {
    Swico(Swico),
}

/// What can go wrong when assembling billing information.
#[derive(Debug)]
pub enum BillingInfoError {
    /// The Swico machinery refused the data.
    Swico(SwicoError),
    /// The text holds no `//S1` marker and cannot be billing data.
    FromParser(String),
}

/// Billing information: an optional structured emitter and an optional
/// standalone free-text override.
///
/// The 140-character cap on the combined texts is enforced where a text
/// enters: [`BillingInfos::add_unstructured`] proves that on success the
/// override plus the serialized structured text stay within 140
/// characters, and the builder refuses a set whose raw field values
/// alone exceed 140. The builder's count is over the values, as the
/// serialized form adds the field delimiters on top; and a value built
/// by parsing carries whatever length the parsed text had. So the cap is
/// a property of those two constructions, not an invariant of every
/// value of this type.
#[derive(Debug, Clone, Default)]
pub struct BillingInfos {
    emitter: Option<Emitter>,
    unstructured_field: Option<String>,
}

impl BillingInfos {
    /// The structured field set of the emitter, if one is present and
    /// carries a set.
    pub closed spec fn emitter_entries(&self)
        -> Option<Seq<(SwicoComponent, Seq<char>)>> {
        match self.emitter {
            Option::Some(Emitter::Swico(ref sw)) => sw.entries(),
            Option::None => Option::None,
        }
    }

    /// The standalone free-text override, if set.
    pub closed spec fn unstructured_override(&self) -> Option<Seq<char>> {
        match self.unstructured_field {
            Option::Some(ref s) => Option::Some(s@),
            Option::None => Option::None,
        }
    }

    /// The canonical structured text: every field but the unstructured
    /// one serialized as delimiter plus value, in ascending id order;
    /// nothing without at least one such field.
    pub open spec fn spec_structured(&self) -> Option<Seq<char>> {
        match self.emitter_entries() {
            Option::Some(v) => if entry_lines(v).len() > 0 {
                Option::Some(spec_serialize(v))
            } else {
                Option::None
            },
            Option::None => Option::None,
        }
    }

    /// The unstructured text: the standalone override when set, else the
    /// emitter's own unstructured field.
    pub open spec fn spec_unstructured(&self) -> Option<Seq<char>> {
        if self.unstructured_override() is Some {
            self.unstructured_override()
        } else {
            match self.emitter_entries() {
                Option::Some(v) => spec_get(v, SwicoComponent::Unstructured),
                Option::None => Option::None,
            }
        }
    }

    /// The combined character count of the unstructured and structured
    /// texts.
    pub open spec fn spec_len(&self) -> int {
        (match self.spec_unstructured() {
            Option::Some(u) => u.len() as int,
            Option::None => 0,
        }) + (match self.spec_structured() {
            Option::Some(s) => s.len() as int,
            Option::None => 0,
        })
    }

    /// Empty billing information.
    pub fn new() -> (r: Self)
        ensures
            r.emitter_entries() is None,
            r.unstructured_override() is None,
    {
        BillingInfos { emitter: Option::None, unstructured_field: Option::None }
    }

    /// Billing information holding just an emitter.
    pub(crate) fn from_emitter(sw: Swico) -> (r: Self)
        ensures
            r.emitter_entries() == sw.entries(),
            r.unstructured_override() is None,
    {
        BillingInfos { emitter: Option::Some(Emitter::Swico(sw)), unstructured_field: Option::None }
    }

    /// An empty Swico emitter, the entry to the fluent builder.
    pub fn swico() -> (r: Swico)
        ensures
            r.entries() is None,
    {
        Swico::new()
    }

    /// Replace the free-text override, leaving the emitter as it is; the
    /// new text on its own and together with the structured text must
    /// stay within 140 characters, else the combined count is reported.
    pub fn add_unstructured(self, text: &str) -> (r: Result<Self, BillingInfoError>)
        ensures
            ({
                let t = text@.len() as int;
                let s = match self.spec_structured() {
                    Option::Some(c) => c.len() as int,
                    Option::None => 0,
                };
                match r {
                    Ok(b) => {
                        &&& t <= 140
                        &&& t + s <= 140
                        &&& b.unstructured_override() == Option::Some(text@)
                        &&& b.emitter_entries() == self.emitter_entries()
                    },
                    Err(BillingInfoError::Swico(SwicoError::TooLong(n))) => {
                        &&& (t > 140 || t + s > 140)
                        &&& (t > 140 ==> n == t)
                        &&& (t <= 140 ==> n as int == if t + s <= usize::MAX as int {
                            t + s
                        } else {
                            usize::MAX as int
                        })
                    },
                    Err(_) => false,
                }
            }),
    {
        let i = text.unicode_len();
        if i > 140 {
            return Err(BillingInfoError::Swico(SwicoError::TooLong(i)));
        }
        match self.structured() {
            Option::Some(c) => {
                let i2 = add_clamped(c.as_str().unicode_len(), i);
                if i2 > 140 {
                    return Err(BillingInfoError::Swico(SwicoError::TooLong(i2)));
                }
            },
            Option::None => {},
        }
        Ok(BillingInfos {
            emitter: self.emitter,
            unstructured_field: Option::Some(String::from_str(text)),
        })
    }

    /// The canonical structured text for the encoded payload.
    pub fn structured(&self) -> (r: Option<String>)
        ensures
            match r {
                Some(s) => self.spec_structured() == Option::Some(s@),
                None => self.spec_structured() is None,
            },
    {
        match &self.emitter {
            Option::Some(Emitter::Swico(x)) => {
                proof {
                    match x.entries() {
                        Option::Some(v) => {
                            lemma_concat_entry_lines(v);
                        },
                        Option::None => {},
                    }
                }
                match x.raw_data() {
                    Option::Some(rd) => rd.fold_from(&DataType::Structured),
                    Option::None => Option::None,
                }
            },
            Option::None => Option::None,
        }
    }

    /// The unstructured text for the encoded payload.
    pub fn unstructured(&self) -> (r: Option<String>)
        ensures
            match r {
                Some(s) => self.spec_unstructured() == Option::Some(s@),
                None => self.spec_unstructured() is None,
            },
    {
        match &self.unstructured_field {
            Option::Some(s) => Option::Some(s.clone()),
            Option::None => {
                match &self.emitter {
                    Option::Some(Emitter::Swico(x)) => {
                        let r = match x.raw_data() {
                            Option::Some(rd) => rd.fold_from(&DataType::Unstructured),
                            Option::None => Option::None,
                        };
                        proof {
                            match x.entries() {
                                Option::Some(v) => {
                                    match spec_get(v, SwicoComponent::Unstructured) {
                                        Option::Some(u) => {
                                            assert(concat_all(seq![u]) =~= u) by {
                                                assert(seq![u].drop_last()
                                                    =~= Seq::<Seq<char>>::empty());
                                                assert(concat_all(Seq::<Seq<char>>::empty())
                                                    =~= Seq::<char>::empty());
                                                assert(seq![u].last() == u);
                                            }
                                        },
                                        Option::None => {},
                                    }
                                },
                                Option::None => {},
                            }
                        }
                        r
                    },
                    Option::None => Option::None,
                }
            },
        }
    }

    /// The combined character count of both texts, clamped at the
    /// largest representable size; recomputed on every call, never
    /// cached.
    pub fn len(&self) -> (r: usize)
        ensures
            r as int == if self.spec_len() <= usize::MAX as int {
                self.spec_len()
            } else {
                usize::MAX as int
            },
    {
        let u: usize = match self.unstructured() {
            Option::Some(f) => f.as_str().unicode_len(),
            Option::None => 0,
        };
        let s: usize = match self.structured() {
            Option::Some(f) => f.as_str().unicode_len(),
            Option::None => 0,
        };
        add_clamped(u, s)
    }

    /// Whether both texts are empty or absent.
    pub fn is_empty(&self) -> (r: bool)
        ensures
            r == (self.spec_len() == 0),
    {
        self.len() == 0
    }

    /// The unstructured lines handed to the paragraph folder: the
    /// override when set, else the emitter's unstructured field.
    pub open spec fn spec_paragraph_uns(&self) -> Option<Seq<Seq<char>>> {
        if self.unstructured_override() is Some {
            Option::Some(seq![self.unstructured_override().unwrap()])
        } else {
            match self.emitter_entries() {
                Option::Some(v) => match spec_get(v, SwicoComponent::Unstructured) {
                    Option::Some(u) => Option::Some(seq![u]),
                    Option::None => Option::None,
                },
                Option::None => Option::None,
            }
        }
    }

    /// The structured lines handed to the paragraph folder: one line per
    /// serialized field.
    pub open spec fn spec_paragraph_strs(&self) -> Option<Seq<Seq<char>>> {
        match self.emitter_entries() {
            Option::Some(v) => if entry_lines(v).len() > 0 {
                Option::Some(entry_lines(v))
            } else {
                Option::None
            },
            Option::None => Option::None,
        }
    }

    /// Fold both texts into display lines: the unstructured text first,
    /// split in the middle when long, then the structured text in one,
    /// two or three lines depending on its length.
    pub fn as_paragraph(&self) -> (r: Option<Vec<String>>)
        ensures
            ({
                let expected = spec_paragraph(self.spec_paragraph_uns(),
                    self.spec_paragraph_strs());
                match r {
                    Some(lines) => expected
                        == Option::Some(lines@.map_values(|x: String| x@)),
                    None => expected is None,
                }
            }),
    {
        let mut rd = RawData::new();
        match &self.emitter {
            Option::Some(Emitter::Swico(x)) => {
                match x.raw_data() {
                    Option::Some(y) => {
                        rd.extend(y);
                    },
                    Option::None => {},
                }
            },
            Option::None => {},
        }
        match &self.unstructured_field {
            Option::Some(u) => {
                let mut lines: Vec<String> = Vec::new();
                lines.push(u.clone());
                proof {
                    assert(lines@.map_values(|s: String| s@) =~= seq![u@]);
                }
                rd.insert(DataType::Unstructured, lines);
            },
            Option::None => {},
        }
        make_paragraph_from_raw(&rd)
    }

    /// Parse billing information from raw text; text without a `//S1`
    /// marker is refused unexamined.
    pub fn from_text(s: &str) -> (r: Result<Self, BillingInfoError>)
        ensures
            ({
                let tagged = crate::chars::spec_find(s@, seq!['/', '/', 'S', '1']) >= 0;
                match r {
                    Err(BillingInfoError::FromParser(t)) => !tagged && t@ == s@,
                    Err(BillingInfoError::Swico(e)) => tagged && swico_parse_err(s@, e),
                    Ok(b) => {
                        &&& tagged
                        &&& b.unstructured_override() is None
                        &&& b.emitter_entries() is Some
                        &&& parse_ok_set(s@, b.emitter_entries().unwrap())
                        &&& spec_validate_fault(b.emitter_entries().unwrap()) is None
                    },
                }
            }),
    {
        let cs = crate::chars::str_to_chars(s);
        let mut marker: Vec<char> = Vec::new();
        marker.push('/');
        marker.push('/');
        marker.push('S');
        marker.push('1');
        proof {
            assert(marker@ =~= seq!['/', '/', 'S', '1']);
        }
        match crate::chars::find_sub(&cs, &marker) {
            Option::Some(_) => {
                match Swico::try_from_str(s) {
                    Ok(sw) => Ok(BillingInfos::from_emitter(sw)),
                    Err(e) => Err(BillingInfoError::Swico(e)),
                }
            },
            Option::None => Err(BillingInfoError::FromParser(String::from_str(s))),
        }
    }
}

impl core::str::FromStr for BillingInfos {
    type Err = BillingInfoError;

    fn from_str(s: &str) -> (r: Result<Self, Self::Err>)
        ensures
            ({
                let tagged = crate::chars::spec_find(s@, seq!['/', '/', 'S', '1']) >= 0;
                match r {
                    Err(BillingInfoError::FromParser(t)) => !tagged && t@ == s@,
                    Err(BillingInfoError::Swico(e)) => tagged && swico_parse_err(s@, e),
                    Ok(b) => {
                        &&& tagged
                        &&& b.unstructured_override() is None
                        &&& b.emitter_entries() is Some
                        &&& parse_ok_set(s@, b.emitter_entries().unwrap())
                        &&& spec_validate_fault(b.emitter_entries().unwrap()) is None
                    },
                }
            }),
    {
        BillingInfos::from_text(s)
    }
}

} // verus!
