//! The Swico S1 structured micro-format: the fixed field registry, the
//! ordered field set, and the entry points for parsing and building.

use vstd::prelude::*;

pub mod builder;
pub mod erro;
pub mod parser;
pub mod syntax;

verus! {

use crate::chars::spec_digit_char;
use crate::chars::chars_to_string;
use crate::billing_infos::swico::syntax::Version;
use crate::billing_infos::swico::builder::S1Builder;
pub use crate::billing_infos::swico::erro::SwicoError;

/// The closed set of Swico S1 fields. Each has a fixed numeric id and a
/// fixed delimiter in the serialized text.
#[derive(Debug, Clone, Copy, PartialEq, Eq, Structural)]
pub enum SwicoComponent {
    /// Free text standing before the structured part; no delimiter.
    Unstructured,
    /// The `//S1` marker that opens the structured part.
    Prefix,
    /// `/10/` invoice reference.
    InvoiceRef,
    /// `/11/` document date.
    DocDate,
    /// `/20/` customer reference.
    ClientRef,
    /// `/30/` VAT number.
    VatNum,
    /// `/31/` VAT date or date range.
    VatDate,
    /// `/32/` VAT details.
    VatDetails,
    /// `/33/` VAT on imports.
    VatImport,
    /// `/40/` payment conditions.
    Conditions,
}

/// The numeric id of a component.
pub open spec fn spec_id(c: SwicoComponent) -> int {
    match c {
        SwicoComponent::Unstructured => 0,
        SwicoComponent::Prefix => 1,
        SwicoComponent::InvoiceRef => 10,
        SwicoComponent::DocDate => 11,
        SwicoComponent::ClientRef => 20,
        SwicoComponent::VatNum => 30,
        SwicoComponent::VatDate => 31,
        SwicoComponent::VatDetails => 32,
        SwicoComponent::VatImport => 33,
        SwicoComponent::Conditions => 40,
    }
}

/// The delimiter a component carries in serialized text: nothing for the
/// unstructured field, `//` for the prefix, `/NN/` for numbered fields.
pub open spec fn spec_delim(c: SwicoComponent) -> Seq<char> {
    match c {
        SwicoComponent::Unstructured => Seq::empty(),
        SwicoComponent::Prefix => seq!['/', '/'],
        SwicoComponent::InvoiceRef => seq!['/', '1', '0', '/'],
        SwicoComponent::DocDate => seq!['/', '1', '1', '/'],
        SwicoComponent::ClientRef => seq!['/', '2', '0', '/'],
        SwicoComponent::VatNum => seq!['/', '3', '0', '/'],
        SwicoComponent::VatDate => seq!['/', '3', '1', '/'],
        SwicoComponent::VatDetails => seq!['/', '3', '2', '/'],
        SwicoComponent::VatImport => seq!['/', '3', '3', '/'],
        SwicoComponent::Conditions => seq!['/', '4', '0', '/'],
    }
}

/// The eight components that carry a `/NN/` delimiter, in id order.
pub open spec fn spec_for_parsing() -> Seq<SwicoComponent> {
    seq![
        SwicoComponent::InvoiceRef,
        SwicoComponent::DocDate,
        SwicoComponent::ClientRef,
        SwicoComponent::VatNum,
        SwicoComponent::VatDate,
        SwicoComponent::VatDetails,
        SwicoComponent::VatImport,
        SwicoComponent::Conditions,
    ]
}

/// Whether a two-digit id belongs to a component with a `/NN/` delimiter.
pub open spec fn spec_is_parse_id(i: int) -> bool {
    i == 10 || i == 11 || i == 20 || i == 30 || i == 31 || i == 32 || i == 33 || i == 40
}

/// The `/NN/` beacon text of a two-digit id.
pub open spec fn spec_beacon(i: int) -> Seq<char> {
    seq!['/', spec_digit_char(i / 10), spec_digit_char(i % 10), '/']
}

/// The beacons of the ids below `n` that no component uses, in ascending
/// id order.
pub open spec fn spec_invalids_up_to(n: int) -> Seq<Seq<char>>
    decreases n,
{
    if n <= 0 {
        Seq::empty()
    } else {
        spec_invalids_up_to(n - 1) + (if spec_is_parse_id(n - 1) {
            Seq::<Seq<char>>::empty()
        } else {
            seq![spec_beacon(n - 1)]
        })
    }
}

impl SwicoComponent {
    /// The numeric id of this component.
    pub fn get_id(&self) -> (r: u8)
        ensures
            r == spec_id(*self),
    {
        match self {
            SwicoComponent::Unstructured => 0,
            SwicoComponent::Prefix => 1,
            SwicoComponent::InvoiceRef => 10,
            SwicoComponent::DocDate => 11,
            SwicoComponent::ClientRef => 20,
            SwicoComponent::VatNum => 30,
            SwicoComponent::VatDate => 31,
            SwicoComponent::VatDetails => 32,
            SwicoComponent::VatImport => 33,
            SwicoComponent::Conditions => 40,
        }
    }

    /// The delimiter of this component, as characters.
    pub fn delim_chars(&self) -> (r: Vec<char>)
        ensures
            r@ == spec_delim(*self),
    {
        let mut r: Vec<char> = Vec::new();
        match self {
            SwicoComponent::Unstructured => {},
            SwicoComponent::Prefix => {
                r.push('/');
                r.push('/');
            },
            _ => {
                r.push('/');
                let id = self.get_id();
                r.push(crate::chars::digit_char((id / 10) as u32));
                r.push(crate::chars::digit_char((id % 10) as u32));
                r.push('/');
            },
        }
        proof {
            assert(r@ =~= spec_delim(*self));
        }
        r
    }

    /// The components the parser searches for, in id order.
    pub fn for_parsing() -> (r: Vec<SwicoComponent>)
        ensures
            r@ == spec_for_parsing(),
    {
        let mut r: Vec<SwicoComponent> = Vec::new();
        r.push(SwicoComponent::InvoiceRef);
        r.push(SwicoComponent::DocDate);
        r.push(SwicoComponent::ClientRef);
        r.push(SwicoComponent::VatNum);
        r.push(SwicoComponent::VatDate);
        r.push(SwicoComponent::VatDetails);
        r.push(SwicoComponent::VatImport);
        r.push(SwicoComponent::Conditions);
        proof {
            assert(r@ =~= spec_for_parsing());
        }
        r
    }

    /// The `/NN/` beacons of every two-digit id no component uses, in
    /// ascending id order.
    pub fn invalids() -> (r: Vec<String>)
        ensures
            r@.map_values(|s: String| s@) == spec_invalids_up_to(100),
    {
        let mut r: Vec<String> = Vec::new();
        let mut i: u32 = 0;
        while i < 100
            invariant
                0 <= i <= 100,
                r@.map_values(|s: String| s@) == spec_invalids_up_to(i as int),
            decreases 100 - i,
        {
            let ghost pre = r@.map_values(|s: String| s@);
            if !(i == 10 || i == 11 || i == 20 || i == 30 || i == 31 || i == 32 || i == 33
                || i == 40) {
                let mut b: Vec<char> = Vec::new();
                b.push('/');
                b.push(crate::chars::digit_char(i / 10));
                b.push(crate::chars::digit_char(i % 10));
                b.push('/');
                proof {
                    assert(b@ =~= spec_beacon(i as int));
                }
                r.push(chars_to_string(&b));
            }
            proof {
                assert(r@.map_values(|s: String| s@) =~= spec_invalids_up_to(i + 1));
            }
            i = i + 1;
        }
        r
    }
}

/// An ordered association from components to their textual values, kept
/// sorted by ascending component id with no id repeated.
#[derive(Debug)]
pub struct StructuredSet {
    entries: Vec<(SwicoComponent, String)>,
}

impl Clone for StructuredSet {
    fn clone(&self) -> (r: Self)
        ensures
            r@ == self@,
    {
        let mut entries: Vec<(SwicoComponent, String)> = Vec::new();
        let mut i: usize = 0;
        while i < self.entries.len()
            invariant
                0 <= i <= self.entries@.len(),
                entries@.map_values(|e: (SwicoComponent, String)| (e.0, e.1@))
                    == self@.take(i as int),
            decreases self.entries.len() - i,
        {
            let ghost before = entries@;
            let (c, v) = (self.entries[i].0, self.entries[i].1.clone());
            entries.push((c, v));
            proof {
                let m = entries@.map_values(|e: (SwicoComponent, String)| (e.0, e.1@));
                let mo = before.map_values(|e: (SwicoComponent, String)| (e.0, e.1@));
                assert(mo =~= self@.take(i as int));
                assert(mo.len() == i as int);
                assert(before.len() == mo.len());
                assert(entries@.drop_last() =~= before);
                assert forall|q: int| 0 <= q < m.len() implies m[q] == self@.take(i + 1)[q] by {
                    assert(m[q] == (entries@[q].0, entries@[q].1@));
                    if q < i {
                        assert(entries@[q] == entries@.drop_last()[q]);
                        assert(mo[q] == (before[q].0, before[q].1@));
                        assert(mo[q] == self@.take(i as int)[q]);
                        assert(self@.take(i as int)[q] == self@.take(i + 1)[q]);
                    } else {
                        assert(entries@[q] == entries@.last());
                        assert(self@[i as int] == (self.entries@[i as int].0,
                            self.entries@[i as int].1@));
                    }
                }
                assert(m =~= self@.take(i + 1));
            }
            i = i + 1;
        }
        proof {
            assert(self@.take(self@.len() as int) =~= self@);
        }
        StructuredSet { entries }
    }
}

impl View for StructuredSet {
    type V = Seq<(SwicoComponent, Seq<char>)>;

    closed spec fn view(&self) -> Seq<(SwicoComponent, Seq<char>)> {
        self.entries@.map_values(|e: (SwicoComponent, String)| (e.0, e.1@))
    }
}

/// Entries sorted strictly by ascending component id.
pub open spec fn set_wf(s: Seq<(SwicoComponent, Seq<char>)>) -> bool {
    forall|i: int, j: int| 0 <= i < j < s.len() ==>
        spec_id(#[trigger] s[i].0) < spec_id(#[trigger] s[j].0)
}

/// The value at a component, if present.
pub open spec fn spec_get(s: Seq<(SwicoComponent, Seq<char>)>, c: SwicoComponent)
    -> Option<Seq<char>>
    decreases s.len(),
{
    if s.len() == 0 {
        Option::None
    } else if s[0].0 == c {
        Option::Some(s[0].1)
    } else {
        spec_get(s.skip(1), c)
    }
}

/// Entries after inserting a value for a component: an entry with the
/// same id is replaced, otherwise the new entry enters at its id's place.
pub open spec fn spec_insert(
    s: Seq<(SwicoComponent, Seq<char>)>,
    c: SwicoComponent,
    v: Seq<char>,
) -> Seq<(SwicoComponent, Seq<char>)>
    decreases s.len(),
{
    if s.len() == 0 {
        seq![(c, v)]
    } else if spec_id(s[0].0) < spec_id(c) {
        seq![s[0]] + spec_insert(s.skip(1), c, v)
    } else if spec_id(s[0].0) == spec_id(c) {
        seq![(c, v)] + s.skip(1)
    } else {
        seq![(c, v)] + s
    }
}

/// The combined character count of every value in the set, the
/// unstructured field included.
pub open spec fn set_total_len(s: Seq<(SwicoComponent, Seq<char>)>) -> int
    decreases s.len(),
{
    if s.len() == 0 {
        0
    } else {
        set_total_len(s.drop_last()) + s.last().1.len()
    }
}

/// The canonical serialization: each entry but the unstructured one
/// contributes its delimiter followed by its value, in stored order.
pub open spec fn spec_serialize(s: Seq<(SwicoComponent, Seq<char>)>) -> Seq<char>
    decreases s.len(),
{
    if s.len() == 0 {
        Seq::empty()
    } else {
        spec_serialize(s.drop_last()) + (if s.last().0 is Unstructured {
            Seq::<char>::empty()
        } else {
            spec_delim(s.last().0) + s.last().1
        })
    }
}

impl StructuredSet {
    /// An empty set.
    pub fn new() -> (r: Self)
        ensures
            r@ == Seq::<(SwicoComponent, Seq<char>)>::empty(),
            set_wf(r@),
    {
        StructuredSet { entries: Vec::new() }
    }

    /// The number of entries.
    pub fn len(&self) -> (r: usize)
        ensures
            r == self@.len(),
    {
        self.entries.len()
    }

    /// The entry at an index.
    pub fn entry_at(&self, i: usize) -> (r: (SwicoComponent, String))
        requires
            i < self@.len(),
        ensures
            r.0 == self@[i as int].0,
            r.1@ == self@[i as int].1,
    {
        (self.entries[i].0, self.entries[i].1.clone())
    }

    /// The value stored for a component, if any.
    pub fn get(&self, c: SwicoComponent) -> (r: Option<String>)
        ensures
            match r {
                Some(v) => spec_get(self@, c) == Option::Some(v@),
                None => spec_get(self@, c) is None,
            },
    {
        let mut i: usize = 0;
        proof {
            assert(self@.skip(0) =~= self@);
        }
        while i < self.entries.len()
            invariant
                0 <= i <= self@.len(),
                spec_get(self@, c) == spec_get(self@.skip(i as int), c),
            decreases self.entries.len() - i,
        {
            proof {
                assert(self@.skip(i as int)[0] == self@[i as int]);
                assert(self@.skip(i as int).skip(1) =~= self@.skip(i + 1));
            }
            if self.entries[i].0 == c {
                return Some(self.entries[i].1.clone());
            }
            i = i + 1;
        }
        proof {
            assert(self@.skip(i as int) =~= Seq::<(SwicoComponent, Seq<char>)>::empty());
        }
        None
    }

    /// Store a value for a component, keeping the entries sorted by id; a
    /// value already stored for the same component is replaced.
    #[verifier::rlimit(100)]
    pub fn insert(&mut self, c: SwicoComponent, v: String)
        ensures
            final(self)@ == spec_insert(old(self)@, c, v@),
    {
        let mut i: usize = 0;
        proof {
            assert(self@.take(0) =~= Seq::<(SwicoComponent, Seq<char>)>::empty());
            assert(self@.skip(0) =~= self@);
            assert(self@.take(0) + spec_insert(self@.skip(0), c, v@)
                =~= spec_insert(self@, c, v@));
        }
        while i < self.entries.len() && self.entries[i].0.get_id() < c.get_id()
            invariant
                0 <= i <= self@.len(),
                self@ == old(self)@,
                forall|j: int| 0 <= j < i ==> spec_id(#[trigger] self@[j].0) < spec_id(c),
                spec_insert(self@, c, v@) == self@.take(i as int)
                    + spec_insert(self@.skip(i as int), c, v@),
            decreases self.entries.len() - i,
        {
            proof {
                let s = self@.skip(i as int);
                assert(s[0] == self@[i as int]);
                assert(s.skip(1) =~= self@.skip(i + 1));
                assert(spec_insert(s, c, v@) == seq![s[0]] + spec_insert(s.skip(1), c, v@));
                assert(self@.take(i as int) + (seq![s[0]] + spec_insert(s.skip(1), c, v@))
                    =~= self@.take(i + 1) + spec_insert(self@.skip(i + 1), c, v@))
                by {
                    assert(self@.take(i + 1) =~= self@.take(i as int) + seq![self@[i as int]]);
                }
            }
            i = i + 1;
        }
        let ghost olds = self@;
        if i < self.entries.len() && self.entries[i].0.get_id() == c.get_id() {
            proof {
                let s = olds.skip(i as int);
                assert(s[0] == olds[i as int]);
                assert(s.skip(1) =~= olds.skip(i + 1));
                lemma_id_injective(olds[i as int].0, c);
            }
            self.entries.remove(i);
            self.entries.insert(i, (c, v));
            proof {
                assert(final(self)@ =~= olds.take(i as int) + spec_insert(olds.skip(i as int), c, v@));
            }
        } else {
            proof {
                let s = olds.skip(i as int);
                if s.len() > 0 {
                    assert(s[0] == olds[i as int]);
                }
                assert(spec_insert(s, c, v@) == seq![(c, v@)] + s);
            }
            self.entries.insert(i, (c, v));
            proof {
                assert(final(self)@ =~= olds.take(i as int) + (seq![(c, v@)] + olds.skip(i as int)));
            }
        }
    }
}

/// The combined length of a set's values is never negative.
pub proof fn lemma_total_len_nonneg(s: Seq<(SwicoComponent, Seq<char>)>)
    ensures
        set_total_len(s) >= 0,
    decreases s.len(),
{
    if s.len() > 0 {
        lemma_total_len_nonneg(s.drop_last());
    }
}

/// Components with equal ids are the same component.
pub proof fn lemma_id_injective(a: SwicoComponent, b: SwicoComponent)
    requires
        spec_id(a) == spec_id(b),
    ensures
        a == b,
{
}

/// Insertion keeps the entries sorted and updates exactly the given
/// component's value.
#[verifier::rlimit(100)]
pub proof fn lemma_insert_wf(s: Seq<(SwicoComponent, Seq<char>)>, c: SwicoComponent, v: Seq<char>)
    requires
        set_wf(s),
    ensures
        set_wf(spec_insert(s, c, v)),
        spec_get(spec_insert(s, c, v), c) == Option::Some(v),
        forall|c2: SwicoComponent| c2 != c ==>
            #[trigger] spec_get(spec_insert(s, c, v), c2) == spec_get(s, c2),
        spec_insert(s, c, v).len() == if spec_get(s, c) is Some { s.len() } else { s.len() + 1 },
    decreases s.len(),
{
    let r = spec_insert(s, c, v);
    if s.len() == 0 {
        assert(r =~= seq![(c, v)]);
        assert(r.skip(1) =~= Seq::<(SwicoComponent, Seq<char>)>::empty());
        assert forall|c2: SwicoComponent| c2 != c implies
            #[trigger] spec_get(r, c2) == spec_get(s, c2) by {
            assert(spec_get(r, c2) == spec_get(r.skip(1), c2));
        }
    } else if spec_id(s[0].0) < spec_id(c) {
        assert(forall|i: int, j: int| 0 <= i < j < s.skip(1).len() ==>
            spec_id(#[trigger] s.skip(1)[i].0) < spec_id(#[trigger] s.skip(1)[j].0));
        lemma_insert_wf(s.skip(1), c, v);
        let r1 = spec_insert(s.skip(1), c, v);
        assert(r == seq![s[0]] + r1);
        assert(r[0] == s[0]);
        assert(forall|i: int| 0 <= i < r1.len() ==> r[i + 1] == #[trigger] r1[i]);
        // every entry of the inserted tail has id above the head's
        assert forall|i: int| 0 <= i < r1.len() implies spec_id(s[0].0) < spec_id(r1[i].0) by {
            lemma_insert_ids(s.skip(1), c, v, i);
        }
        assert(set_wf(r));
        assert(r.skip(1) =~= r1);
        assert(spec_get(r, c) == Option::Some(v));
        assert forall|c2: SwicoComponent| c2 != c implies
            #[trigger] spec_get(r, c2) == spec_get(s, c2) by {
            assert(r[0] == s[0]);
            if s[0].0 == c2 {
                assert(spec_get(r, c2) == Option::Some(s[0].1));
                assert(spec_get(s, c2) == Option::Some(s[0].1));
            } else {
                assert(spec_get(r, c2) == spec_get(r1, c2));
                assert(spec_get(r1, c2) == spec_get(s.skip(1), c2));
                assert(spec_get(s, c2) == spec_get(s.skip(1), c2));
            }
        }
    } else if spec_id(s[0].0) == spec_id(c) {
        lemma_id_injective(s[0].0, c);
        assert(r == seq![(c, v)] + s.skip(1));
        assert(r.skip(1) =~= s.skip(1));
        assert(r[0] == (c, v));
        assert forall|c2: SwicoComponent| c2 != c implies
            #[trigger] spec_get(r, c2) == spec_get(s, c2) by {
            assert(spec_get(r, c2) == spec_get(s.skip(1), c2));
            assert(s[0].0 == c);
            assert(spec_get(s, c2) == spec_get(s.skip(1), c2));
        }
        assert forall|i: int, j: int| 0 <= i < j < r.len() implies
            spec_id(#[trigger] r[i].0) < spec_id(#[trigger] r[j].0) by {
            if i == 0 {
                assert(r[j] == s.skip(1)[j - 1]);
                assert(s.skip(1)[j - 1] == s[j]);
            } else {
                assert(r[i] == s[i] && r[j] == s[j]);
            }
        }
    } else {
        assert(r == seq![(c, v)] + s);
        assert(r.skip(1) =~= s);
        assert forall|i: int, j: int| 0 <= i < j < r.len() implies
            spec_id(#[trigger] r[i].0) < spec_id(#[trigger] r[j].0) by {
            if i == 0 {
                assert(r[j] == s[j - 1]);
                if j - 1 > 0 {
                    assert(spec_id(s[0].0) < spec_id(s[j - 1].0));
                }
            } else {
                assert(r[i] == s[i - 1] && r[j] == s[j - 1]);
            }
        }
        if s[0].0 == c {
            assert(spec_id(s[0].0) == spec_id(c));
            assert(false);
        }
        lemma_get_absent(s, c);
        assert(r[0] == (c, v));
        assert forall|c2: SwicoComponent| c2 != c implies
            #[trigger] spec_get(r, c2) == spec_get(s, c2) by {
            assert(r.skip(1) =~= s);
            assert(spec_get(r, c2) == spec_get(s, c2));
        }
    }
}

/// Every entry of an insertion result has the inserted id or an id from
/// the original entries.
proof fn lemma_insert_ids(
    s: Seq<(SwicoComponent, Seq<char>)>,
    c: SwicoComponent,
    v: Seq<char>,
    i: int,
)
    requires
        0 <= i < spec_insert(s, c, v).len(),
    ensures
        spec_insert(s, c, v)[i].0 == c || exists|j: int|
            0 <= j < s.len() && #[trigger] s[j].0 == spec_insert(s, c, v)[i].0,
    decreases s.len(),
{
    let r = spec_insert(s, c, v);
    if s.len() == 0 {
    } else if spec_id(s[0].0) < spec_id(c) {
        if i == 0 {
            assert(r[0] == s[0]);
        } else {
            lemma_insert_ids(s.skip(1), c, v, i - 1);
            let r1 = spec_insert(s.skip(1), c, v);
            assert(r[i] == r1[i - 1]);
            if r1[i - 1].0 != c {
                let j = choose|j: int| 0 <= j < s.skip(1).len()
                    && #[trigger] s.skip(1)[j].0 == r1[i - 1].0;
                assert(s[j + 1].0 == r[i].0);
            }
        }
    } else if spec_id(s[0].0) == spec_id(c) {
        if i > 0 {
            assert(r[i] == s.skip(1)[i - 1]);
            assert(s[i].0 == r[i].0);
        }
    } else {
        if i > 0 {
            assert(r[i] == s[i - 1]);
            assert(s[i - 1].0 == r[i].0);
        }
    }
}

/// In a set whose head has an id above a component's, that component is
/// absent.
proof fn lemma_get_absent(s: Seq<(SwicoComponent, Seq<char>)>, c: SwicoComponent)
    requires
        set_wf(s),
        s.len() > 0,
        spec_id(s[0].0) > spec_id(c),
    ensures
        spec_get(s, c) is None,
    decreases s.len(),
{
    if s[0].0 == c {
        assert(false);
    }
    if s.len() > 1 {
        assert(forall|i: int, j: int| 0 <= i < j < s.skip(1).len() ==>
            spec_id(#[trigger] s.skip(1)[i].0) < spec_id(#[trigger] s.skip(1)[j].0));
        assert(s.skip(1)[0] == s[1]);
        lemma_get_absent(s.skip(1), c);
    } else {
        assert(s.skip(1) =~= Seq::<(SwicoComponent, Seq<char>)>::empty());
    }
}

/// One display line per serialized field: each entry but the
/// unstructured one yields its delimiter followed by its value.
pub open spec fn entry_lines(s: Seq<(SwicoComponent, Seq<char>)>) -> Seq<Seq<char>>
    decreases s.len(),
{
    if s.len() == 0 {
        Seq::empty()
    } else {
        entry_lines(s.drop_last()) + (if s.last().0 is Unstructured {
            Seq::<Seq<char>>::empty()
        } else {
            seq![spec_delim(s.last().0) + s.last().1]
        })
    }
}

/// Concatenating the per-field lines gives the canonical serialization.
pub proof fn lemma_concat_entry_lines(s: Seq<(SwicoComponent, Seq<char>)>)
    ensures
        crate::billing_infos::utils::concat_all(entry_lines(s)) == spec_serialize(s),
    decreases s.len(),
{
    if s.len() > 0 {
        lemma_concat_entry_lines(s.drop_last());
        let pre = entry_lines(s.drop_last());
        if s.last().0 is Unstructured {
            assert(entry_lines(s) =~= pre);
            assert(spec_serialize(s) =~= spec_serialize(s.drop_last()));
        } else {
            let line = spec_delim(s.last().0) + s.last().1;
            assert(entry_lines(s) =~= pre.push(line));
            assert(pre.push(line).drop_last() =~= pre);
            assert(crate::billing_infos::utils::concat_all(pre.push(line))
                == crate::billing_infos::utils::concat_all(pre) + line);
        }
    } else {
        assert(entry_lines(s) =~= Seq::<Seq<char>>::empty());
    }
}

impl crate::billing_infos::utils::TotalLenght for StructuredSet {
    /// The combined character count of all values, the unstructured field
    /// included.
    open spec fn spec_tot_len(&self) -> int {
        set_total_len(self@)
    }

    fn tot_len(&self) -> (r: usize)
    {
        proof {
            lemma_total_len_nonneg(self@);
            assert(self@.take(0) =~= Seq::<(SwicoComponent, Seq<char>)>::empty());
        }
        let mut acc: usize = 0;
        let mut i: usize = 0;
        while i < self.entries.len()
            invariant
                0 <= i <= self@.len(),
                acc as int == if set_total_len(self@.take(i as int)) <= usize::MAX as int {
                    set_total_len(self@.take(i as int))
                } else {
                    usize::MAX as int
                },
            decreases self.entries.len() - i,
        {
            let li = self.entries[i].1.as_str().unicode_len();
            proof {
                assert(self@.take(i + 1).drop_last() =~= self@.take(i as int));
                assert(self@.take(i + 1).last() == self@[i as int]);
                assert(self@[i as int].1 == self.entries@[i as int].1@);
                lemma_total_len_nonneg(self@.take(i as int));
            }
            acc = crate::chars::add_clamped(acc, li);
            i = i + 1;
        }
        proof {
            assert(self@.take(self@.len() as int) =~= self@);
        }
        acc
    }
}

/// The structured-data emitter: today only the Swico S1 syntax, held as
/// an optional validated version.
#[derive(Debug, Clone, Default)]
pub struct Swico {
    pub(crate) version: Option<Version>,
}

impl Swico {
    /// The field set this emitter holds, if it was given one.
    pub closed spec fn entries(&self) -> Option<Seq<(SwicoComponent, Seq<char>)>> {
        match self.version {
            Option::Some(v) => Option::Some(v@),
            Option::None => Option::None,
        }
    }

    /// An empty emitter.
    pub fn new() -> (r: Self)
        ensures
            r.entries() is None,
    {
        Swico { version: Option::None }
    }

    /// A builder for the S1 syntax.
    pub fn s1_builder(self) -> (r: S1Builder)
        ensures
            r@ == Seq::<(SwicoComponent, Seq<char>)>::empty(),
    {
        S1Builder::new()
    }

    /// Parse and validate a raw Swico string.
    pub fn try_from_str(value: &str) -> (r: Result<Swico, SwicoError>)
        ensures
            match r {
                Ok(sw) => {
                    &&& sw.entries() is Some
                    &&& crate::billing_infos::swico::parser::parse_ok_set(value@,
                        sw.entries().unwrap())
                    &&& crate::billing_infos::swico::syntax::spec_validate_fault(
                        sw.entries().unwrap()) is None
                },
                Err(e) => swico_parse_err(value@, e),
            },
    {
        match crate::billing_infos::swico::parser::s1_parser(value) {
            Ok(vers) => {
                let ghost parsed = vers@;
                match vers.validate_syntax() {
                    Ok(v) => Ok(Swico { version: Option::Some(v) }),
                    Err(e) => {
                        proof {
                            assert(crate::billing_infos::swico::parser::parse_ok_set(
                                value@, parsed));
                        }
                        Err(SwicoError::FromSyntaxValidator(e))
                    },
                }
            },
            Err(e) => Err(SwicoError::FromSyntaxParser(e)),
        }
    }
}

/// How a failed Swico parse or validation relates to the raw input: the
/// parser errors name the first unknown beacon or the missing markers,
/// and a validator error reports the first fault of the set the parser
/// would have produced.
pub open spec fn swico_parse_err(cs: Seq<char>, e: SwicoError) -> bool {
    match e {
        SwicoError::FromSyntaxParser(pe) => match pe {
            crate::billing_infos::swico::parser::SyntaxParserError::InvalidBeacons(t) => {
                &&& crate::billing_infos::swico::parser::spec_bad_beacon(cs) >= 0
                &&& t@ == spec_beacon(crate::billing_infos::swico::parser::spec_bad_beacon(cs))
            },
            crate::billing_infos::swico::parser::SyntaxParserError::IndexError => {
                let f = crate::chars::spec_find(cs, seq!['/', '/', 'S', '1']);
                let st = cs.skip(f + 4);
                &&& crate::billing_infos::swico::parser::spec_bad_beacon(cs) == -1
                &&& (f < 0 || (forall|k: int| 0 <= k < 8 ==>
                    crate::chars::spec_find(st,
                        spec_delim(#[trigger] spec_for_parsing()[k])) < 0))
            },
        },
        SwicoError::FromSyntaxValidator(ve) => exists|v: Seq<(SwicoComponent, Seq<char>)>|
            #[trigger] crate::billing_infos::swico::parser::parse_ok_set(cs, v)
                && crate::billing_infos::swico::syntax::fault_matches(ve,
                    crate::billing_infos::swico::syntax::spec_validate_fault(v)),
        SwicoError::TooLong(_) => false,
    }
}

impl crate::billing_infos::utils::RawDataKind for Version {
    /// The unstructured field as a single line, when present.
    open spec fn spec_unstructured_part(&self) -> Option<Seq<Seq<char>>> {
        match spec_get(self@, SwicoComponent::Unstructured) {
            Option::Some(u) => Option::Some(seq![u]),
            Option::None => Option::None,
        }
    }

    /// One line per serialized field, when there is at least one.
    open spec fn spec_structured_part(&self) -> Option<Seq<Seq<char>>> {
        if entry_lines(self@).len() > 0 {
            Option::Some(entry_lines(self@))
        } else {
            Option::None
        }
    }

    fn raw_data(&self) -> (r: Option<crate::billing_infos::utils::RawData>)
    {
        let set = match self {
            Version::S1(s) => s,
        };
        let mut rd = crate::billing_infos::utils::RawData::new();
        match set.get(SwicoComponent::Unstructured) {
            Option::Some(u) => {
                let mut lines: Vec<String> = Vec::new();
                lines.push(u);
                proof {
                    assert(lines@.map_values(|s: String| s@)
                        =~= seq![spec_get(set@, SwicoComponent::Unstructured).unwrap()]);
                }
                rd.insert(crate::billing_infos::utils::DataType::Unstructured, lines);
            },
            Option::None => {},
        }
        let mut strs: Vec<String> = Vec::new();
        let mut i: usize = 0;
        while i < set.len()
            invariant
                0 <= i <= set@.len(),
                strs@.map_values(|s: String| s@) == entry_lines(set@.take(i as int)),
            decreases set@.len() - i,
        {
            let (c, v) = set.entry_at(i);
            proof {
                assert(set@.take(i + 1).drop_last() =~= set@.take(i as int));
                assert(set@.take(i + 1).last() == set@[i as int]);
            }
            let is_uns = match c {
                SwicoComponent::Unstructured => true,
                _ => false,
            };
            if !is_uns {
                let mut line = c.delim_chars();
                let mut tail = crate::chars::str_to_chars(v.as_str());
                line.append(&mut tail);
                strs.push(chars_to_string(&line));
                proof {
                    assert(strs@.map_values(|s: String| s@)
                        =~= entry_lines(set@.take(i + 1)));
                }
            } else {
                proof {
                    assert(strs@.map_values(|s: String| s@)
                        =~= entry_lines(set@.take(i + 1)));
                }
            }
            i = i + 1;
        }
        proof {
            assert(set@.take(set@.len() as int) =~= set@);
        }
        if strs.len() > 0 {
            rd.insert(crate::billing_infos::utils::DataType::Structured, strs);
        }
        if rd.is_empty() {
            Option::None
        } else {
            Option::Some(rd)
        }
    }
}

impl crate::billing_infos::utils::RawDataKind for Swico {
    /// The unstructured field of the held set as a single line.
    open spec fn spec_unstructured_part(&self) -> Option<Seq<Seq<char>>> {
        match self.entries() {
            Option::Some(v) => match spec_get(v, SwicoComponent::Unstructured) {
                Option::Some(u) => Option::Some(seq![u]),
                Option::None => Option::None,
            },
            Option::None => Option::None,
        }
    }

    /// One line per serialized field of the held set.
    open spec fn spec_structured_part(&self) -> Option<Seq<Seq<char>>> {
        match self.entries() {
            Option::Some(v) => if entry_lines(v).len() > 0 {
                Option::Some(entry_lines(v))
            } else {
                Option::None
            },
            Option::None => Option::None,
        }
    }

    fn raw_data(&self) -> (r: Option<crate::billing_infos::utils::RawData>)
    {
        match &self.version {
            Option::Some(v) => crate::billing_infos::utils::RawDataKind::raw_data(v),
            Option::None => Option::None,
        }
    }
}

} // verus!
