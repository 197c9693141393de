//! Folding billing information into display paragraphs: the raw-data
//! carrier exchanged between the emitter and the folding logic, and the
//! line-splitting rules.

use vstd::prelude::*;

verus! {

use crate::chars::chars_to_string;
use crate::chars::copy_range;
use crate::chars::spec_trim;
use crate::chars::str_to_chars;
use crate::chars::trim_chars;

/// Which of the two kinds of billing data a raw-data slot holds.
#[derive(Debug, Clone, Copy, PartialEq, Eq, Structural, Hash)]
pub enum DataType {
    Unstructured,
    Structured,
}

/// The concatenation of a list of character strings.
pub open spec fn concat_all(vs: Seq<Seq<char>>) -> Seq<char>
    decreases vs.len(),
{
    if vs.len() == 0 {
        Seq::empty()
    } else {
        concat_all(vs.drop_last()) + vs.last()
    }
}

/// The combined length of a list of character strings.
pub open spec fn sum_lens(vs: Seq<Seq<char>>) -> int
    decreases vs.len(),
{
    if vs.len() == 0 {
        0
    } else {
        sum_lens(vs.drop_last()) + vs.last().len()
    }
}

/// A sum of lengths is the length of the concatenation.
pub proof fn lemma_sum_is_concat_len(vs: Seq<Seq<char>>)
    ensures
        sum_lens(vs) == concat_all(vs).len(),
    decreases vs.len(),
{
    if vs.len() > 0 {
        lemma_sum_is_concat_len(vs.drop_last());
    }
}

/// Display lines grouped by kind, handed from the emitter to the
/// paragraph folder.
#[derive(Debug)]
pub struct RawData {
    unstructured: Option<Vec<String>>,
    structured: Option<Vec<String>>,
}

impl RawData {
    /// The unstructured lines, as character strings.
    pub closed spec fn uns_view(&self) -> Option<Seq<Seq<char>>> {
        match self.unstructured {
            Option::Some(ref v) => Option::Some(v@.map_values(|s: String| s@)),
            Option::None => Option::None,
        }
    }

    /// The structured lines, as character strings.
    pub closed spec fn str_view(&self) -> Option<Seq<Seq<char>>> {
        match self.structured {
            Option::Some(ref v) => Option::Some(v@.map_values(|s: String| s@)),
            Option::None => Option::None,
        }
    }

    /// An unstructured slot, when present, holds at least one line.
    pub open spec fn wf(&self) -> bool {
        self.uns_view() is Some ==> self.uns_view().unwrap().len() >= 1
    }

    /// An empty carrier.
    pub fn new() -> (r: Self)
        ensures
            r.uns_view() is None,
            r.str_view() is None,
    {
        RawData { unstructured: Option::None, structured: Option::None }
    }

    /// Whether neither slot is filled.
    pub fn is_empty(&self) -> (r: bool)
        ensures
            r == (self.uns_view() is None && self.str_view() is None),
    {
        self.unstructured.is_none() && self.structured.is_none()
    }

    /// Fill one slot, replacing what it held.
    pub fn insert(&mut self, d: DataType, v: Vec<String>)
        ensures
            match d {
                DataType::Unstructured => {
                    &&& final(self).uns_view()
                        == Option::Some(v@.map_values(|s: String| s@))
                    &&& final(self).str_view() == old(self).str_view()
                },
                DataType::Structured => {
                    &&& final(self).str_view()
                        == Option::Some(v@.map_values(|s: String| s@))
                    &&& final(self).uns_view() == old(self).uns_view()
                },
            },
    {
        match d {
            DataType::Unstructured => {
                self.unstructured = Option::Some(v);
            },
            DataType::Structured => {
                self.structured = Option::Some(v);
            },
        }
    }

    /// Take over every filled slot of another carrier.
    pub fn extend(&mut self, other: RawData)
        ensures
            final(self).uns_view() == if other.uns_view() is Some {
                other.uns_view()
            } else {
                old(self).uns_view()
            },
            final(self).str_view() == if other.str_view() is Some {
                other.str_view()
            } else {
                old(self).str_view()
            },
    {
        let RawData { unstructured, structured } = other;
        match unstructured {
            Option::Some(v) => {
                self.unstructured = Option::Some(v);
            },
            Option::None => {},
        }
        match structured {
            Option::Some(v) => {
                self.structured = Option::Some(v);
            },
            Option::None => {},
        }
    }

    /// The lines of one slot, copied out.
    pub fn get(&self, d: DataType) -> (r: Option<Vec<String>>)
        ensures
            ({
                let view = match d {
                    DataType::Unstructured => self.uns_view(),
                    DataType::Structured => self.str_view(),
                };
                match r {
                    Some(v) => view == Option::Some(v@.map_values(|s: String| s@)),
                    None => view is None,
                }
            }),
    {
        let slot = match d {
            DataType::Unstructured => &self.unstructured,
            DataType::Structured => &self.structured,
        };
        match slot {
            Option::Some(v) => Option::Some(clone_string_vec(v)),
            Option::None => Option::None,
        }
    }
}

/// Copy a vector of strings.
fn clone_string_vec(v: &Vec<String>) -> (r: Vec<String>)
    ensures
        r@.map_values(|s: String| s@) == v@.map_values(|s: String| s@),
{
    let mut r: Vec<String> = Vec::new();
    let mut i: usize = 0;
    while i < v.len()
        invariant
            0 <= i <= v@.len(),
            r@.map_values(|s: String| s@)
                == v@.map_values(|s: String| s@).take(i as int),
        decreases v.len() - i,
    {
        let ghost before = r@;
        r.push(v[i].clone());
        proof {
            let m = r@.map_values(|s: String| s@);
            let mo = before.map_values(|s: String| s@);
            let target = v@.map_values(|s: String| s@);
            assert(mo =~= target.take(i as int));
            assert(mo.len() == i as int);
            assert(before.len() == mo.len());
            assert(r@.drop_last() =~= before);
            assert forall|q: int| 0 <= q < m.len() implies
                m[q] == target.take(i + 1)[q] by {
                assert(m[q] == r@[q]@);
                if q < i {
                    assert(r@[q] == r@.drop_last()[q]);
                    assert(mo[q] == before[q]@);
                    assert(target.take(i as int)[q] == target.take(i + 1)[q]);
                } else {
                    assert(r@[q] == r@.last());
                    assert(target[i as int] == v@[i as int]@);
                }
            }
            assert(m =~= target.take(i + 1));
        }
        i = i + 1;
    }
    proof {
        assert(v@.map_values(|s: String| s@).take(v@.len() as int)
            =~= v@.map_values(|s: String| s@));
    }
    r
}

/// Concatenating the lines of one slot of a raw-data carrier.
pub trait Fold {
    /// The concatenation of one slot's lines, if the slot is filled.
    spec fn spec_fold_from(&self, d: DataType) -> Option<Seq<char>>;

    /// Concatenate one slot's lines.
    fn fold_from(&self, d: &DataType) -> (r: Option<String>)
        ensures
            match r {
                Some(s) => self.spec_fold_from(*d) == Option::Some(s@),
                None => self.spec_fold_from(*d) is None,
            },
    ;
}

impl Fold for RawData {
    open spec fn spec_fold_from(&self, d: DataType) -> Option<Seq<char>> {
        let view = match d {
            DataType::Unstructured => self.uns_view(),
            DataType::Structured => self.str_view(),
        };
        match view {
            Option::Some(vs) => Option::Some(concat_all(vs)),
            Option::None => Option::None,
        }
    }

    fn fold_from(&self, d: &DataType) -> (r: Option<String>)
    {
        match self.get(*d) {
            Option::Some(v) => {
                let ghost vs = v@.map_values(|s: String| s@);
                let mut out: Vec<char> = Vec::new();
                let mut i: usize = 0;
                while i < v.len()
                    invariant
                        0 <= i <= v@.len(),
                        vs == v@.map_values(|s: String| s@),
                        out@ == concat_all(vs.take(i as int)),
                    decreases v.len() - i,
                {
                    let mut piece = str_to_chars(v[i].as_str());
                    out.append(&mut piece);
                    proof {
                        assert(vs.take(i + 1).drop_last() =~= vs.take(i as int));
                        assert(vs.take(i + 1).last() == vs[i as int]);
                    }
                    i = i + 1;
                }
                proof {
                    assert(vs.take(vs.len() as int) =~= vs);
                }
                Option::Some(chars_to_string(&out))
            },
            Option::None => Option::None,
        }
    }
}

/// The combined character count of the lines that matter for sizing.
pub trait TotalLenght {
    /// The character count the sizing rules go by.
    spec fn spec_tot_len(&self) -> int;

    /// Compute the count, clamped at the largest representable size.
    fn tot_len(&self) -> (r: usize)
        ensures
            r as int == if self.spec_tot_len() <= usize::MAX as int {
                self.spec_tot_len()
            } else {
                usize::MAX as int
            },
            self.spec_tot_len() >= 0,
    ;
}

impl TotalLenght for RawData {
    /// Only the structured lines count; the unstructured text is sized
    /// separately by the splitter.
    open spec fn spec_tot_len(&self) -> int {
        match self.str_view() {
            Option::Some(vs) => sum_lens(vs),
            Option::None => 0,
        }
    }

    fn tot_len(&self) -> (r: usize)
    {
        proof {
            lemma_sum_nonneg(match self.str_view() {
                Option::Some(vs) => vs,
                Option::None => Seq::empty(),
            });
            if self.str_view() is None {
            }
        }
        match &self.structured {
            Option::Some(v) => {
                let ghost vs = v@.map_values(|s: String| s@);
                let mut acc: usize = 0;
                let mut i: usize = 0;
                proof {
                    assert(vs.take(0) =~= Seq::<Seq<char>>::empty());
                }
                while i < v.len()
                    invariant
                        0 <= i <= v@.len(),
                        vs == v@.map_values(|s: String| s@),
                        acc as int == if sum_lens(vs.take(i as int)) <= usize::MAX as int {
                            sum_lens(vs.take(i as int))
                        } else {
                            usize::MAX as int
                        },
                    decreases v.len() - i,
                {
                    let li = v[i].as_str().unicode_len();
                    proof {
                        assert(vs.take(i + 1).drop_last() =~= vs.take(i as int));
                        assert(vs.take(i + 1).last() == vs[i as int]);
                        lemma_sum_nonneg(vs.take(i as int));
                    }
                    acc = crate::chars::add_clamped(acc, li);
                    i = i + 1;
                }
                proof {
                    assert(vs.take(vs.len() as int) =~= vs);
                }
                acc
            },
            Option::None => 0,
        }
    }
}

/// A sum of lengths is never negative.
pub proof fn lemma_sum_nonneg(vs: Seq<Seq<char>>)
    ensures
        sum_lens(vs) >= 0,
    decreases vs.len(),
{
    if vs.len() > 0 {
        lemma_sum_nonneg(vs.drop_last());
    }
}

/// Producing the raw display data of an emitter.
pub trait RawDataKind {
    /// The unstructured lines the emitter contributes.
    spec fn spec_unstructured_part(&self) -> Option<Seq<Seq<char>>>;

    /// The structured lines the emitter contributes.
    spec fn spec_structured_part(&self) -> Option<Seq<Seq<char>>>;

    /// Collect the emitter's lines; nothing to show gives `None`.
    fn raw_data(&self) -> (r: Option<RawData>)
        ensures
            match r {
                Some(rd) => {
                    &&& rd.uns_view() == self.spec_unstructured_part()
                    &&& rd.str_view() == self.spec_structured_part()
                    &&& !(self.spec_unstructured_part() is None
                        && self.spec_structured_part() is None)
                },
                None => self.spec_unstructured_part() is None
                    && self.spec_structured_part() is None,
            },
    ;
}

/// The characters at which long free text may be broken.
pub open spec fn spec_is_break(c: char) -> bool {
    c == ';' || c == '/' || c == '\\' || c == ',' || c == '.' || c == ' '
}

/// The first break character strictly inside `[j, hi)`, or -1.
pub open spec fn spec_scan_break(s: Seq<char>, j: int, hi: int) -> int
    decreases hi - j,
{
    if j >= hi || j < 0 || j >= s.len() {
        -1
    } else if spec_is_break(s[j]) {
        j
    } else {
        spec_scan_break(s, j + 1, hi)
    }
}

/// How long free text is split: text under 70 characters stands alone;
/// longer text is split just after the first break character strictly
/// inside the middle window, both halves trimmed; without a break
/// character there, a single empty line results.
pub open spec fn spec_split_unstructured(s: Seq<char>) -> Seq<Seq<char>> {
    if s.len() < 70 {
        seq![s]
    } else {
        let m = s.len() as int / 2;
        let c = (s.len() - m) / 2;
        let idx = spec_scan_break(s, m - c + 1, m + c);
        if idx >= 0 {
            seq![spec_trim(s.take(idx + 1)), spec_trim(s.skip(idx + 1))]
        } else {
            seq![Seq::<char>::empty()]
        }
    }
}

/// Split long free text into display lines.
pub fn split_unstructured(s: &str) -> (r: Vec<String>)
    ensures
        r@.map_values(|x: String| x@) == spec_split_unstructured(s@),
{
    let cs = str_to_chars(s);
    let mut r: Vec<String> = Vec::new();
    if cs.len() < 70 {
        r.push(chars_to_string(&cs));
        proof {
            assert(r@.map_values(|x: String| x@) =~= spec_split_unstructured(s@));
        }
        return r;
    }
    let len = cs.len();
    let m = len / 2;
    let c = (len - m) / 2;
    proof {
        assert(len >= 70);
        assert(m >= 35 && len - m >= 35);
        assert(c >= 17 && c <= len - m - 1);
        assert(m + c < len);
        assert(c < m);
    }
    let hi = m + c;
    let mut j: usize = m - c + 1;
    let mut idx: Option<usize> = Option::None;
    while j < hi && idx.is_none()
        invariant
            m == cs@.len() as int / 2,
            c == (cs@.len() - m) / 2,
            hi == m + c,
            hi < cs@.len(),
            m - c + 1 <= j <= hi,
            cs@ == s@,
            match idx {
                Some(x) => spec_scan_break(cs@, m - c + 1, hi as int) == x as int
                    && m - c + 1 <= x < hi,
                None => spec_scan_break(cs@, m - c + 1, hi as int)
                    == spec_scan_break(cs@, j as int, hi as int),
            },
        decreases hi - j + (if idx is Some { 0int } else { 1 }),
    {
        let ch = cs[j];
        if ch == ';' || ch == '/' || ch == '\\' || ch == ',' || ch == '.' || ch == ' ' {
            idx = Option::Some(j);
        } else {
            j = j + 1;
        }
    }
    match idx {
        Option::Some(x) => {
            let a = trim_chars(&copy_range(&cs, 0, x + 1));
            let b = trim_chars(&copy_range(&cs, x + 1, cs.len()));
            r.push(chars_to_string(&a));
            r.push(chars_to_string(&b));
            proof {
                assert(cs@.subrange(0, x + 1) =~= cs@.take(x + 1));
                assert(cs@.subrange(x + 1, cs@.len() as int) =~= cs@.skip(x + 1));
                assert(r@.map_values(|y: String| y@) =~= spec_split_unstructured(s@));
            }
        },
        Option::None => {
            let empty: Vec<char> = Vec::new();
            r.push(chars_to_string(&empty));
            proof {
                assert(spec_scan_break(cs@, m - c + 1, hi as int) == -1);
                assert(r@.map_values(|y: String| y@) =~= spec_split_unstructured(s@));
            }
        },
    }
    r
}

/// The concatenated structured text divided into lines of the given
/// size, the last line possibly shorter.
pub open spec fn chunk_lines(s: Seq<char>, size: int) -> Seq<Seq<char>>
    decreases s.len(),
{
    if size < 1 || s.len() == 0 {
        Seq::empty()
    } else if s.len() <= size {
        seq![s]
    } else {
        seq![s.take(size)] + chunk_lines(s.skip(size), size)
    }
}

/// The display paragraph of a raw-data carrier: the unstructured text
/// split first, then the structured text concatenated and divided into
/// one, two or three nearly equal lines, depending on whether its
/// character count is below 70, between 70 and 124, or between 125 and
/// 140; nothing at all gives no paragraph.
pub open spec fn spec_paragraph(
    uns: Option<Seq<Seq<char>>>,
    strs: Option<Seq<Seq<char>>>,
) -> Option<Seq<Seq<char>>> {
    let tot = match strs {
        Option::Some(vs) => sum_lens(vs),
        Option::None => 0,
    };
    let n: int = if 125 <= tot <= 140 {
        3
    } else if 70 <= tot <= 124 {
        2
    } else {
        1
    };
    let head = match uns {
        Option::Some(us) => spec_split_unstructured(us[0]),
        Option::None => Seq::<Seq<char>>::empty(),
    };
    let tail = match strs {
        Option::Some(vs) => chunk_lines(concat_all(vs), (concat_all(vs).len() + n - 1) / n),
        Option::None => Seq::<Seq<char>>::empty(),
    };
    if head.len() + tail.len() > 0 {
        Option::Some(head + tail)
    } else {
        Option::None
    }
}

/// Fold raw display data into a bounded paragraph of lines.
pub fn make_paragraph_from_raw(r: &RawData) -> (p: Option<Vec<String>>)
    requires
        r.wf(),
    ensures
        ({
            let expected = spec_paragraph(r.uns_view(), r.str_view());
            match p {
                Some(lines) => expected == Option::Some(lines@.map_values(|x: String| x@)),
                None => expected is None,
            }
        }),
{
    let tot = r.tot_len();
    let n: usize = if 125 <= tot && tot <= 140 {
        3
    } else if 70 <= tot && tot <= 124 {
        2
    } else {
        1
    };
    let mut data: Vec<String> = Vec::new();
    match r.get(DataType::Unstructured) {
        Option::Some(uns) => {
            let mut lines = split_unstructured(uns[0].as_str());
            data.append(&mut lines);
        },
        Option::None => {},
    }
    let ghost head = data@.map_values(|x: String| x@);
    match r.get(DataType::Structured) {
        Option::Some(strs) => {
            let ghost vs = strs@.map_values(|x: String| x@);
            let mut cat: Vec<char> = Vec::new();
            let mut i: usize = 0;
            while i < strs.len()
                invariant
                    0 <= i <= strs@.len(),
                    vs == strs@.map_values(|x: String| x@),
                    cat@ == concat_all(vs.take(i as int)),
                decreases strs.len() - i,
            {
                let mut piece = str_to_chars(strs[i].as_str());
                cat.append(&mut piece);
                proof {
                    assert(vs.take(i + 1).drop_last() =~= vs.take(i as int));
                    assert(vs.take(i + 1).last() == vs[i as int]);
                }
                i = i + 1;
            }
            proof {
                assert(vs.take(vs.len() as int) =~= vs);
                lemma_sum_is_concat_len(vs);
            }
            if cat.len() > 0 {
                let size: usize = (cat.len() - 1) / n + 1;
                proof {
                    lemma_ceil_div(cat@.len() as int, n as int);
                }
                let mut pos: usize = 0;
                proof {
                    assert(cat@.skip(0) =~= cat@);
                }
                while pos < cat.len()
                    invariant
                        0 <= pos <= cat@.len(),
                        1 <= size,
                        data@.map_values(|x: String| x@) + chunk_lines(cat@.skip(pos as int),
                            size as int) == head + chunk_lines(cat@, size as int),
                    decreases cat.len() - pos,
                {
                    let ghost rest = cat@.skip(pos as int);
                    let end = if cat.len() - pos <= size {
                        cat.len()
                    } else {
                        pos + size
                    };
                    let ghost mapped = data@.map_values(|x: String| x@);
                    let line = copy_range(&cat, pos, end);
                    data.push(chars_to_string(&line));
                    proof {
                        assert(data@.map_values(|x: String| x@) =~= mapped.push(line@));
                        if rest.len() <= size {
                            assert(line@ =~= rest);
                            assert(cat@.skip(end as int) =~= Seq::<char>::empty());
                            assert(chunk_lines(rest, size as int) == seq![rest]);
                            assert(mapped.push(line@) + chunk_lines(cat@.skip(end as int),
                                size as int) =~= mapped + chunk_lines(rest, size as int));
                        } else {
                            assert(line@ =~= rest.take(size as int));
                            assert(cat@.skip(end as int) =~= rest.skip(size as int));
                            assert(chunk_lines(rest, size as int) == seq![rest.take(
                                size as int)] + chunk_lines(rest.skip(size as int),
                                size as int));
                            assert(mapped.push(line@) + chunk_lines(cat@.skip(end as int),
                                size as int) =~= mapped + chunk_lines(rest, size as int));
                        }
                    }
                    pos = end;
                }
                proof {
                    assert(cat@.skip(pos as int) =~= Seq::<char>::empty());
                    assert(data@.map_values(|x: String| x@) =~= head + chunk_lines(cat@,
                        size as int));
                }
            } else {
                proof {
                    assert(chunk_lines(concat_all(vs), (concat_all(vs).len() + n - 1)
                        / (n as int)) =~= Seq::<Seq<char>>::empty());
                    assert(data@.map_values(|x: String| x@) =~= head);
                }
            }
        },
        Option::None => {},
    }
    if data.len() > 0 {
        Option::Some(data)
    } else {
        Option::None
    }
}

/// Ceiling division by a small positive count gives a positive size.
proof fn lemma_ceil_div(len: int, n: int)
    requires
        len >= 1,
        1 <= n <= 3,
    ensures
        (len - 1) / n + 1 == (len + n - 1) / n,
        (len - 1) / n + 1 >= 1,
{
    let q = (len - 1) / n;
    let r = (len - 1) % n;
    vstd::arithmetic::div_mod::lemma_fundamental_div_mod(len - 1, n);
    vstd::arithmetic::div_mod::lemma_fundamental_div_mod(len + n - 1, n);
    assert(len + n - 1 == n * (q + 1) + r) by (nonlinear_arith)
        requires len - 1 == n * q + r;
    assert((len + n - 1) / n == q + 1) by {
        vstd::arithmetic::div_mod::lemma_div_multiples_vanish_fancy(q + 1, r, n);
    }
}

} // verus!
