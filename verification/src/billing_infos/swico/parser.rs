//! The Swico S1 parser: from a raw tagged string to an ordered field set.

use vstd::prelude::*;

verus! {

use crate::billing_infos::swico::lemma_insert_wf;
use crate::billing_infos::swico::set_wf;
use crate::billing_infos::swico::spec_beacon;
use crate::billing_infos::swico::spec_delim;
use crate::billing_infos::swico::spec_for_parsing;
use crate::billing_infos::swico::spec_get;
use crate::billing_infos::swico::spec_id;
use crate::billing_infos::swico::spec_is_parse_id;
use crate::billing_infos::swico::StructuredSet;
use crate::billing_infos::swico::SwicoComponent;
use crate::billing_infos::swico::syntax::Version;
use crate::chars::chars_to_string;
use crate::chars::contains_at;
use crate::chars::find_sub;
use crate::chars::lemma_find_from_props;
use crate::chars::spec_find;
use crate::chars::str_to_chars;
use crate::chars::trim_chars;
use crate::chars::spec_trim;

/// Failure cases of the parser.
#[derive(Debug, Clone)]
pub enum SyntaxParserError {
    /// A `/NN/` marker whose number belongs to no known field.
    InvalidBeacons(String),
    /// The `//S1` marker is missing, or no field marker follows it.
    IndexError,
}

/// The smallest two-digit id of an unknown beacon occurring in `s`, or
/// -1 when none occurs, scanning ids from `i` up.
pub open spec fn spec_bad_beacon_from(s: Seq<char>, i: int) -> int
    decreases 100 - i,
{
    if i < 0 || i >= 100 {
        -1
    } else if !spec_is_parse_id(i) && spec_find(s, spec_beacon(i)) >= 0 {
        i
    } else {
        spec_bad_beacon_from(s, i + 1)
    }
}

/// The smallest two-digit id of an unknown beacon occurring in `s`.
pub open spec fn spec_bad_beacon(s: Seq<char>) -> int {
    spec_bad_beacon_from(s, 0)
}

/// Refuse a string holding a `/NN/` marker of an unknown field.
fn invalid_beacons(v: &Vec<char>) -> (r: Result<(), SyntaxParserError>)
    ensures
        match r {
            Ok(()) => spec_bad_beacon(v@) == -1,
            Err(SyntaxParserError::InvalidBeacons(t)) => {
                &&& spec_bad_beacon(v@) >= 0
                &&& t@ == spec_beacon(spec_bad_beacon(v@))
            },
            Err(SyntaxParserError::IndexError) => false,
        },
{
    let mut i: u32 = 0;
    while i < 100
        invariant
            0 <= i <= 100,
            spec_bad_beacon(v@) == spec_bad_beacon_from(v@, i as int),
        decreases 100 - i,
    {
        if !(i == 10 || i == 11 || i == 20 || i == 30 || i == 31 || i == 32 || i == 33
            || i == 40) {
            let mut b: Vec<char> = Vec::new();
            b.push('/');
            b.push(crate::chars::digit_char(i / 10));
            b.push(crate::chars::digit_char(i % 10));
            b.push('/');
            proof {
                assert(b@ =~= spec_beacon(i as int));
            }
            if let Some(_) = find_sub(v, &b) {
                return Err(SyntaxParserError::InvalidBeacons(chars_to_string(&b)));
            }
        }
        i = i + 1;
    }
    Ok(())
}

/// Some component's delimiter is first found at `j` in `st`.
pub open spec fn is_found_offset(st: Seq<char>, j: int) -> bool {
    exists|k: int| 0 <= k < 8
        && spec_find(st, spec_delim(#[trigger] spec_for_parsing()[k])) == j
}

/// The first found delimiter offset at or after `j`, or the length of
/// `st` when there is none.
pub open spec fn next_boundary(st: Seq<char>, j: int) -> int
    decreases st.len() - j,
{
    if j < 0 || j >= st.len() {
        st.len() as int
    } else if is_found_offset(st, j) {
        j
    } else {
        next_boundary(st, j + 1)
    }
}

/// The value the parser records for a component: the text from its first
/// delimiter up to the next found delimiter (or the end), with the
/// component's own delimiter prefix removed where it is complete. A
/// value before the end that is left empty is omitted; the final
/// component keeps an empty value.
pub open spec fn parsed_entry(st: Seq<char>, c: SwicoComponent) -> Option<Seq<char>> {
    let o = spec_find(st, spec_delim(c));
    if o < 0 {
        Option::None
    } else {
        let e = next_boundary(st, o + 1);
        let val = if e - o >= 4 {
            st.subrange(o + 4, e)
        } else {
            st.subrange(o, e)
        };
        if e == st.len() {
            Option::Some(val)
        } else if val.len() > 0 {
            Option::Some(val)
        } else {
            Option::None
        }
    }
}

/// The characterization of a successfully parsed set for an input: the
/// entries are sorted, the trimmed text before the first `//S1` marker
/// is the unstructured field, the prefix field holds `S1`, and each
/// known component holds exactly the value cut at the found offsets.
pub open spec fn parse_ok_set(cs: Seq<char>, v: Seq<(SwicoComponent, Seq<char>)>) -> bool {
    let f = spec_find(cs, seq!['/', '/', 'S', '1']);
    let st = cs.skip(f + 4);
    &&& f >= 0
    &&& set_wf(v)
    &&& spec_get(v, SwicoComponent::Unstructured) == Option::Some(spec_trim(cs.take(f)))
    &&& spec_get(v, SwicoComponent::Prefix) == Option::Some(seq!['S', '1'])
    &&& (forall|k: int| 0 <= k < 8 ==>
        spec_get(v, #[trigger] spec_for_parsing()[k]) == parsed_entry(st, spec_for_parsing()[k]))
}

/// Parse a raw tagged string into a validated-shape field set: reject
/// unknown beacons, split at the first `//S1`, record the trimmed text
/// before it as the unstructured field, locate each known delimiter's
/// first occurrence after it, and cut the values at the found offsets.
#[verifier::rlimit(100)]
pub fn s1_parser(s: &str) -> (r: Result<Version, SyntaxParserError>)
    ensures
        ({
            let cs = s@;
            let bad = spec_bad_beacon(cs);
            let f = spec_find(cs, seq!['/', '/', 'S', '1']);
            let st = cs.skip(f + 4);
            match r {
                Err(SyntaxParserError::InvalidBeacons(t)) => bad >= 0 && t@ == spec_beacon(bad),
                Err(SyntaxParserError::IndexError) => bad == -1 && (f < 0
                    || (forall|k: int| 0 <= k < 8 ==>
                        spec_find(st, spec_delim(#[trigger] spec_for_parsing()[k])) < 0)),
                Ok(out) => {
                    &&& bad == -1
                    &&& f >= 0
                    &&& (exists|k: int| 0 <= k < 8 &&
                        spec_find(st, spec_delim(#[trigger] spec_for_parsing()[k])) >= 0)
                    &&& parse_ok_set(cs, out@)
                },
            }
        }),
{
    let cs = str_to_chars(s);
    match invalid_beacons(&cs) {
        Ok(()) => {},
        Err(e) => {
            return Err(e);
        },
    }
    let mut marker: Vec<char> = Vec::new();
    marker.push('/');
    marker.push('/');
    marker.push('S');
    marker.push('1');
    proof {
        assert(marker@ =~= seq!['/', '/', 'S', '1']);
    }
    let f = match find_sub(&cs, &marker) {
        Some(f) => f,
        None => {
            return Err(SyntaxParserError::IndexError);
        },
    };
    proof {
        lemma_find_from_props(cs@, marker@, 0);
    }
    let uns = trim_chars(&crate::chars::copy_range(&cs, 0, f));
    let st = crate::chars::copy_range(&cs, f + 4, cs.len());
    proof {
        assert(st@ =~= cs@.skip(f + 4));
    }

    // locate each component's delimiter
    let comps = SwicoComponent::for_parsing();
    let mut finds: Vec<Option<usize>> = Vec::new();
    let mut k: usize = 0;
    while k < comps.len()
        invariant
            0 <= k <= 8,
            comps@ == spec_for_parsing(),
            finds@.len() == k,
            forall|q: int| 0 <= q < k ==> match #[trigger] finds@[q] {
                Some(o) => spec_find(st@, spec_delim(spec_for_parsing()[q])) == o as int,
                None => spec_find(st@, spec_delim(spec_for_parsing()[q])) < 0,
            },
        decreases comps.len() - k,
    {
        let d = comps[k].delim_chars();
        let o = find_sub(&st, &d);
        finds.push(o);
        k = k + 1;
    }
    let mut any = false;
    let mut k2: usize = 0;
    while k2 < finds.len()
        invariant
            0 <= k2 <= finds@.len(),
            finds@.len() == 8,
            comps@ == spec_for_parsing(),
            forall|q: int| 0 <= q < 8 ==> match #[trigger] finds@[q] {
                Some(o) => spec_find(st@, spec_delim(spec_for_parsing()[q])) == o as int,
                None => spec_find(st@, spec_delim(spec_for_parsing()[q])) < 0,
            },
            any == (exists|q: int| 0 <= q < k2 && #[trigger] finds@[q] is Some),
        decreases finds.len() - k2,
    {
        if finds[k2].is_some() {
            any = true;
        }
        k2 = k2 + 1;
    }
    if !any {
        proof {
            assert forall|k: int| 0 <= k < 8 implies
                spec_find(st@, spec_delim(#[trigger] spec_for_parsing()[k])) < 0 by {
                if finds@[k] is Some {
                    assert(exists|q: int| 0 <= q < 8 && #[trigger] finds@[q] is Some);
                }
            }
        }
        return Err(SyntaxParserError::IndexError);
    }

    // assemble the set
    let mut set = StructuredSet::new();
    set.insert(SwicoComponent::Unstructured, chars_to_string(&uns));
    proof {
        lemma_insert_wf(Seq::empty(), SwicoComponent::Unstructured, uns@);
    }
    let ghost base = set@;
    let mut k3: usize = 0;
    while k3 < comps.len()
        invariant
            0 <= k3 <= 8,
            comps@ == spec_for_parsing(),
            finds@.len() == 8,
            forall|q: int| 0 <= q < 8 ==> match #[trigger] finds@[q] {
                Some(o) => spec_find(st@, spec_delim(spec_for_parsing()[q])) == o as int,
                None => spec_find(st@, spec_delim(spec_for_parsing()[q])) < 0,
            },
            set_wf(set@),
            spec_get(set@, SwicoComponent::Unstructured) == Option::Some(uns@),
            spec_get(set@, SwicoComponent::Prefix) is None,
            forall|q: int| 0 <= q < k3 ==>
                spec_get(set@, #[trigger] spec_for_parsing()[q])
                    == parsed_entry(st@, spec_for_parsing()[q]),
            forall|q: int| k3 <= q < 8 ==>
                spec_get(set@, #[trigger] spec_for_parsing()[q]) is None,
        decreases comps.len() - k3,
    {
        let c = comps[k3];
        let ghost pre = set@;
        match finds[k3] {
            Some(o) => {
                proof {
                    lemma_find_from_props(st@, spec_delim(c), 0);
                    assert(contains_at(st@, spec_delim(c), o as int));
                    assert(spec_delim(c).len() == 4);
                }
                // scan forward from the delimiter for the next found offset
                let mut e: usize = o + 1;
                while e < st.len() && !offset_is_found(&st, &finds, e)
                    invariant
                        o + 1 <= e <= st@.len(),
                        finds@.len() == 8,
                        comps@ == spec_for_parsing(),
                        forall|q: int| 0 <= q < 8 ==> match #[trigger] finds@[q] {
                            Some(x) => spec_find(st@, spec_delim(spec_for_parsing()[q]))
                                == x as int,
                            None => spec_find(st@, spec_delim(spec_for_parsing()[q])) < 0,
                        },
                        next_boundary(st@, o + 1) == next_boundary(st@, e as int),
                    decreases st.len() - e,
                {
                    e = e + 1;
                }
                proof {
                    if e < st@.len() {
                        assert(is_found_offset(st@, e as int));
                        assert(next_boundary(st@, e as int) == e);
                    } else {
                        assert(next_boundary(st@, e as int) == st@.len());
                    }
                }
                let val = if e - o >= 4 {
                    crate::chars::copy_range(&st, o + 4, e)
                } else {
                    crate::chars::copy_range(&st, o, e)
                };
                proof {
                    assert(o + 4 <= st@.len());
                    if e - o >= 4 {
                        assert(val@ =~= st@.subrange(o + 4, e as int));
                    } else {
                        assert(val@ =~= st@.subrange(o as int, e as int));
                    }
                }
                if e == st.len() || val.len() > 0 {
                    set.insert(c, chars_to_string(&val));
                    proof {
                        lemma_insert_wf(pre, c, val@);
                        assert(parsed_entry(st@, c) == Option::Some(val@));
                    }
                } else {
                    proof {
                        assert(parsed_entry(st@, c) is None);
                    }
                }
            },
            None => {
                proof {
                    assert(parsed_entry(st@, c) is None);
                }
            },
        }
        proof {
            assert forall|q: int| 0 <= q < k3 + 1 implies
                spec_get(set@, #[trigger] spec_for_parsing()[q])
                    == parsed_entry(st@, spec_for_parsing()[q]) by {
                if q < k3 {
                    assert(spec_for_parsing()[q] != c) by {
                        assert(spec_id(spec_for_parsing()[q]) != spec_id(spec_for_parsing()[
                            k3 as int]));
                    }
                }
            }
            assert forall|q: int| k3 + 1 <= q < 8 implies
                spec_get(set@, #[trigger] spec_for_parsing()[q]) is None by {
                assert(spec_id(spec_for_parsing()[q]) != spec_id(spec_for_parsing()[k3 as int]));
            }
        }
        k3 = k3 + 1;
    }
    let ghost before_prefix = set@;
    let mut s1: Vec<char> = Vec::new();
    s1.push('S');
    s1.push('1');
    proof {
        assert(s1@ =~= seq!['S', '1']);
    }
    set.insert(SwicoComponent::Prefix, chars_to_string(&s1));
    proof {
        lemma_insert_wf(before_prefix, SwicoComponent::Prefix, seq!['S', '1']);
        assert forall|q: int| 0 <= q < 8 implies
            spec_get(set@, #[trigger] spec_for_parsing()[q])
                == parsed_entry(cs@.skip(f + 4), spec_for_parsing()[q]) by {
            assert(spec_for_parsing()[q] != SwicoComponent::Prefix);
        }
        assert(SwicoComponent::Unstructured != SwicoComponent::Prefix);
    }
    Ok(Version::S1(set))
}

/// Whether some component's delimiter was found exactly at `e`.
fn offset_is_found(st: &Vec<char>, finds: &Vec<Option<usize>>, e: usize) -> (r: bool)
    requires
        finds@.len() == 8,
        forall|q: int| 0 <= q < 8 ==> match #[trigger] finds@[q] {
            Some(x) => spec_find(st@, spec_delim(spec_for_parsing()[q])) == x as int,
            None => spec_find(st@, spec_delim(spec_for_parsing()[q])) < 0,
        },
    ensures
        r == is_found_offset(st@, e as int),
{
    let mut q: usize = 0;
    while q < finds.len()
        invariant
            0 <= q <= 8,
            finds@.len() == 8,
            forall|p: int| 0 <= p < 8 ==> match #[trigger] finds@[p] {
                Some(x) => spec_find(st@, spec_delim(spec_for_parsing()[p])) == x as int,
                None => spec_find(st@, spec_delim(spec_for_parsing()[p])) < 0,
            },
            forall|p: int| 0 <= p < q ==>
                spec_find(st@, spec_delim(#[trigger] spec_for_parsing()[p])) != e as int,
        decreases finds.len() - q,
    {
        match finds[q] {
            Some(x) => {
                if x == e {
                    return true;
                }
            },
            None => {},
        }
        q = q + 1;
    }
    proof {
        assert(!is_found_offset(st@, e as int));
    }
    false
}

} // verus!
