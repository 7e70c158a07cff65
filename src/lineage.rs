//! Provenance of groups: the registries a definition came through and, per field entry,
//! which group fields were inherited or overridden along the way.

use vstd::prelude::*;
use vstd::string::*;
use crate::group::GroupField;

verus! {

/// Identifies one release of one registry.
#[derive(Debug)]
pub struct RegistryInfo {
    /// The name of the registry.
    pub name: String,
    /// The version of the release (a semantic version string).
    pub version: String,
    /// The URL of the registry's repository.
    pub repository_url: String,
}

/// Lineage of one field entry of a group.
#[derive(Debug)]
pub struct AttributeLineage {
    /// Identifier of the group that first defined this entry.
    pub source_group: String,
    /// Group fields carried unchanged from an ancestor.
    pub inherited_fields: Vec<GroupField>,
    /// Group fields whose value was set or changed at this lineage node.
    pub locally_overridden_fields: Vec<GroupField>,
}

/// Lineage of a group.
#[derive(Debug)]
pub struct GroupLineage {
    /// The registries along the dependency path, outermost first; the last one is the
    /// registry the definition comes from.
    pub ancestors: Vec<RegistryInfo>,
    /// The file the group was read from.
    pub source_file: String,
    /// Lineage records keyed by entry name.
    pub attributes: Vec<(String, AttributeLineage)>,
}

/// Whether `c` is an ASCII decimal digit.
pub open spec fn is_digit(c: char) -> bool {
    '0' <= c && c <= '9'
}

pub open spec fn digit_value(c: char) -> nat {
    (c as int - '0' as int) as nat
}

/// Value of a version segment: `None` when it is empty, holds a non-digit, or does not
/// fit in 64 bits.
pub open spec fn segment_number(seg: Seq<char>) -> Option<nat>
    decreases seg.len(),
{
    if seg.len() == 0 || !is_digit(seg.last()) {
        None
    } else if seg.len() == 1 {
        Some(digit_value(seg.last()))
    } else {
        match segment_number(seg.drop_last()) {
            Some(v) => if v * 10 + digit_value(seg.last()) <= u64::MAX {
                Some(v * 10 + digit_value(seg.last()))
            } else {
                None
            },
            None => None,
        }
    }
}

/// The dot-separated segments of `s`.
pub open spec fn dot_segments(s: Seq<char>) -> Seq<Seq<char>>
    decreases s.len(),
{
    if s.len() == 0 {
        seq![Seq::empty()]
    } else {
        let segs = dot_segments(s.drop_last());
        if s.last() == '.' {
            segs.push(Seq::empty())
        } else {
            segs.update(segs.len() - 1, segs.last().push(s.last()))
        }
    }
}

/// Component `k` of a version string (0 for major, 1 for minor, 2 for patch); a missing or
/// malformed component counts as 0.
pub open spec fn version_component(s: Seq<char>, k: int) -> nat {
    let segs = dot_segments(s);
    if 0 <= k < segs.len() {
        match segment_number(segs[k]) {
            Some(v) => v,
            None => 0,
        }
    } else {
        0
    }
}

/// Numeric ordering of versions on (major, minor, patch).
pub open spec fn version_less(a: Seq<char>, b: Seq<char>) -> bool {
    let (a0, a1, a2) = (version_component(a, 0), version_component(a, 1), version_component(a, 2));
    let (b0, b1, b2) = (version_component(b, 0), version_component(b, 1), version_component(b, 2));
    a0 < b0 || (a0 == b0 && (a1 < b1 || (a1 == b1 && a2 < b2)))
}

pub open spec fn version_same(a: Seq<char>, b: Seq<char>) -> bool {
    version_component(a, 0) == version_component(b, 0)
    && version_component(a, 1) == version_component(b, 1)
    && version_component(a, 2) == version_component(b, 2)
}

/// Lexicographic order on character sequences.
pub open spec fn lex_less(a: Seq<char>, b: Seq<char>) -> bool
    decreases a.len(),
{
    if b.len() == 0 {
        false
    } else if a.len() == 0 {
        true
    } else if a[0] != b[0] {
        (a[0] as u32) < (b[0] as u32)
    } else {
        lex_less(a.drop_first(), b.drop_first())
    }
}

/// Release order: by version, then by registry name.
pub open spec fn release_less(a: RegistryInfo, b: RegistryInfo) -> bool {
    version_less(a.version@, b.version@) || (version_same(a.version@, b.version@) && lex_less(
        a.name@,
        b.name@,
    ))
}

/// Parsed (major, minor, patch) of a version string.
pub fn version_parts(s: &str) -> (r: (u64, u64, u64))
    ensures
        r.0 == version_component(s@, 0),
        r.1 == version_component(s@, 1),
        r.2 == version_component(s@, 2),
{
    let n = s.unicode_len();
    let mut done: Vec<u64> = Vec::new();
    let mut cur: Option<u64> = None;
    let mut fresh = true;
    let mut i: usize = 0;
    proof {
        assert(s@.take(0) =~= Seq::<char>::empty());
    }
    while i < n
        invariant
            n == s@.len(),
            i <= n,
            dot_segments(s@.take(i as int)).len() == done@.len() + 1,
            done@.len() <= i,
            forall|k: int|
                0 <= k < done@.len() ==> done@[k] == match segment_number(
                    #[trigger] dot_segments(s@.take(i as int))[k],
                ) {
                    Some(v) => v,
                    None => 0,
                },
            cur matches Some(v) ==> segment_number(dot_segments(s@.take(i as int)).last()) == Some(
                v as nat,
            ),
            cur is None ==> segment_number(dot_segments(s@.take(i as int)).last()) is None,
            fresh == (dot_segments(s@.take(i as int)).last().len() == 0),
        decreases n - i,
    {
        let c = s.get_char(i);
        let ghost prev = dot_segments(s@.take(i as int));
        proof {
            assert(s@.take(i + 1).drop_last() =~= s@.take(i as int));
            assert(s@.take(i + 1).last() == c);
        }
        if c == '.' {
            let v = match cur {
                Some(v) => v,
                None => 0,
            };
            done.push(v);
            cur = None;
            fresh = true;
            proof {
                let segs = dot_segments(s@.take(i + 1));
                assert(segs == prev.push(Seq::empty()));
                assert forall|k: int| 0 <= k < done@.len() implies done@[k] == match segment_number(
                    #[trigger] dot_segments(s@.take(i + 1))[k],
                ) {
                    Some(v) => v,
                    None => 0,
                } by {
                    if k < done@.len() - 1 {
                        assert(segs[k] == prev[k]);
                    }
                }
            }
        } else {
            let ghost seg = prev.last();
            let ghost nseg = seg.push(c);
            proof {
                assert(dot_segments(s@.take(i + 1)) == prev.update(prev.len() - 1, nseg));
                assert(nseg.drop_last() =~= seg);
                assert(nseg.last() == c);
            }
            if '0' <= c && c <= '9' {
                let d = (c as u32 - '0' as u32) as u64;
                if fresh {
                    cur = Some(d);
                } else {
                    cur = match cur {
                        Some(v) => if v <= (u64::MAX - d) / 10 {
                            proof {
                                assert(v * 10 + d <= u64::MAX) by (nonlinear_arith)
                                    requires
                                        v <= (u64::MAX - d) / 10,
                                        d <= 9,
                                ;
                            }
                            Some(v * 10 + d)
                        } else {
                            proof {
                                assert(v * 10 + d > u64::MAX) by (nonlinear_arith)
                                    requires
                                        v > (u64::MAX - d) / 10,
                                        d <= 9,
                                ;
                            }
                            None
                        },
                        None => None,
                    };
                }
            } else {
                cur = None;
            }
            fresh = false;
        }
        i = i + 1;
    }
    proof {
        assert(s@.take(n as int) =~= s@);
    }
    let last = match cur {
        Some(v) => v,
        None => 0,
    };
    let ghost segs = dot_segments(s@);
    let major = if done.len() > 0 {
        done[0]
    } else {
        last
    };
    let minor = if done.len() > 1 {
        done[1]
    } else if done.len() == 1 {
        last
    } else {
        0
    };
    let patch = if done.len() > 2 {
        done[2]
    } else if done.len() == 2 {
        last
    } else {
        0
    };
    (major, minor, patch)
}

/// Lexicographic comparison of two strings.
pub fn str_less(a: &str, b: &str) -> (r: bool)
    ensures
        r == lex_less(a@, b@),
{
    let n = a.unicode_len();
    let m = b.unicode_len();
    let mut i: usize = 0;
    proof {
        assert(a@.skip(0) =~= a@);
        assert(b@.skip(0) =~= b@);
    }
    while i < n && i < m
        invariant
            n == a@.len(),
            m == b@.len(),
            i <= n,
            i <= m,
            lex_less(a@, b@) == lex_less(a@.skip(i as int), b@.skip(i as int)),
        decreases n - i,
    {
        let x = a.get_char(i);
        let y = b.get_char(i);
        proof {
            assert(a@.skip(i as int)[0] == x);
            assert(b@.skip(i as int)[0] == y);
            assert(a@.skip(i as int).drop_first() =~= a@.skip(i + 1));
            assert(b@.skip(i as int).drop_first() =~= b@.skip(i + 1));
        }
        if x != y {
            return (x as u32) < (y as u32);
        }
        i = i + 1;
    }
    i < m
}

/// Whether release `a` orders before release `b`.
pub fn registry_less(a: &RegistryInfo, b: &RegistryInfo) -> (r: bool)
    ensures
        r == release_less(*a, *b),
{
    let (a0, a1, a2) = version_parts(a.version.as_str());
    let (b0, b1, b2) = version_parts(b.version.as_str());
    if a0 != b0 {
        a0 < b0
    } else if a1 != b1 {
        a1 < b1
    } else if a2 != b2 {
        a2 < b2
    } else {
        str_less(a.name.as_str(), b.name.as_str())
    }
}

impl RegistryInfo {
    /// A copy of this release information.
    pub fn copy(&self) -> (r: RegistryInfo)
        ensures
            r.name@ == self.name@,
            r.version@ == self.version@,
            r.repository_url@ == self.repository_url@,
    {
        RegistryInfo {
            name: self.name.clone(),
            version: self.version.clone(),
            repository_url: self.repository_url.clone(),
        }
    }
}

/// A copy of a list of fields.
pub fn copy_fields(v: &Vec<GroupField>) -> (r: Vec<GroupField>)
    ensures
        r@ == v@,
{
    let mut r: Vec<GroupField> = Vec::new();
    let mut i: usize = 0;
    while i < v.len()
        invariant
            i <= v@.len(),
            r@ == v@.take(i as int),
        decreases v@.len() - i,
    {
        r.push(v[i]);
        i = i + 1;
        proof {
            assert(r@ =~= v@.take(i as int));
        }
    }
    assert(v@.take(v@.len() as int) =~= v@);
    r
}

impl AttributeLineage {
    /// A copy of this lineage record.
    pub fn copy(&self) -> (r: AttributeLineage)
        ensures
            r.source_group@ == self.source_group@,
            r.inherited_fields@ == self.inherited_fields@,
            r.locally_overridden_fields@ == self.locally_overridden_fields@,
    {
        AttributeLineage {
            source_group: self.source_group.clone(),
            inherited_fields: copy_fields(&self.inherited_fields),
            locally_overridden_fields: copy_fields(&self.locally_overridden_fields),
        }
    }
}

} // verus!
