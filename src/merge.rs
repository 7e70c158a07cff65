//! Merging two definitions of the same group that reached a registry through different
//! paths or versions.

use vstd::prelude::*;
use vstd::string::*;
use crate::group::{
    all_fields, field_name, field_value, group_type_name, lemma_all_fields, list_value, opt_value, origin, origin_view,
    overrides, field_list, records_override, union_lineage, Group, GroupField,
};
use crate::lineage::{registry_less, release_less, RegistryInfo};

verus! {

/// The outcome of merging two definitions of a group.
#[derive(Debug)]
pub enum MergeResult {
    /// Both definitions have identical semantic fields; they are deduplicated.
    StructuralEquivalence {
        /// A copy of one of the groups, with both lineages.
        group: Group,
    },
    /// The definitions differ, but no intermediate registry overrode anything: the one
    /// from the most recent release is used.
    VersionCompatibility {
        /// A copy of the most recent group.
        group: Group,
    },
    /// The definitions were overridden in intermediate registries, in fields that do not
    /// contradict each other; they are merged field by field.
    DisjointOverride {
        /// The merged group.
        group: Group,
    },
    /// The definitions cannot be merged.
    NotMergeable {
        /// Why the definitions cannot be merged.
        reason: String,
    },
}

/// The variant of a merge result.
#[derive(Debug, Clone, Copy, PartialEq, Eq, Structural)]
pub enum MergeKind {
    StructuralEquivalence,
    VersionCompatibility,
    DisjointOverride,
    NotMergeable,
}

impl MergeResult {
    pub open spec fn spec_kind(&self) -> MergeKind {
        match self {
            MergeResult::StructuralEquivalence { .. } => MergeKind::StructuralEquivalence,
            MergeResult::VersionCompatibility { .. } => MergeKind::VersionCompatibility,
            MergeResult::DisjointOverride { .. } => MergeKind::DisjointOverride,
            MergeResult::NotMergeable { .. } => MergeKind::NotMergeable,
        }
    }

    /// The variant of this result.
    pub fn kind(&self) -> (r: MergeKind)
        ensures
            r == self.spec_kind(),
    {
        match self {
            MergeResult::StructuralEquivalence { .. } => MergeKind::StructuralEquivalence,
            MergeResult::VersionCompatibility { .. } => MergeKind::VersionCompatibility,
            MergeResult::DisjointOverride { .. } => MergeKind::DisjointOverride,
            MergeResult::NotMergeable { .. } => MergeKind::NotMergeable,
        }
    }
}

/// Same identifier and same type.
pub open spec fn same_identity(g1: Group, g2: Group) -> bool {
    g1.id@ == g2.id@ && g1.group_type == g2.group_type
}

/// All semantic fields are equal.
pub open spec fn equivalent(g1: Group, g2: Group) -> bool {
    forall|f: GroupField| #[trigger] field_value(g1, f) == field_value(g2, f)
}

/// The lineage of `g` records no override.
pub open spec fn no_overrides(g: Group) -> bool {
    forall|f: GroupField| !#[trigger] overrides(g, f)
}

/// Both sides override `f`, with different values.
pub open spec fn is_conflict(g1: Group, g2: Group, f: GroupField) -> bool {
    overrides(g1, f) && overrides(g2, f) && field_value(g1, f) != field_value(g2, f)
}

/// Neither side overrides `f`, yet the values differ.
pub open spec fn is_stray(g1: Group, g2: Group, f: GroupField) -> bool {
    !overrides(g1, f) && !overrides(g2, f) && field_value(g1, f) != field_value(g2, f)
}

/// The fields of `fs` in conflict, in order.
pub open spec fn conflict_fields(g1: Group, g2: Group, fs: Seq<GroupField>) -> Seq<GroupField>
    decreases fs.len(),
{
    if fs.len() == 0 {
        Seq::empty()
    } else if is_conflict(g1, g2, fs.last()) {
        conflict_fields(g1, g2, fs.drop_last()).push(fs.last())
    } else {
        conflict_fields(g1, g2, fs.drop_last())
    }
}

/// The fields of `fs` that differ without an override, in order.
pub open spec fn stray_fields(g1: Group, g2: Group, fs: Seq<GroupField>) -> Seq<GroupField>
    decreases fs.len(),
{
    if fs.len() == 0 {
        Seq::empty()
    } else if is_stray(g1, g2, fs.last()) {
        stray_fields(g1, g2, fs.drop_last()).push(fs.last())
    } else {
        stray_fields(g1, g2, fs.drop_last())
    }
}

/// The variant that merging `g1` with `g2` yields.
pub open spec fn merge_kind(g1: Group, g2: Group) -> MergeKind {
    if !same_identity(g1, g2) {
        MergeKind::NotMergeable
    } else if equivalent(g1, g2) {
        MergeKind::StructuralEquivalence
    } else if no_overrides(g1) && no_overrides(g2) {
        MergeKind::VersionCompatibility
    } else if conflict_fields(g1, g2, all_fields()).len() > 0 || stray_fields(
        g1,
        g2,
        all_fields(),
    ).len() > 0 {
        MergeKind::NotMergeable
    } else {
        MergeKind::DisjointOverride
    }
}

/// Whether `g2` comes from a more recent release than `g1`; a group of unknown origin
/// counts as older than any other.
pub open spec fn second_newer(g1: Group, g2: Group) -> bool {
    match (origin(g1), origin(g2)) {
        (_, None) => false,
        (None, Some(_)) => true,
        (Some(a), Some(b)) => release_less(a, b),
    }
}

/// The value of `f` in a disjoint merge: the overriding side's, else the first's.
pub open spec fn merged_value(g1: Group, g2: Group, f: GroupField) -> Seq<Seq<char>> {
    if !overrides(g1, f) && overrides(g2, f) {
        field_value(g2, f)
    } else {
        field_value(g1, f)
    }
}

/// The release that a merged lineage ends at: the first group's when it has a lineage.
pub open spec fn union_origin(g1: Group, g2: Group) -> Option<(Seq<char>, Seq<char>, Seq<char>)> {
    if g1.lineage is Some {
        origin_view(g1)
    } else {
        origin_view(g2)
    }
}

/// `g` is what merging `g1` with `g2` yields, for a pair that `merge_kind` accepts.
///
/// A structural equivalence keeps the first group's fields and parent; a version
/// compatibility is the newer group, with its fields, parent and release and without
/// overrides; a disjoint override takes each field as `merged_value` says. The merged
/// lineages record the overrides of both sides.
pub open spec fn merged_group_ok(g1: Group, g2: Group, g: Group) -> bool {
    &&& same_identity(g, g1)
    &&& match merge_kind(g1, g2) {
        MergeKind::StructuralEquivalence => {
            &&& forall|f: GroupField| #[trigger] field_value(g, f) == field_value(g1, f)
            &&& forall|f: GroupField| #[trigger] overrides(g, f) == (overrides(g1, f) || overrides(g2, f))
            &&& opt_value(g.extends) == opt_value(g1.extends)
            &&& origin_view(g) == union_origin(g1, g2)
            &&& (g.lineage is Some <==> (g1.lineage is Some || g2.lineage is Some))
        },
        MergeKind::VersionCompatibility => {
            let newer = if second_newer(g1, g2) { g2 } else { g1 };
            &&& forall|f: GroupField| #[trigger] field_value(g, f) == field_value(newer, f)
            &&& forall|f: GroupField| !#[trigger] overrides(g, f)
            &&& opt_value(g.extends) == opt_value(newer.extends)
            &&& origin_view(g) == origin_view(newer)
            &&& (g.lineage is Some <==> newer.lineage is Some)
        },
        MergeKind::DisjointOverride => {
            &&& forall|f: GroupField| #[trigger] field_value(g, f) == merged_value(g1, g2, f)
            &&& forall|f: GroupField| #[trigger] overrides(g, f) == (overrides(g1, f) || overrides(g2, f))
            &&& opt_value(g.extends) == opt_value(g1.extends)
            &&& origin_view(g) == union_origin(g1, g2)
            &&& (g.lineage is Some <==> (g1.lineage is Some || g2.lineage is Some))
        },
        MergeKind::NotMergeable => false,
    }
}

/// `a` and `b` agree on everything that merging reads and yields: identity, semantic
/// fields, parent, overrides and release.
pub open spec fn same_view(a: Group, b: Group) -> bool {
    &&& a.id@ == b.id@
    &&& a.group_type == b.group_type
    &&& forall|f: GroupField| #[trigger] field_value(a, f) == field_value(b, f)
    &&& forall|f: GroupField| #[trigger] overrides(a, f) == overrides(b, f)
    &&& opt_value(a.extends) == opt_value(b.extends)
    &&& origin_view(a) == origin_view(b)
    &&& (a.lineage is Some <==> b.lineage is Some)
}

/// `parts` joined with `sep`.
pub open spec fn join(parts: Seq<Seq<char>>, sep: Seq<char>) -> Seq<char>
    decreases parts.len(),
{
    if parts.len() == 0 {
        Seq::empty()
    } else if parts.len() == 1 {
        parts[0]
    } else {
        join(parts.drop_last(), sep) + sep + parts.last()
    }
}

/// A field's value, quoted, list items separated by commas.
pub open spec fn render(g: Group, f: GroupField) -> Seq<char> {
    "'"@ + join(field_value(g, f), ", "@) + "'"@
}

/// The registry release a group comes from, for messages.
pub open spec fn registry_label(g: Group) -> Seq<char> {
    match origin(g) {
        Some(r) => r.name@ + " "@ + r.version@,
        None => "an unknown registry"@,
    }
}

pub open spec fn conflict_line(g1: Group, g2: Group, f: GroupField) -> Seq<char> {
    field_name(f) + " is "@ + render(g1, f) + " in "@ + registry_label(g1) + " but "@ + render(
        g2,
        f,
    ) + " in "@ + registry_label(g2)
}

pub open spec fn conflict_lines(g1: Group, g2: Group, fs: Seq<GroupField>) -> Seq<Seq<char>> {
    fs.map_values(|f: GroupField| conflict_line(g1, g2, f))
}

pub open spec fn field_names(fs: Seq<GroupField>) -> Seq<Seq<char>> {
    fs.map_values(|f: GroupField| field_name(f))
}

/// Why `g1` and `g2` cannot be merged, for pairs that `merge_kind` rejects.
pub open spec fn failure_reason(g1: Group, g2: Group) -> Seq<char> {
    if g1.id@ != g2.id@ {
        "Group identifiers do not match: "@ + g1.id@ + " != "@ + g2.id@
    } else if g1.group_type != g2.group_type {
        "Group types do not match: "@ + group_type_name(g1.group_type) + " != "@ + group_type_name(
            g2.group_type,
        )
    } else if conflict_fields(g1, g2, all_fields()).len() > 0 {
        "Conflicting overrides: "@ + join(
            conflict_lines(g1, g2, conflict_fields(g1, g2, all_fields())),
            "; "@,
        )
    } else {
        "Inconsistent lineage, fields differ without an override: "@ + join(
            field_names(stray_fields(g1, g2, all_fields())),
            ", "@,
        )
    }
}

proof fn lemma_conflict_symmetric(g1: Group, g2: Group, fs: Seq<GroupField>)
    ensures
        conflict_fields(g1, g2, fs) == conflict_fields(g2, g1, fs),
        stray_fields(g1, g2, fs) == stray_fields(g2, g1, fs),
    decreases fs.len(),
{
    if fs.len() > 0 {
        lemma_conflict_symmetric(g1, g2, fs.drop_last());
    }
}

proof fn lemma_conflict_free(g1: Group, g2: Group, fs: Seq<GroupField>, i: int)
    requires
        0 <= i < fs.len(),
        conflict_fields(g1, g2, fs).len() == 0,
    ensures
        !is_conflict(g1, g2, fs[i]),
    decreases fs.len(),
{
    if i < fs.len() - 1 {
        assert(fs.drop_last()[i] == fs[i]);
        lemma_conflict_free(g1, g2, fs.drop_last(), i);
    }
}

fn side_overrides(g: &Group, f: GroupField) -> (r: bool)
    ensures
        r == overrides(*g, f),
{
    match &g.lineage {
        None => false,
        Some(l) => {
            let mut i: usize = 0;
            while i < l.attributes.len()
                invariant
                    g.lineage == Some(*l),
                    i <= l.attributes@.len(),
                    forall|j: int|
                        0 <= j < i ==> !(#[trigger] l.attributes@[j]).1.locally_overridden_fields@.contains(f),
                decreases l.attributes@.len() - i,
            {
                let fs = &l.attributes[i].1.locally_overridden_fields;
                let mut k: usize = 0;
                while k < fs.len()
                    invariant
                        k <= fs@.len(),
                        g.lineage == Some(*l),
                        i < l.attributes@.len(),
                        fs@ == l.attributes@[i as int].1.locally_overridden_fields@,
                        forall|j: int| 0 <= j < k ==> fs@[j] != f,
                        forall|j: int|
                            0 <= j < i ==> !(#[trigger] l.attributes@[j]).1.locally_overridden_fields@.contains(f),
                    decreases fs@.len() - k,
                {
                    if fs[k] == f {
                        assert(fs@[k as int] == f);
                        assert(l.attributes@[i as int].1.locally_overridden_fields@.contains(f));
                        assert(records_override(l.attributes@, f));
                        return true;
                    }
                    k = k + 1;
                }
                assert(!fs@.contains(f));
                i = i + 1;
            }
            false
        },
    }
}

/// Joins texts with a separator.
pub fn join_strings(parts: &Vec<String>, sep: &str) -> (r: String)
    ensures
        r@ == join(list_value(parts@), sep@),
{
    let mut res = String::new();
    let mut i: usize = 0;
    while i < parts.len()
        invariant
            i <= parts@.len(),
            res@ == join(list_value(parts@.take(i as int)), sep@),
        decreases parts@.len() - i,
    {
        proof {
            assert(list_value(parts@.take(i + 1)).drop_last() =~= list_value(parts@.take(i as int)));
            assert(list_value(parts@.take(i + 1)).last() == parts@[i as int]@);
        }
        if i > 0 {
            res.append(sep);
        } else {
            assert(res@ + parts@[0]@ =~= parts@[0]@);
        }
        res.append(parts[i].as_str());
        i = i + 1;
    }
    assert(parts@.take(parts@.len() as int) =~= parts@);
    res
}

fn field_texts(g: &Group, f: GroupField) -> (r: Vec<String>)
    ensures
        list_value(r@) == field_value(*g, f),
{
    let r = match f {
        GroupField::Brief => vec![g.brief.clone()],
        GroupField::Note => vec![g.note.clone()],
        GroupField::Stability => opt_texts(&g.stability),
        GroupField::Deprecated => opt_texts(&g.deprecated),
        GroupField::Unit => opt_texts(&g.unit),
        GroupField::Instrument => opt_texts(&g.instrument),
        GroupField::SpanKind => opt_texts(&g.span_kind),
        GroupField::Attributes => crate::group::copy_list(&g.attributes),
        GroupField::Events => crate::group::copy_list(&g.events),
    };
    assert(list_value(r@) =~= field_value(*g, f));
    r
}

fn opt_texts(o: &Option<String>) -> (r: Vec<String>)
    ensures
        list_value(r@) == crate::group::opt_value(*o),
{
    let r = match o {
        Some(s) => vec![s.clone()],
        None => Vec::new(),
    };
    assert(list_value(r@) =~= crate::group::opt_value(*o));
    r
}

fn render_field(g: &Group, f: GroupField) -> (r: String)
    ensures
        r@ == render(*g, f),
{
    let texts = field_texts(g, f);
    String::from_str("'").concat(join_strings(&texts, ", ").as_str()).concat("'")
}

fn origin_of(g: &Group) -> (r: Option<&RegistryInfo>)
    ensures
        match r {
            Some(x) => origin(*g) == Some(*x),
            None => origin(*g) is None,
        },
{
    match &g.lineage {
        Some(l) => if l.ancestors.len() > 0 {
            Some(&l.ancestors[l.ancestors.len() - 1])
        } else {
            None
        },
        None => None,
    }
}

fn label_of(g: &Group) -> (r: String)
    ensures
        r@ == registry_label(*g),
{
    match origin_of(g) {
        Some(a) => a.name.clone().concat(" ").concat(a.version.as_str()),
        None => String::from_str("an unknown registry"),
    }
}

fn second_is_newer(g1: &Group, g2: &Group) -> (r: bool)
    ensures
        r == second_newer(*g1, *g2),
{
    match (origin_of(g1), origin_of(g2)) {
        (_, None) => false,
        (None, Some(_)) => true,
        (Some(a), Some(b)) => registry_less(a, b),
    }
}

fn conflict_text(g1: &Group, g2: &Group, fs: &Vec<GroupField>) -> (r: String)
    ensures
        r@ == join(conflict_lines(*g1, *g2, fs@), "; "@),
{
    let mut lines: Vec<String> = Vec::new();
    let mut i: usize = 0;
    while i < fs.len()
        invariant
            i <= fs@.len(),
            lines@.len() == i,
            forall|j: int| 0 <= j < i ==> (#[trigger] lines@[j])@ == conflict_line(*g1, *g2, fs@[j]),
        decreases fs@.len() - i,
    {
        let f = fs[i];
        let line = String::from_str(f.name()).concat(" is ").concat(render_field(g1, f).as_str())
            .concat(" in ").concat(label_of(g1).as_str()).concat(" but ").concat(
            render_field(g2, f).as_str(),
        ).concat(" in ").concat(label_of(g2).as_str());
        lines.push(line);
        i = i + 1;
    }
    assert(list_value(lines@) =~= conflict_lines(*g1, *g2, fs@));
    join_strings(&lines, "; ")
}

fn names_text(fs: &Vec<GroupField>) -> (r: String)
    ensures
        r@ == join(field_names(fs@), ", "@),
{
    let mut names: Vec<String> = Vec::new();
    let mut i: usize = 0;
    while i < fs.len()
        invariant
            i <= fs@.len(),
            names@.len() == i,
            forall|j: int| 0 <= j < i ==> (#[trigger] names@[j])@ == field_name(fs@[j]),
        decreases fs@.len() - i,
    {
        names.push(String::from_str(fs[i].name()));
        i = i + 1;
    }
    assert(list_value(names@) =~= field_names(fs@));
    join_strings(&names, ", ")
}

/// Sets field `f` of `m` to its value in a disjoint merge of `g1` and `g2`.
fn merge_field(m: &mut Group, g1: &Group, g2: &Group, f: GroupField)
    requires
        field_value(*old(m), f) == field_value(*g1, f),
    ensures
        field_value(*final(m), f) == merged_value(*g1, *g2, f),
        forall|h: GroupField| h != f ==> field_value(*final(m), h) == field_value(*old(m), h),
        final(m).id == old(m).id,
        final(m).group_type == old(m).group_type,
        final(m).lineage == old(m).lineage,
        final(m).extends == old(m).extends,
{
    if !side_overrides(g1, f) && side_overrides(g2, f) {
        m.take_field(g2, f);
    }
}

/// Merges two definitions of the same group.
///
/// Definitions with a different identifier or type are not mergeable. Otherwise: equal
/// semantic fields give a structural equivalence; without any recorded override, the
/// definition of the most recent release wins; overrides that never give one field two
/// values are merged field by field, the overriding side providing each field; anything
/// else is not mergeable, with a reason naming the fields at stake.
pub fn merge(g1: &Group, g2: &Group) -> (r: MergeResult)
    ensures
        r.spec_kind() == merge_kind(*g1, *g2),
        r matches MergeResult::NotMergeable { reason } ==> reason@ == failure_reason(*g1, *g2),
        r matches MergeResult::StructuralEquivalence { group } ==> merged_group_ok(*g1, *g2, group),
        r matches MergeResult::VersionCompatibility { group } ==> merged_group_ok(*g1, *g2, group),
        r matches MergeResult::DisjointOverride { group } ==> merged_group_ok(*g1, *g2, group),
{
    if !g1.id.eq(&g2.id) {
        let reason = String::from_str("Group identifiers do not match: ").concat(g1.id.as_str())
            .concat(" != ").concat(g2.id.as_str());
        return MergeResult::NotMergeable { reason };
    }
    if g1.group_type != g2.group_type {
        let reason = String::from_str("Group types do not match: ").concat(g1.group_type.name())
            .concat(" != ").concat(g2.group_type.name());
        return MergeResult::NotMergeable { reason };
    }
    let fields = field_list();
    let mut all_eq = true;
    let mut any1 = false;
    let mut any2 = false;
    let mut conflicts: Vec<GroupField> = Vec::new();
    let mut strays: Vec<GroupField> = Vec::new();
    let mut i: usize = 0;
    proof {
        assert(fields@.take(0) =~= Seq::<GroupField>::empty());
    }
    while i < fields.len()
        invariant
            fields@ == all_fields(),
            i <= fields@.len(),
            all_eq == (forall|j: int| 0 <= j < i ==> field_value(*g1, #[trigger] fields@[j]) == field_value(*g2, fields@[j])),
            any1 == (exists|j: int| 0 <= j < i && overrides(*g1, #[trigger] fields@[j])),
            any2 == (exists|j: int| 0 <= j < i && overrides(*g2, #[trigger] fields@[j])),
            conflicts@ == conflict_fields(*g1, *g2, fields@.take(i as int)),
            strays@ == stray_fields(*g1, *g2, fields@.take(i as int)),
        decreases fields@.len() - i,
    {
        let f = fields[i];
        let eq = g1.field_eq(g2, f);
        let o1 = side_overrides(g1, f);
        let o2 = side_overrides(g2, f);
        proof {
            assert(fields@.take(i + 1).drop_last() =~= fields@.take(i as int));
            assert(fields@.take(i + 1).last() == f);
        }
        if !eq {
            all_eq = false;
        }
        if o1 {
            any1 = true;
        }
        if o2 {
            any2 = true;
        }
        if o1 && o2 && !eq {
            conflicts.push(f);
        }
        if !o1 && !o2 && !eq {
            strays.push(f);
        }
        i = i + 1;
    }
    proof {
        assert(fields@.take(9) =~= all_fields());
        assert forall|f: GroupField| true implies (all_eq ==> field_value(*g1, f) == field_value(*g2, f))
            && (overrides(*g1, f) ==> any1) && (overrides(*g2, f) ==> any2) by {
            lemma_all_fields(f);
            let j = choose|j: int| 0 <= j < 9 && all_fields()[j] == f;
            assert(fields@[j] == f);
        }
    }
    if all_eq {
        let lineage = union_lineage(&g1.lineage, &g2.lineage);
        return MergeResult::StructuralEquivalence { group: g1.copy_with_lineage(lineage) };
    }
    if !any1 && !any2 {
        let newer = if second_is_newer(g1, g2) {
            g2
        } else {
            g1
        };
        let lineage = union_lineage(&newer.lineage, &None);
        return MergeResult::VersionCompatibility { group: newer.copy_with_lineage(lineage) };
    }
    if conflicts.len() > 0 {
        let reason = String::from_str("Conflicting overrides: ").concat(
            conflict_text(g1, g2, &conflicts).as_str(),
        );
        return MergeResult::NotMergeable { reason };
    }
    if strays.len() > 0 {
        let reason = String::from_str("Inconsistent lineage, fields differ without an override: ")
            .concat(names_text(&strays).as_str());
        return MergeResult::NotMergeable { reason };
    }
    let lineage = union_lineage(&g1.lineage, &g2.lineage);
    let mut m = g1.copy_with_lineage(lineage);
    merge_field(&mut m, g1, g2, GroupField::Brief);
    merge_field(&mut m, g1, g2, GroupField::Note);
    merge_field(&mut m, g1, g2, GroupField::Stability);
    merge_field(&mut m, g1, g2, GroupField::Deprecated);
    merge_field(&mut m, g1, g2, GroupField::Unit);
    merge_field(&mut m, g1, g2, GroupField::Instrument);
    merge_field(&mut m, g1, g2, GroupField::SpanKind);
    merge_field(&mut m, g1, g2, GroupField::Attributes);
    merge_field(&mut m, g1, g2, GroupField::Events);
    MergeResult::DisjointOverride { group: m }
}

/// Groups with different identifiers are never mergeable.
pub proof fn law_identity_mismatch_not_mergeable(g1: Group, g2: Group)
    requires
        g1.id@ != g2.id@,
    ensures
        merge_kind(g1, g2) == MergeKind::NotMergeable,
{
}

/// A group merged with itself is structurally equivalent.
pub proof fn law_merge_reflexive(g: Group)
    ensures
        merge_kind(g, g) == MergeKind::StructuralEquivalence,
{
}

/// Swapping the two groups never changes the variant of the merge result.
pub proof fn law_merge_kind_symmetric(g1: Group, g2: Group)
    ensures
        merge_kind(g1, g2) == merge_kind(g2, g1),
{
    lemma_conflict_symmetric(g1, g2, all_fields());
    assert(equivalent(g1, g2) == equivalent(g2, g1));
}

/// In a disjoint override, every field that a side overrides keeps that side's value.
pub proof fn law_disjoint_override_keeps_overrides(g1: Group, g2: Group, f: GroupField)
    requires
        merge_kind(g1, g2) == MergeKind::DisjointOverride,
    ensures
        overrides(g1, f) ==> merged_value(g1, g2, f) == field_value(g1, f),
        overrides(g2, f) ==> merged_value(g1, g2, f) == field_value(g2, f),
{
    lemma_all_fields(f);
    let j = choose|j: int| 0 <= j < all_fields().len() && all_fields()[j] == f;
    lemma_conflict_free(g1, g2, all_fields(), j);
}

proof fn lemma_field_lists_respect_view(a: Group, a2: Group, g: Group, fs: Seq<GroupField>)
    requires
        same_view(a, a2),
    ensures
        conflict_fields(a, g, fs) == conflict_fields(a2, g, fs),
        stray_fields(a, g, fs) == stray_fields(a2, g, fs),
    decreases fs.len(),
{
    if fs.len() > 0 {
        let f = fs.last();
        assert(field_value(a, f) == field_value(a2, f));
        assert(overrides(a, f) == overrides(a2, f));
        lemma_field_lists_respect_view(a, a2, g, fs.drop_last());
    }
}

proof fn lemma_origin_respects_view(a: Group, a2: Group, g: Group)
    requires
        same_view(a, a2),
    ensures
        second_newer(a, g) == second_newer(a2, g),
        registry_label(a) == registry_label(a2),
{
    if origin(a) is Some {
        assert(origin_view(a) == Some(crate::group::info_view(origin(a).unwrap())));
        assert(origin(a2) is Some);
        assert(origin_view(a2) == Some(crate::group::info_view(origin(a2).unwrap())));
    } else {
        assert(origin_view(a) is None);
        assert(origin(a2) is None);
    }
}

/// Merging reads a group only through what `same_view` compares: two groups that agree
/// there give the same variant, the same reason, and merged groups that agree too.
pub proof fn lemma_merge_respects_view(a: Group, a2: Group, g: Group, x: Group, y: Group)
    requires
        same_view(a, a2),
    ensures
        merge_kind(a, g) == merge_kind(a2, g),
        merge_kind(a, g) == MergeKind::NotMergeable ==> failure_reason(a, g) == failure_reason(a2, g),
        merged_group_ok(a, g, x) && merged_group_ok(a2, g, y) ==> same_view(x, y),
{
    lemma_field_lists_respect_view(a, a2, g, all_fields());
    lemma_origin_respects_view(a, a2, g);
    assert(equivalent(a, g) == equivalent(a2, g)) by {
        if equivalent(a, g) {
            assert forall|f: GroupField| #[trigger] field_value(a2, f) == field_value(g, f) by {
                assert(field_value(a, f) == field_value(a2, f));
            }
        }
        if equivalent(a2, g) {
            assert forall|f: GroupField| #[trigger] field_value(a, f) == field_value(g, f) by {
                assert(field_value(a, f) == field_value(a2, f));
            }
        }
    }
    assert(no_overrides(a) == no_overrides(a2)) by {
        if no_overrides(a) {
            assert forall|f: GroupField| !#[trigger] overrides(a2, f) by {
                assert(overrides(a, f) == overrides(a2, f));
            }
        }
        if no_overrides(a2) {
            assert forall|f: GroupField| !#[trigger] overrides(a, f) by {
                assert(overrides(a, f) == overrides(a2, f));
            }
        }
    }
    let cf = conflict_fields(a, g, all_fields());
    assert(conflict_lines(a, g, cf) =~= conflict_lines(a2, g, cf)) by {
        assert forall|i: int| 0 <= i < cf.len() implies conflict_lines(a, g, cf)[i] == conflict_lines(a2, g, cf)[i] by {
            assert(field_value(a, cf[i]) == field_value(a2, cf[i]));
        }
    }
    if merged_group_ok(a, g, x) && merged_group_ok(a2, g, y) {
        assert forall|f: GroupField| #[trigger] field_value(x, f) == field_value(y, f) by {
            assert(field_value(a, f) == field_value(a2, f));
            assert(overrides(a, f) == overrides(a2, f));
        }
        assert forall|f: GroupField| #[trigger] overrides(x, f) == overrides(y, f) by {
            assert(overrides(a, f) == overrides(a2, f));
        }
    }
}

} // verus!
