//! Schema groups: the definitions that registries declare, extend and override.

use vstd::prelude::*;
use vstd::string::*;
use crate::lineage::{AttributeLineage, GroupLineage, RegistryInfo};

verus! {

/// The semantic fields of a group, compared and merged one by one.
#[derive(Debug, Clone, Copy, PartialEq, Eq, Structural)]
pub enum GroupField {
    Brief,
    Note,
    Stability,
    Deprecated,
    Unit,
    Instrument,
    SpanKind,
    Attributes,
    Events,
}

/// The kind of a group.
#[derive(Debug, Clone, Copy, PartialEq, Eq, Structural)]
pub enum GroupType {
    AttributeGroup,
    Span,
    Event,
    Metric,
    MetricGroup,
    Resource,
    Scope,
}

/// A schema item definition.
#[derive(Debug)]
pub struct Group {
    /// Stable identifier, unique within its type.
    pub id: String,
    /// The kind of the group.
    pub group_type: GroupType,
    pub brief: String,
    pub note: String,
    pub stability: Option<String>,
    pub deprecated: Option<String>,
    pub unit: Option<String>,
    pub instrument: Option<String>,
    pub span_kind: Option<String>,
    /// Identifiers of the attributes of the group.
    pub attributes: Vec<String>,
    /// Names of the events of the group.
    pub events: Vec<String>,
    /// Identifier of the parent group, if any.
    pub extends: Option<String>,
    /// Provenance of the definition, if known.
    pub lineage: Option<GroupLineage>,
}

pub open spec fn opt_value(o: Option<String>) -> Seq<Seq<char>> {
    match o {
        Some(s) => seq![s@],
        None => Seq::empty(),
    }
}

pub open spec fn list_value(v: Seq<String>) -> Seq<Seq<char>> {
    v.map_values(|s: String| s@)
}

/// The value of field `f` of `g`, as a list of texts: one text for a plain field, none or
/// one for an optional field, one per item for a list field.
pub open spec fn field_value(g: Group, f: GroupField) -> Seq<Seq<char>> {
    match f {
        GroupField::Brief => seq![g.brief@],
        GroupField::Note => seq![g.note@],
        GroupField::Stability => opt_value(g.stability),
        GroupField::Deprecated => opt_value(g.deprecated),
        GroupField::Unit => opt_value(g.unit),
        GroupField::Instrument => opt_value(g.instrument),
        GroupField::SpanKind => opt_value(g.span_kind),
        GroupField::Attributes => list_value(g.attributes@),
        GroupField::Events => list_value(g.events@),
    }
}

/// The name of a field as written in registries.
pub open spec fn field_name(f: GroupField) -> Seq<char> {
    match f {
        GroupField::Brief => "brief"@,
        GroupField::Note => "note"@,
        GroupField::Stability => "stability"@,
        GroupField::Deprecated => "deprecated"@,
        GroupField::Unit => "unit"@,
        GroupField::Instrument => "instrument"@,
        GroupField::SpanKind => "span_kind"@,
        GroupField::Attributes => "attributes"@,
        GroupField::Events => "events"@,
    }
}

/// The name of a group type as written in registries.
pub open spec fn group_type_name(t: GroupType) -> Seq<char> {
    match t {
        GroupType::AttributeGroup => "attribute_group"@,
        GroupType::Span => "span"@,
        GroupType::Event => "event"@,
        GroupType::Metric => "metric"@,
        GroupType::MetricGroup => "metric_group"@,
        GroupType::Resource => "resource"@,
        GroupType::Scope => "scope"@,
    }
}

/// All semantic fields of a group.
pub open spec fn all_fields() -> Seq<GroupField> {
    seq![
        GroupField::Brief,
        GroupField::Note,
        GroupField::Stability,
        GroupField::Deprecated,
        GroupField::Unit,
        GroupField::Instrument,
        GroupField::SpanKind,
        GroupField::Attributes,
        GroupField::Events,
    ]
}

pub proof fn lemma_all_fields(f: GroupField)
    ensures
        all_fields().contains(f),
{
    match f {
        GroupField::Brief => assert(all_fields()[0] == f),
        GroupField::Note => assert(all_fields()[1] == f),
        GroupField::Stability => assert(all_fields()[2] == f),
        GroupField::Deprecated => assert(all_fields()[3] == f),
        GroupField::Unit => assert(all_fields()[4] == f),
        GroupField::Instrument => assert(all_fields()[5] == f),
        GroupField::SpanKind => assert(all_fields()[6] == f),
        GroupField::Attributes => assert(all_fields()[7] == f),
        GroupField::Events => assert(all_fields()[8] == f),
    }
}

/// The semantic fields, in declaration order.
pub fn field_list() -> (r: Vec<GroupField>)
    ensures
        r@ == all_fields(),
{
    let r = vec![
        GroupField::Brief,
        GroupField::Note,
        GroupField::Stability,
        GroupField::Deprecated,
        GroupField::Unit,
        GroupField::Instrument,
        GroupField::SpanKind,
        GroupField::Attributes,
        GroupField::Events,
    ];
    assert(r@ =~= all_fields());
    r
}

impl GroupField {
    /// The name of the field as written in registries.
    pub fn name(&self) -> (r: &'static str)
        ensures
            r@ == field_name(*self),
    {
        match self {
            GroupField::Brief => "brief",
            GroupField::Note => "note",
            GroupField::Stability => "stability",
            GroupField::Deprecated => "deprecated",
            GroupField::Unit => "unit",
            GroupField::Instrument => "instrument",
            GroupField::SpanKind => "span_kind",
            GroupField::Attributes => "attributes",
            GroupField::Events => "events",
        }
    }
}

impl GroupType {
    /// The name of the group type as written in registries.
    pub fn name(&self) -> (r: &'static str)
        ensures
            r@ == group_type_name(*self),
    {
        match self {
            GroupType::AttributeGroup => "attribute_group",
            GroupType::Span => "span",
            GroupType::Event => "event",
            GroupType::Metric => "metric",
            GroupType::MetricGroup => "metric_group",
            GroupType::Resource => "resource",
            GroupType::Scope => "scope",
        }
    }
}

fn opt_eq(a: &Option<String>, b: &Option<String>) -> (r: bool)
    ensures
        r == (opt_value(*a) == opt_value(*b)),
{
    match (a, b) {
        (Some(x), Some(y)) => {
            let e = x.eq(y);
            if e {
                assert(opt_value(*a) =~= opt_value(*b));
            } else {
                assert(opt_value(*a)[0] != opt_value(*b)[0]);
            }
            e
        },
        (None, None) => {
            assert(opt_value(*a) =~= opt_value(*b));
            true
        },
        _ => {
            assert(opt_value(*a).len() != opt_value(*b).len());
            false
        },
    }
}

fn list_eq(a: &Vec<String>, b: &Vec<String>) -> (r: bool)
    ensures
        r == (list_value(a@) == list_value(b@)),
{
    if a.len() != b.len() {
        assert(list_value(a@).len() != list_value(b@).len());
        return false;
    }
    let mut i: usize = 0;
    while i < a.len()
        invariant
            a@.len() == b@.len(),
            i <= a@.len(),
            forall|j: int| 0 <= j < i ==> a@[j]@ == b@[j]@,
        decreases a@.len() - i,
    {
        if !a[i].eq(&b[i]) {
            assert(list_value(a@)[i as int] != list_value(b@)[i as int]);
            return false;
        }
        i = i + 1;
    }
    assert(list_value(a@) =~= list_value(b@));
    true
}

fn copy_opt(o: &Option<String>) -> (r: Option<String>)
    ensures
        opt_value(r) == opt_value(*o),
{
    match o {
        Some(s) => Some(s.clone()),
        None => None,
    }
}

pub(crate) fn copy_list(v: &Vec<String>) -> (r: Vec<String>)
    ensures
        list_value(r@) == list_value(v@),
{
    let mut r: Vec<String> = Vec::new();
    let mut i: usize = 0;
    while i < v.len()
        invariant
            i <= v@.len(),
            r@.len() == i,
            forall|j: int| 0 <= j < i ==> r@[j]@ == v@[j]@,
        decreases v@.len() - i,
    {
        r.push(v[i].clone());
        i = i + 1;
    }
    assert(list_value(r@) =~= list_value(v@));
    r
}

/// Overridden fields recorded in a list of lineage records.
pub open spec fn records_override(recs: Seq<(String, AttributeLineage)>, f: GroupField) -> bool {
    exists|i: int| 0 <= i < recs.len() && (#[trigger] recs[i]).1.locally_overridden_fields@.contains(f)
}

/// Whether a lineage records field `f` as overridden.
pub open spec fn lineage_overrides(l: Option<GroupLineage>, f: GroupField) -> bool {
    match l {
        Some(l) => records_override(l.attributes@, f),
        None => false,
    }
}

/// Whether the lineage of `g` records field `f` as overridden.
pub open spec fn overrides(g: Group, f: GroupField) -> bool {
    lineage_overrides(g.lineage, f)
}

/// The registry release a group comes from: the last of its lineage's ancestors.
pub open spec fn origin(g: Group) -> Option<RegistryInfo> {
    match g.lineage {
        Some(l) => if l.ancestors@.len() > 0 {
            Some(l.ancestors@.last())
        } else {
            None
        },
        None => None,
    }
}

/// The name, version and repository URL of a release.
pub open spec fn info_view(r: RegistryInfo) -> (Seq<char>, Seq<char>, Seq<char>) {
    (r.name@, r.version@, r.repository_url@)
}

/// The release a lineage ends at, as texts.
pub open spec fn lineage_origin(l: Option<GroupLineage>) -> Option<(Seq<char>, Seq<char>, Seq<char>)> {
    match l {
        Some(l) => if l.ancestors@.len() > 0 {
            Some(info_view(l.ancestors@.last()))
        } else {
            None
        },
        None => None,
    }
}

/// The release a group comes from, as texts.
pub open spec fn origin_view(g: Group) -> Option<(Seq<char>, Seq<char>, Seq<char>)> {
    lineage_origin(g.lineage)
}

fn copy_records(v: &Vec<(String, AttributeLineage)>, r: &mut Vec<(String, AttributeLineage)>)
    ensures
        final(r)@.len() == old(r)@.len() + v@.len(),
        forall|f: GroupField| #[trigger] records_override(final(r)@, f) == (records_override(old(r)@, f) || records_override(v@, f)),
{
    let ghost start = r@;
    let mut i: usize = 0;
    while i < v.len()
        invariant
            i <= v@.len(),
            r@.len() == start.len() + i,
            forall|j: int| 0 <= j < start.len() ==> (#[trigger] r@[j]).1.locally_overridden_fields@ == start[j].1.locally_overridden_fields@,
            forall|j: int| 0 <= j < i ==> (#[trigger] r@[start.len() + j]).1.locally_overridden_fields@ == v@[j].1.locally_overridden_fields@,
        decreases v@.len() - i,
    {
        let (k, a) = (v[i].0.clone(), v[i].1.copy());
        r.push((k, a));
        i = i + 1;
    }
    assert forall|f: GroupField| #[trigger] records_override(r@, f) == (records_override(start, f) || records_override(v@, f)) by {
        if records_override(r@, f) {
            let j = choose|j: int| 0 <= j < r@.len() && (#[trigger] r@[j]).1.locally_overridden_fields@.contains(f);
            if j < start.len() {
                assert(start[j].1.locally_overridden_fields@.contains(f));
            } else {
                assert(r@[start.len() + (j - start.len())] == r@[j]);
                assert(v@[j - start.len()].1.locally_overridden_fields@.contains(f));
            }
        }
        if records_override(start, f) {
            let j = choose|j: int| 0 <= j < start.len() && (#[trigger] start[j]).1.locally_overridden_fields@.contains(f);
            assert(r@[j].1.locally_overridden_fields@.contains(f));
        }
        if records_override(v@, f) {
            let j = choose|j: int| 0 <= j < v@.len() && (#[trigger] v@[j]).1.locally_overridden_fields@.contains(f);
            assert(r@[start.len() + j].1.locally_overridden_fields@.contains(f));
        }
    }
}

fn copy_ancestors(v: &Vec<RegistryInfo>) -> (r: Vec<RegistryInfo>)
    ensures
        r@.len() == v@.len(),
        forall|j: int| 0 <= j < v@.len() ==> {
            &&& (#[trigger] r@[j]).name@ == v@[j].name@
            &&& r@[j].version@ == v@[j].version@
            &&& r@[j].repository_url@ == v@[j].repository_url@
        },
{
    let mut r: Vec<RegistryInfo> = Vec::new();
    let mut i: usize = 0;
    while i < v.len()
        invariant
            i <= v@.len(),
            r@.len() == i,
            forall|j: int| 0 <= j < i ==> {
                &&& (#[trigger] r@[j]).name@ == v@[j].name@
                &&& r@[j].version@ == v@[j].version@
                &&& r@[j].repository_url@ == v@[j].repository_url@
            },
        decreases v@.len() - i,
    {
        r.push(v[i].copy());
        i = i + 1;
    }
    r
}

/// The lineage of `a` with the records of `b` appended; `None` when neither has one.
pub fn union_lineage(a: &Option<GroupLineage>, b: &Option<GroupLineage>) -> (r: Option<GroupLineage>)
    ensures
        forall|f: GroupField| #[trigger] lineage_overrides(r, f) == (lineage_overrides(*a, f) || lineage_overrides(*b, f)),
        (a is None && b is None) <==> r is None,
        lineage_origin(r) == if a is Some { lineage_origin(*a) } else { lineage_origin(*b) },
{
    let base: Option<&GroupLineage> = match a {
        Some(l) => Some(l),
        None => match b {
            Some(l) => Some(l),
            None => None,
        },
    };
    match base {
        None => {
            assert(a is None && b is None);
            None
        },
        Some(l) => {
            let mut recs: Vec<(String, AttributeLineage)> = Vec::new();
            assert forall|f: GroupField| !records_override(recs@, f) by {}
            if let Some(la) = a {
                copy_records(&la.attributes, &mut recs);
            }
            assert forall|f: GroupField| records_override(recs@, f) == lineage_overrides(*a, f) by {}
            let ghost r1 = recs@;
            match b {
                Some(lb) => {
                    copy_records(&lb.attributes, &mut recs);
                    assert forall|f: GroupField| records_override(recs@, f) == (lineage_overrides(*a, f)
                        || lineage_overrides(*b, f)) by {
                        assert(records_override(r1, f) == lineage_overrides(*a, f));
                        assert(records_override(recs@, f) == (records_override(r1, f) || records_override(lb.attributes@, f)));
                    }
                },
                None => {
                    assert forall|f: GroupField| records_override(recs@, f) == (lineage_overrides(*a, f)
                        || lineage_overrides(*b, f)) by {
                        assert(records_override(r1, f) == lineage_overrides(*a, f));
                    }
                },
            }
            let anc = copy_ancestors(&l.ancestors);
            proof {
                if anc@.len() > 0 {
                    assert(info_view(anc@.last()) == info_view(l.ancestors@.last()));
                }
            }
            let r = Some(GroupLineage {
                ancestors: anc,
                source_file: l.source_file.clone(),
                attributes: recs,
            });
            assert forall|f: GroupField| #[trigger] lineage_overrides(r, f) == (lineage_overrides(*a, f)
                || lineage_overrides(*b, f)) by {}
            r
        },
    }
}

impl Group {
    /// Whether field `f` has the same value in both groups.
    pub fn field_eq(&self, other: &Group, f: GroupField) -> (r: bool)
        ensures
            r == (field_value(*self, f) == field_value(*other, f)),
    {
        match f {
            GroupField::Brief => {
                let r = self.brief.eq(&other.brief);
                assert(r ==> field_value(*self, f) =~= field_value(*other, f));
                assert(!r ==> field_value(*self, f)[0] != field_value(*other, f)[0]);
                r
            },
            GroupField::Note => {
                let r = self.note.eq(&other.note);
                assert(r ==> field_value(*self, f) =~= field_value(*other, f));
                assert(!r ==> field_value(*self, f)[0] != field_value(*other, f)[0]);
                r
            },
            GroupField::Stability => opt_eq(&self.stability, &other.stability),
            GroupField::Deprecated => opt_eq(&self.deprecated, &other.deprecated),
            GroupField::Unit => opt_eq(&self.unit, &other.unit),
            GroupField::Instrument => opt_eq(&self.instrument, &other.instrument),
            GroupField::SpanKind => opt_eq(&self.span_kind, &other.span_kind),
            GroupField::Attributes => list_eq(&self.attributes, &other.attributes),
            GroupField::Events => list_eq(&self.events, &other.events),
        }
    }

    /// Sets field `f` to its value in `src`, leaving the other fields as they are.
    pub fn take_field(&mut self, src: &Group, f: GroupField)
        ensures
            field_value(*final(self), f) == field_value(*src, f),
            forall|g: GroupField| g != f ==> field_value(*final(self), g) == field_value(*old(self), g),
            final(self).id == old(self).id,
            final(self).group_type == old(self).group_type,
            final(self).extends == old(self).extends,
            final(self).lineage == old(self).lineage,
    {
        match f {
            GroupField::Brief => {
                self.brief = src.brief.clone();
            },
            GroupField::Note => {
                self.note = src.note.clone();
            },
            GroupField::Stability => {
                self.stability = copy_opt(&src.stability);
            },
            GroupField::Deprecated => {
                self.deprecated = copy_opt(&src.deprecated);
            },
            GroupField::Unit => {
                self.unit = copy_opt(&src.unit);
            },
            GroupField::Instrument => {
                self.instrument = copy_opt(&src.instrument);
            },
            GroupField::SpanKind => {
                self.span_kind = copy_opt(&src.span_kind);
            },
            GroupField::Attributes => {
                self.attributes = copy_list(&src.attributes);
            },
            GroupField::Events => {
                self.events = copy_list(&src.events);
            },
        }
    }

    /// A copy of the group's identity and semantic fields, with lineage `lineage`.
    pub fn copy_with_lineage(&self, lineage: Option<GroupLineage>) -> (r: Group)
        ensures
            r.id@ == self.id@,
            r.group_type == self.group_type,
            opt_value(r.extends) == opt_value(self.extends),
            forall|f: GroupField| field_value(r, f) == field_value(*self, f),
            r.lineage == lineage,
    {
        Group {
            id: self.id.clone(),
            group_type: self.group_type,
            brief: self.brief.clone(),
            note: self.note.clone(),
            stability: copy_opt(&self.stability),
            deprecated: copy_opt(&self.deprecated),
            unit: copy_opt(&self.unit),
            instrument: copy_opt(&self.instrument),
            span_kind: copy_opt(&self.span_kind),
            attributes: copy_list(&self.attributes),
            events: copy_list(&self.events),
            extends: copy_opt(&self.extends),
            lineage,
        }
    }
}

} // verus!
