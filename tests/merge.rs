use weaver_resolve::group::{Group, GroupField, GroupType};
use weaver_resolve::lineage::{AttributeLineage, GroupLineage, RegistryInfo};
use weaver_resolve::merge::{merge, MergeKind, MergeResult};

fn registry(name: &str, version: &str) -> RegistryInfo {
    RegistryInfo {
        name: name.to_owned(),
        version: version.to_owned(),
        repository_url: format!("https://example.com/{}", name),
    }
}

fn lineage(reg: RegistryInfo, overridden: Vec<GroupField>) -> GroupLineage {
    GroupLineage {
        ancestors: vec![reg],
        source_file: "registry.yaml".to_owned(),
        attributes: vec![(
            "entry".to_owned(),
            AttributeLineage {
                source_group: "base".to_owned(),
                inherited_fields: vec![],
                locally_overridden_fields: overridden,
            },
        )],
    }
}

fn gen_attribute_group(id: &str) -> Group {
    Group {
        id: id.to_owned(),
        group_type: GroupType::AttributeGroup,
        brief: "".to_owned(),
        note: "".to_owned(),
        stability: None,
        deprecated: None,
        unit: None,
        instrument: None,
        span_kind: None,
        attributes: vec![],
        events: vec![],
        extends: None,
        lineage: None,
    }
}

fn merged_group(r: &MergeResult) -> &Group {
    match r {
        MergeResult::StructuralEquivalence { group } => group,
        MergeResult::VersionCompatibility { group } => group,
        MergeResult::DisjointOverride { group } => group,
        MergeResult::NotMergeable { reason } => panic!("not mergeable: {}", reason),
    }
}

#[test]
fn test_structural_equivalence() {
    let mut g1 = gen_attribute_group("http.server.request");
    g1.brief = "HTTP server request".to_owned();
    g1.attributes = vec!["http.method".to_owned(), "http.route".to_owned()];
    g1.lineage = Some(lineage(registry("otel", "1.0.0"), vec![]));
    let mut g2 = gen_attribute_group("http.server.request");
    g2.brief = "HTTP server request".to_owned();
    g2.attributes = vec!["http.method".to_owned(), "http.route".to_owned()];
    g2.lineage = Some(lineage(registry("acme", "0.2.0"), vec![]));
    let r = merge(&g1, &g2);
    assert_eq!(r.kind(), MergeKind::StructuralEquivalence);
    let g = merged_group(&r);
    assert_eq!(g.id, "http.server.request");
    assert_eq!(g.brief, "HTTP server request");
    assert_eq!(g.attributes, vec!["http.method".to_owned(), "http.route".to_owned()]);
}

#[test]
fn version_compatibility_takes_newer_release() {
    let mut old = gen_attribute_group("http.server.request");
    old.brief = "old".to_owned();
    old.lineage = Some(lineage(registry("otel", "1.0.0"), vec![]));
    let mut new = gen_attribute_group("http.server.request");
    new.brief = "new".to_owned();
    new.lineage = Some(lineage(registry("otel", "1.1.0"), vec![]));
    let r = merge(&old, &new);
    assert_eq!(r.kind(), MergeKind::VersionCompatibility);
    assert_eq!(merged_group(&r).brief, "new");
    let r = merge(&new, &old);
    assert_eq!(r.kind(), MergeKind::VersionCompatibility);
    assert_eq!(merged_group(&r).brief, "new");
}

#[test]
fn version_order_is_numeric() {
    let mut a = gen_attribute_group("g");
    a.brief = "nine".to_owned();
    a.lineage = Some(lineage(registry("otel", "1.9.0"), vec![]));
    let mut b = gen_attribute_group("g");
    b.brief = "ten".to_owned();
    b.lineage = Some(lineage(registry("otel", "1.10.0"), vec![]));
    assert_eq!(merged_group(&merge(&a, &b)).brief, "ten");
    assert_eq!(merged_group(&merge(&b, &a)).brief, "ten");
}

#[test]
fn equal_versions_break_ties_by_registry_name() {
    let mut a = gen_attribute_group("g");
    a.brief = "from alpha".to_owned();
    a.lineage = Some(lineage(registry("alpha", "1.0.0"), vec![]));
    let mut b = gen_attribute_group("g");
    b.brief = "from beta".to_owned();
    b.lineage = Some(lineage(registry("beta", "1.0"), vec![]));
    assert_eq!(merged_group(&merge(&a, &b)).brief, "from beta");
    assert_eq!(merged_group(&merge(&b, &a)).brief, "from beta");
}

#[test]
fn disjoint_overrides_are_merged() {
    let mut a = gen_attribute_group("g");
    a.stability = Some("stable".to_owned());
    a.unit = Some("s".to_owned());
    a.lineage = Some(lineage(registry("a", "1.0.0"), vec![GroupField::Stability]));
    let mut b = gen_attribute_group("g");
    b.stability = Some("experimental".to_owned());
    b.unit = Some("ms".to_owned());
    b.lineage = Some(lineage(registry("b", "1.0.0"), vec![GroupField::Unit]));
    let r = merge(&a, &b);
    assert_eq!(r.kind(), MergeKind::DisjointOverride);
    let g = merged_group(&r);
    assert_eq!(g.stability, Some("stable".to_owned()));
    assert_eq!(g.unit, Some("ms".to_owned()));
    let r = merge(&b, &a);
    assert_eq!(r.kind(), MergeKind::DisjointOverride);
    let g = merged_group(&r);
    assert_eq!(g.stability, Some("stable".to_owned()));
    assert_eq!(g.unit, Some("ms".to_owned()));
}

#[test]
fn conflicting_overrides_are_not_mergeable() {
    let mut a = gen_attribute_group("g");
    a.brief = "first".to_owned();
    a.lineage = Some(lineage(registry("a", "1.0.0"), vec![GroupField::Brief]));
    let mut b = gen_attribute_group("g");
    b.brief = "second".to_owned();
    b.lineage = Some(lineage(registry("b", "2.0.0"), vec![GroupField::Brief]));
    match merge(&a, &b) {
        MergeResult::NotMergeable { reason } => {
            assert!(reason.contains("brief"));
            assert_eq!(
                reason,
                "Conflicting overrides: brief is 'first' in a 1.0.0 but 'second' in b 2.0.0"
            );
        }
        _ => panic!("expected a conflict"),
    }
    assert_eq!(merge(&b, &a).kind(), MergeKind::NotMergeable);
}

#[test]
fn equal_overrides_are_not_a_conflict() {
    let mut a = gen_attribute_group("g");
    a.brief = "same".to_owned();
    a.note = "a".to_owned();
    a.lineage = Some(lineage(registry("a", "1.0.0"), vec![GroupField::Brief, GroupField::Note]));
    let mut b = gen_attribute_group("g");
    b.brief = "same".to_owned();
    b.note = "b".to_owned();
    b.lineage = Some(lineage(registry("b", "1.0.0"), vec![GroupField::Brief]));
    let r = merge(&a, &b);
    assert_eq!(r.kind(), MergeKind::DisjointOverride);
    assert_eq!(merged_group(&r).note, "a");
}

#[test]
fn unexplained_difference_is_reported() {
    let mut a = gen_attribute_group("g");
    a.unit = Some("s".to_owned());
    a.note = "x".to_owned();
    a.lineage = Some(lineage(registry("a", "1.0.0"), vec![GroupField::Unit]));
    let mut b = gen_attribute_group("g");
    b.note = "y".to_owned();
    b.lineage = Some(lineage(registry("b", "1.0.0"), vec![]));
    match merge(&a, &b) {
        MergeResult::NotMergeable { reason } => assert_eq!(
            reason,
            "Inconsistent lineage, fields differ without an override: note"
        ),
        _ => panic!("expected a lineage error"),
    }
}

#[test]
fn identity_mismatch_is_not_mergeable() {
    let a = gen_attribute_group("a");
    let b = gen_attribute_group("b");
    match merge(&a, &b) {
        MergeResult::NotMergeable { reason } => {
            assert_eq!(reason, "Group identifiers do not match: a != b")
        }
        _ => panic!("expected an identity mismatch"),
    }
    let mut c = gen_attribute_group("a");
    c.group_type = GroupType::Span;
    match merge(&a, &c) {
        MergeResult::NotMergeable { reason } => {
            assert_eq!(reason, "Group types do not match: attribute_group != span")
        }
        _ => panic!("expected a type mismatch"),
    }
}

#[test]
fn merge_with_itself_is_equivalent() {
    let mut g = gen_attribute_group("g");
    g.events = vec!["e1".to_owned()];
    g.lineage = Some(lineage(registry("a", "1.0.0"), vec![GroupField::Events]));
    assert_eq!(merge(&g, &g).kind(), MergeKind::StructuralEquivalence);
}

#[test]
fn list_values_are_rendered_in_conflicts() {
    let mut a = gen_attribute_group("g");
    a.attributes = vec!["x".to_owned(), "y".to_owned()];
    a.lineage = Some(lineage(registry("a", "1.0.0"), vec![GroupField::Attributes]));
    let mut b = gen_attribute_group("g");
    b.attributes = vec!["z".to_owned()];
    b.lineage = None;
    let mut b2 = b;
    b2.lineage = Some(GroupLineage {
        ancestors: vec![],
        source_file: "f.yaml".to_owned(),
        attributes: vec![(
            "k".to_owned(),
            AttributeLineage {
                source_group: "g".to_owned(),
                inherited_fields: vec![],
                locally_overridden_fields: vec![GroupField::Attributes],
            },
        )],
    });
    match merge(&a, &b2) {
        MergeResult::NotMergeable { reason } => assert_eq!(
            reason,
            "Conflicting overrides: attributes is 'x, y' in a 1.0.0 but 'z' in an unknown registry"
        ),
        _ => panic!("expected a conflict"),
    }
}

#[test]
fn version_compatibility_keeps_newer_parent_and_release() {
    let mut old = gen_attribute_group("http.server.request");
    old.brief = "old".to_owned();
    old.extends = Some("base.old".to_owned());
    old.lineage = Some(lineage(registry("otel", "1.10.0"), vec![]));
    let mut new = gen_attribute_group("http.server.request");
    new.brief = "new".to_owned();
    new.extends = Some("base.new".to_owned());
    new.lineage = Some(lineage(registry("otel", "1.9.0"), vec![]));
    let r = merge(&old, &new);
    assert_eq!(r.kind(), MergeKind::VersionCompatibility);
    let g = merged_group(&r);
    assert_eq!(g.brief, "old");
    assert_eq!(g.extends, Some("base.old".to_owned()));
    let l = g.lineage.as_ref().unwrap();
    assert_eq!(l.ancestors.last().unwrap().version, "1.10.0");
    assert_eq!(l.ancestors.last().unwrap().name, "otel");
}
