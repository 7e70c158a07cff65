use weaver_resolve::group::{Group, GroupField, GroupType};
use weaver_resolve::lineage::{version_parts, str_less, AttributeLineage, GroupLineage, RegistryInfo};
use weaver_resolve::reducer::{resolve, RegistryGroups};
use weaver_resolve::text::{contains_char, decimal_string, has_prefix};

fn registry(name: &str, version: &str) -> RegistryInfo {
    RegistryInfo {
        name: name.to_owned(),
        version: version.to_owned(),
        repository_url: format!("https://example.com/{}", name),
    }
}

fn group(id: &str, brief: &str, reg: RegistryInfo, overridden: Vec<GroupField>) -> Group {
    Group {
        id: id.to_owned(),
        group_type: GroupType::Metric,
        brief: brief.to_owned(),
        note: "".to_owned(),
        stability: None,
        deprecated: None,
        unit: None,
        instrument: None,
        span_kind: None,
        attributes: vec![],
        events: vec![],
        extends: None,
        lineage: Some(GroupLineage {
            ancestors: vec![reg],
            source_file: "r.yaml".to_owned(),
            attributes: vec![(
                "e".to_owned(),
                AttributeLineage {
                    source_group: id.to_owned(),
                    inherited_fields: vec![],
                    locally_overridden_fields: overridden,
                },
            )],
        }),
    }
}

#[test]
fn resolve_folds_in_release_order() {
    let regs = vec![
        RegistryGroups {
            info: registry("otel", "1.2.0"),
            groups: vec![group("m", "newest", registry("otel", "1.2.0"), vec![])],
        },
        RegistryGroups {
            info: registry("otel", "1.0.0"),
            groups: vec![
                group("m", "oldest", registry("otel", "1.0.0"), vec![]),
                group("solo", "alone", registry("otel", "1.0.0"), vec![]),
            ],
        },
        RegistryGroups {
            info: registry("otel", "1.1.0"),
            groups: vec![group("m", "middle", registry("otel", "1.1.0"), vec![])],
        },
    ];
    let r = resolve(&regs);
    assert!(r.conflicts.is_empty());
    assert_eq!(r.resolved.len(), 2);
    let m = r.resolved.iter().find(|g| g.id == "m").unwrap();
    assert_eq!(m.brief, "newest");
    let solo = r.resolved.iter().find(|g| g.id == "solo").unwrap();
    assert_eq!(solo.brief, "alone");
}

#[test]
fn resolve_reports_conflicts_sorted() {
    let regs = vec![
        RegistryGroups {
            info: registry("a", "1.0.0"),
            groups: vec![
                group("zeta", "a", registry("a", "1.0.0"), vec![GroupField::Brief]),
                group("alpha", "a", registry("a", "1.0.0"), vec![GroupField::Brief]),
                group("ok", "same", registry("a", "1.0.0"), vec![]),
            ],
        },
        RegistryGroups {
            info: registry("b", "1.0.0"),
            groups: vec![
                group("zeta", "b", registry("b", "1.0.0"), vec![GroupField::Brief]),
                group("alpha", "b", registry("b", "1.0.0"), vec![GroupField::Brief]),
                group("ok", "same", registry("b", "1.0.0"), vec![]),
            ],
        },
    ];
    let r = resolve(&regs);
    assert_eq!(r.resolved.len(), 1);
    assert_eq!(r.resolved[0].id, "ok");
    assert_eq!(r.conflicts.len(), 2);
    assert_eq!(r.conflicts[0].group_id, "alpha");
    assert_eq!(r.conflicts[1].group_id, "zeta");
    assert!(r.conflicts[0].reason.contains("brief"));
}

#[test]
fn resolve_of_nothing_is_empty() {
    let r = resolve(&vec![]);
    assert!(r.resolved.is_empty());
    assert!(r.conflicts.is_empty());
}

#[test]
fn version_parts_default_to_zero() {
    assert_eq!(version_parts("1.2.3"), (1, 2, 3));
    assert_eq!(version_parts("10.0"), (10, 0, 0));
    assert_eq!(version_parts("1.x.7"), (1, 0, 7));
    assert_eq!(version_parts(""), (0, 0, 0));
    assert_eq!(version_parts("2.3.4-rc1"), (2, 3, 0));
    assert_eq!(version_parts("99999999999999999999.1"), (0, 1, 0));
}

#[test]
fn text_helpers() {
    assert!(str_less("abc", "abd"));
    assert!(str_less("ab", "abc"));
    assert!(!str_less("b", "abc"));
    assert!(!str_less("same", "same"));
    assert_eq!(decimal_string(0), "0");
    assert_eq!(decimal_string(1207), "1207");
    assert!(contains_char("a@b", '@'));
    assert!(!contains_char("ab", '@'));
    assert!(has_prefix("https://x", "https://"));
    assert!(!has_prefix("http", "http://"));
}

#[test]
fn resolve_passes_single_groups_through() {
    let mut g = group("only", "brief", registry("acme", "0.3.1"), vec![GroupField::Unit]);
    g.unit = Some("By".to_owned());
    g.extends = Some("parent".to_owned());
    let regs = vec![RegistryGroups { info: registry("acme", "0.3.1"), groups: vec![g] }];
    let r = resolve(&regs);
    assert_eq!(r.resolved.len(), 1);
    let out = &r.resolved[0];
    assert_eq!(out.id, "only");
    assert_eq!(out.brief, "brief");
    assert_eq!(out.unit, Some("By".to_owned()));
    assert_eq!(out.extends, Some("parent".to_owned()));
    assert_eq!(out.lineage.as_ref().unwrap().ancestors[0].version, "0.3.1");
}

#[test]
fn resolve_conflict_carries_merge_reason() {
    let regs = vec![
        RegistryGroups {
            info: registry("b", "2.0.0"),
            groups: vec![group("m", "second", registry("b", "2.0.0"), vec![GroupField::Brief])],
        },
        RegistryGroups {
            info: registry("a", "1.0.0"),
            groups: vec![group("m", "first", registry("a", "1.0.0"), vec![GroupField::Brief])],
        },
    ];
    let r = resolve(&regs);
    assert!(r.resolved.is_empty());
    assert_eq!(r.conflicts.len(), 1);
    assert_eq!(
        r.conflicts[0].reason,
        "Conflicting overrides: brief is 'first' in a 1.0.0 but 'second' in b 2.0.0"
    );
}
