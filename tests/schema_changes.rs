use weaver_resolve::diff::{diff, RenameHint, SchemaItem};
use weaver_resolve::schema_changes::{
    RegistryManifest, SchemaChanges, SchemaItemChange, SchemaItemType,
};

const ALL: [SchemaItemType; 5] = [
    SchemaItemType::Attributes,
    SchemaItemType::Metrics,
    SchemaItemType::Events,
    SchemaItemType::Spans,
    SchemaItemType::Resources,
];

fn item(t: SchemaItemType, name: &str, deprecated: Option<&str>) -> SchemaItem {
    SchemaItem {
        item_type: t,
        name: name.to_owned(),
        deprecated: deprecated.map(|d| d.to_owned()),
    }
}

fn hint(old: &str, new: &str) -> RenameHint {
    RenameHint {
        old_name: old.to_owned(),
        new_name: new.to_owned(),
    }
}

fn manifest(v: &str) -> RegistryManifest {
    RegistryManifest {
        semconv_version: v.to_owned(),
    }
}

fn empty_stats() -> String {
    let mut s = String::from("Schema Changes:\n");
    for t in ["Attributes", "Metrics", "Events", "Spans", "Resources"] {
        s.push_str(&format!(
            "{}:\n  Added: 0\n  Renamed to new: 0\n  Renamed to existing: 0\n  Deprecated: 0\n  Removed: 0\n",
            t
        ));
    }
    s
}

#[test]
fn new_has_every_item_type() {
    let c = SchemaChanges::new();
    for t in ALL {
        assert!(c.changes(t).is_empty());
    }
    assert_eq!(c.head().semconv_version, "");
    assert_eq!(c.dump_stats(), empty_stats());
}

#[test]
fn add_change_appends_to_its_type() {
    let mut c = SchemaChanges::new();
    c.add_change(SchemaItemType::Metrics, SchemaItemChange::Added { name: "m1".to_owned() });
    c.add_change(SchemaItemType::Metrics, SchemaItemChange::Removed { name: "m0".to_owned() });
    assert_eq!(c.changes(SchemaItemType::Metrics).len(), 2);
    assert!(matches!(&c.changes(SchemaItemType::Metrics)[0], SchemaItemChange::Added { name } if name == "m1"));
    assert!(matches!(&c.changes(SchemaItemType::Metrics)[1], SchemaItemChange::Removed { name } if name == "m0"));
    assert!(c.changes(SchemaItemType::Attributes).is_empty());
}

#[test]
fn manifests_are_set() {
    let mut c = SchemaChanges::new();
    c.set_head_manifest(manifest("1.27.0"));
    c.set_baseline_manifest(manifest("1.26.0"));
    assert_eq!(c.head().semconv_version, "1.27.0");
    assert_eq!(c.baseline().semconv_version, "1.26.0");
}

#[test]
fn dump_stats_counts_each_kind() {
    let mut c = SchemaChanges::new();
    for i in 0..12 {
        c.add_change(SchemaItemType::Spans, SchemaItemChange::Added { name: format!("s{}", i) });
    }
    c.add_change(
        SchemaItemType::Events,
        SchemaItemChange::Deprecated { name: "e".to_owned(), note: "gone".to_owned() },
    );
    c.add_change(
        SchemaItemType::Events,
        SchemaItemChange::RenamedToExisting { old_names: vec!["a".to_owned()], current_name: "b".to_owned() },
    );
    let stats = c.dump_stats();
    assert!(stats.contains("Spans:\n  Added: 12\n  Renamed to new: 0\n"));
    assert!(stats.contains("Events:\n  Added: 0\n  Renamed to new: 0\n  Renamed to existing: 1\n  Deprecated: 1\n  Removed: 0\n"));
    assert!(stats.starts_with("Schema Changes:\nAttributes:\n"));
}

#[test]
fn rename_to_new_attribute() {
    let baseline = vec![item(SchemaItemType::Attributes, "net.peer.name", None)];
    let head = vec![item(SchemaItemType::Attributes, "server.address", None)];
    let hints = vec![hint("net.peer.name", "server.address")];
    let c = diff(&baseline, manifest("1.0.0"), &head, manifest("1.1.0"), &hints);
    let attrs = c.changes(SchemaItemType::Attributes);
    assert_eq!(attrs.len(), 1);
    match &attrs[0] {
        SchemaItemChange::RenamedToNew { old_names, new_name } => {
            assert_eq!(old_names, &vec!["net.peer.name".to_owned()]);
            assert_eq!(new_name, "server.address");
        }
        other => panic!("unexpected change {:?}", other),
    }
    assert!(c.dump_stats().contains("Attributes:\n  Added: 0\n  Renamed to new: 1\n"));
    assert_eq!(c.head().semconv_version, "1.1.0");
    assert_eq!(c.baseline().semconv_version, "1.0.0");
}

#[test]
fn diff_classifies_every_kind() {
    let baseline = vec![
        item(SchemaItemType::Attributes, "kept", None),
        item(SchemaItemType::Attributes, "gone", None),
        item(SchemaItemType::Attributes, "old.a", None),
        item(SchemaItemType::Attributes, "old.b", None),
        item(SchemaItemType::Attributes, "target", None),
        item(SchemaItemType::Attributes, "aging", None),
        item(SchemaItemType::Metrics, "m", None),
    ];
    let head = vec![
        item(SchemaItemType::Attributes, "kept", None),
        item(SchemaItemType::Attributes, "fresh", None),
        item(SchemaItemType::Attributes, "target", None),
        item(SchemaItemType::Attributes, "aging", Some("use kept")),
        item(SchemaItemType::Metrics, "m", Some("")),
    ];
    let hints = vec![hint("old.a", "target"), hint("old.b", "target")];
    let c = diff(&baseline, manifest("1"), &head, manifest("2"), &hints);
    let attrs = c.changes(SchemaItemType::Attributes);
    assert_eq!(attrs.len(), 4);
    assert!(matches!(&attrs[0], SchemaItemChange::Added { name } if name == "fresh"));
    assert!(matches!(&attrs[1], SchemaItemChange::Deprecated { name, note } if name == "aging" && note == "use kept"));
    assert!(matches!(&attrs[2], SchemaItemChange::Removed { name } if name == "gone"));
    match &attrs[3] {
        SchemaItemChange::RenamedToExisting { old_names, current_name } => {
            assert_eq!(old_names, &vec!["old.a".to_owned(), "old.b".to_owned()]);
            assert_eq!(current_name, "target");
        }
        other => panic!("unexpected change {:?}", other),
    }
    assert!(c.changes(SchemaItemType::Metrics).is_empty());
    for t in ALL {
        let _ = c.changes(t);
    }
}

#[test]
fn diff_of_empty_snapshots_has_every_type() {
    let c = diff(&vec![], manifest("a"), &vec![], manifest("b"), &vec![]);
    for t in ALL {
        assert!(c.changes(t).is_empty());
    }
    assert_eq!(c.dump_stats(), empty_stats());
}

#[test]
fn diff_never_adds_and_removes_one_name() {
    let baseline = vec![item(SchemaItemType::Spans, "x", None), item(SchemaItemType::Spans, "y", None)];
    let head = vec![item(SchemaItemType::Spans, "y", None), item(SchemaItemType::Spans, "z", None)];
    let c = diff(&baseline, manifest("1"), &head, manifest("2"), &vec![]);
    let spans = c.changes(SchemaItemType::Spans);
    let added: Vec<&String> = spans
        .iter()
        .filter_map(|c| match c {
            SchemaItemChange::Added { name } => Some(name),
            _ => None,
        })
        .collect();
    let removed: Vec<&String> = spans
        .iter()
        .filter_map(|c| match c {
            SchemaItemChange::Removed { name } => Some(name),
            _ => None,
        })
        .collect();
    assert_eq!(added, vec!["z"]);
    assert_eq!(removed, vec!["x"]);
}

#[test]
fn diff_records_each_change_once() {
    let baseline = vec![
        item(SchemaItemType::Attributes, "a", None),
        item(SchemaItemType::Attributes, "a", None),
        item(SchemaItemType::Attributes, "b", None),
    ];
    let head = vec![
        item(SchemaItemType::Attributes, "n", None),
        item(SchemaItemType::Attributes, "n", None),
        item(SchemaItemType::Attributes, "c", None),
        item(SchemaItemType::Attributes, "c", None),
    ];
    let hints = vec![hint("a", "x"), hint("b", "x")];
    let c = diff(&baseline, manifest("1"), &head, manifest("2"), &hints);
    let attrs = c.changes(SchemaItemType::Attributes);
    assert_eq!(attrs.len(), 3);
    assert!(matches!(&attrs[0], SchemaItemChange::Added { name } if name == "n"));
    assert!(matches!(&attrs[1], SchemaItemChange::Added { name } if name == "c"));
    match &attrs[2] {
        SchemaItemChange::RenamedToNew { old_names, new_name } => {
            assert_eq!(old_names, &vec!["a".to_owned(), "b".to_owned()]);
            assert_eq!(new_name, "x");
        }
        other => panic!("unexpected change {:?}", other),
    }
    assert!(c.dump_stats().contains("Attributes:\n  Added: 2\n  Renamed to new: 1\n"));
}
