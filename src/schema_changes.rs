//! Data structures tracking schema changes between two versions of a registry.

use vstd::prelude::*;
use vstd::string::*;
use crate::text::{decimal, decimal_string};

verus! {

/// The type of schema item.
#[derive(Debug, Clone, Copy, PartialEq, Eq, Structural)]
pub enum SchemaItemType {
    /// Attributes
    Attributes,
    /// Metrics
    Metrics,
    /// Events
    Events,
    /// Spans
    Spans,
    /// Resources
    Resources,
}

/// The kind of a schema item change, in the order used by reports.
#[derive(Debug, Clone, Copy, PartialEq, Eq, Structural)]
pub enum ChangeKind {
    Added,
    RenamedToNew,
    RenamedToExisting,
    Deprecated,
    Removed,
}

/// Represents the information of a semantic convention registry manifest.
#[derive(Debug, Default)]
pub struct RegistryManifest {
    /// The version of the registry which will be used to define the semconv package version.
    pub semconv_version: String,
}

/// Represents the different types of changes that can occur between
/// two versions of a schema.
#[derive(Debug)]
pub enum SchemaItemChange {
    /// An item has been added into the most recent version of the schema.
    Added {
        /// The name of the added item.
        name: String,
    },
    /// One or more items have been renamed into a new item.
    RenamedToNew {
        /// The old names of the items that have been renamed (never empty, each name once).
        old_names: Vec<String>,
        /// The new name of the items that have been renamed.
        new_name: String,
    },
    /// One or more items have been renamed into an existing item.
    RenamedToExisting {
        /// The old names of the items that have been renamed (never empty, each name once).
        old_names: Vec<String>,
        /// The current name of the items that have been renamed.
        current_name: String,
    },
    /// An item has been deprecated.
    Deprecated {
        /// The name of the deprecated item.
        name: String,
        /// A deprecation note providing further context.
        note: String,
    },
    /// An item has been removed.
    Removed {
        /// The name of the removed item.
        name: String,
    },
}

impl SchemaItemChange {
    pub open spec fn spec_kind(&self) -> ChangeKind {
        match self {
            SchemaItemChange::Added { .. } => ChangeKind::Added,
            SchemaItemChange::RenamedToNew { .. } => ChangeKind::RenamedToNew,
            SchemaItemChange::RenamedToExisting { .. } => ChangeKind::RenamedToExisting,
            SchemaItemChange::Deprecated { .. } => ChangeKind::Deprecated,
            SchemaItemChange::Removed { .. } => ChangeKind::Removed,
        }
    }

    /// The kind of this change.
    pub fn kind(&self) -> (r: ChangeKind)
        ensures
            r == self.spec_kind(),
    {
        match self {
            SchemaItemChange::Added { .. } => ChangeKind::Added,
            SchemaItemChange::RenamedToNew { .. } => ChangeKind::RenamedToNew,
            SchemaItemChange::RenamedToExisting { .. } => ChangeKind::RenamedToExisting,
            SchemaItemChange::Deprecated { .. } => ChangeKind::Deprecated,
            SchemaItemChange::Removed { .. } => ChangeKind::Removed,
        }
    }
}

/// Number of changes of kind `k` in `s`.
pub open spec fn count_kind(s: Seq<SchemaItemChange>, k: ChangeKind) -> nat
    decreases s.len(),
{
    if s.len() == 0 {
        0
    } else {
        count_kind(s.drop_last(), k) + if s.last().spec_kind() == k {
            1nat
        } else {
            0nat
        }
    }
}

/// Label of a change kind in the statistics report.
pub open spec fn kind_label(k: ChangeKind) -> Seq<char> {
    match k {
        ChangeKind::Added => "  Added: "@,
        ChangeKind::RenamedToNew => "  Renamed to new: "@,
        ChangeKind::RenamedToExisting => "  Renamed to existing: "@,
        ChangeKind::Deprecated => "  Deprecated: "@,
        ChangeKind::Removed => "  Removed: "@,
    }
}

/// Title of an item type in the statistics report.
pub open spec fn type_title(t: SchemaItemType) -> Seq<char> {
    match t {
        SchemaItemType::Attributes => "Attributes"@,
        SchemaItemType::Metrics => "Metrics"@,
        SchemaItemType::Events => "Events"@,
        SchemaItemType::Spans => "Spans"@,
        SchemaItemType::Resources => "Resources"@,
    }
}

/// One count line of the statistics report.
pub open spec fn stat_line(s: Seq<SchemaItemChange>, k: ChangeKind) -> Seq<char> {
    kind_label(k) + decimal(count_kind(s, k)) + "\n"@
}

/// The report section of one item type: its title, then one line per change kind.
pub open spec fn stats_section(t: SchemaItemType, s: Seq<SchemaItemChange>) -> Seq<char> {
    type_title(t) + ":\n"@
        + stat_line(s, ChangeKind::Added)
        + stat_line(s, ChangeKind::RenamedToNew)
        + stat_line(s, ChangeKind::RenamedToExisting)
        + stat_line(s, ChangeKind::Deprecated)
        + stat_line(s, ChangeKind::Removed)
}

/// A summary of schema changes between two versions of a schema.
///
/// Every schema item type has its own list of changes, so no type can be missing.
#[derive(Debug)]
pub struct SchemaChanges {
    /// Information on the registry manifest for the most recent version of the schema.
    head: RegistryManifest,
    /// Information of the registry manifest for the baseline version of the schema.
    baseline: RegistryManifest,
    attributes: Vec<SchemaItemChange>,
    metrics: Vec<SchemaItemChange>,
    events: Vec<SchemaItemChange>,
    spans: Vec<SchemaItemChange>,
    resources: Vec<SchemaItemChange>,
}

/// The five schema item types.
pub open spec fn all_item_types() -> Set<SchemaItemType> {
    set![
        SchemaItemType::Attributes,
        SchemaItemType::Metrics,
        SchemaItemType::Events,
        SchemaItemType::Spans,
        SchemaItemType::Resources,
    ]
}

impl SchemaChanges {
    /// The changes recorded for item type `t`, in discovery order.
    pub closed spec fn changes_of(&self, t: SchemaItemType) -> Seq<SchemaItemChange> {
        match t {
            SchemaItemType::Attributes => self.attributes@,
            SchemaItemType::Metrics => self.metrics@,
            SchemaItemType::Events => self.events@,
            SchemaItemType::Spans => self.spans@,
            SchemaItemType::Resources => self.resources@,
        }
    }

    /// The changes as a mapping from item type to its list.
    pub open spec fn change_map(&self) -> Map<SchemaItemType, Seq<SchemaItemChange>> {
        Map::new(|t: SchemaItemType| true, |t: SchemaItemType| self.changes_of(t))
    }

    pub closed spec fn head_version(&self) -> Seq<char> {
        self.head.semconv_version@
    }

    pub closed spec fn baseline_version(&self) -> Seq<char> {
        self.baseline.semconv_version@
    }

    /// The full statistics report.
    pub open spec fn stats_text(&self) -> Seq<char> {
        "Schema Changes:\n"@
            + stats_section(SchemaItemType::Attributes, self.changes_of(SchemaItemType::Attributes))
            + stats_section(SchemaItemType::Metrics, self.changes_of(SchemaItemType::Metrics))
            + stats_section(SchemaItemType::Events, self.changes_of(SchemaItemType::Events))
            + stats_section(SchemaItemType::Spans, self.changes_of(SchemaItemType::Spans))
            + stats_section(SchemaItemType::Resources, self.changes_of(SchemaItemType::Resources))
    }

    /// Create a new instance of `SchemaChanges`, with an empty list for every item type.
    pub fn new() -> (r: Self)
        ensures
            forall|t: SchemaItemType| r.changes_of(t).len() == 0,
            r.head_version().len() == 0,
            r.baseline_version().len() == 0,
    {
        SchemaChanges {
            head: RegistryManifest { semconv_version: String::new() },
            baseline: RegistryManifest { semconv_version: String::new() },
            attributes: Vec::new(),
            metrics: Vec::new(),
            events: Vec::new(),
            spans: Vec::new(),
            resources: Vec::new(),
        }
    }

    /// Add a change to the list of changes for the specified schema item type.
    pub fn add_change(&mut self, item_type: SchemaItemType, change: SchemaItemChange)
        ensures
            final(self).changes_of(item_type) == old(self).changes_of(item_type).push(change),
            forall|t: SchemaItemType|
                t != item_type ==> final(self).changes_of(t) == old(self).changes_of(t),
            final(self).head_version() == old(self).head_version(),
            final(self).baseline_version() == old(self).baseline_version(),
    {
        match item_type {
            SchemaItemType::Attributes => self.attributes.push(change),
            SchemaItemType::Metrics => self.metrics.push(change),
            SchemaItemType::Events => self.events.push(change),
            SchemaItemType::Spans => self.spans.push(change),
            SchemaItemType::Resources => self.resources.push(change),
        }
    }

    /// Set the head manifest for the schema changes.
    pub fn set_head_manifest(&mut self, head: RegistryManifest)
        ensures
            final(self).head_version() == head.semconv_version@,
            final(self).baseline_version() == old(self).baseline_version(),
            forall|t: SchemaItemType| final(self).changes_of(t) == old(self).changes_of(t),
    {
        self.head = head;
    }

    /// Set the baseline manifest for the schema changes.
    pub fn set_baseline_manifest(&mut self, baseline: RegistryManifest)
        ensures
            final(self).baseline_version() == baseline.semconv_version@,
            final(self).head_version() == old(self).head_version(),
            forall|t: SchemaItemType| final(self).changes_of(t) == old(self).changes_of(t),
    {
        self.baseline = baseline;
    }

    /// A summary made of two manifests and one list of changes per item type.
    pub fn from_parts(
        head: RegistryManifest,
        baseline: RegistryManifest,
        attributes: Vec<SchemaItemChange>,
        metrics: Vec<SchemaItemChange>,
        events: Vec<SchemaItemChange>,
        spans: Vec<SchemaItemChange>,
        resources: Vec<SchemaItemChange>,
    ) -> (r: Self)
        ensures
            r.head_version() == head.semconv_version@,
            r.baseline_version() == baseline.semconv_version@,
            r.changes_of(SchemaItemType::Attributes) == attributes@,
            r.changes_of(SchemaItemType::Metrics) == metrics@,
            r.changes_of(SchemaItemType::Events) == events@,
            r.changes_of(SchemaItemType::Spans) == spans@,
            r.changes_of(SchemaItemType::Resources) == resources@,
    {
        SchemaChanges { head, baseline, attributes, metrics, events, spans, resources }
    }

    /// The changes recorded for one item type.
    pub fn changes(&self, item_type: SchemaItemType) -> (r: &Vec<SchemaItemChange>)
        ensures
            r@ == self.changes_of(item_type),
    {
        match item_type {
            SchemaItemType::Attributes => &self.attributes,
            SchemaItemType::Metrics => &self.metrics,
            SchemaItemType::Events => &self.events,
            SchemaItemType::Spans => &self.spans,
            SchemaItemType::Resources => &self.resources,
        }
    }

    /// The manifest of the head snapshot.
    pub fn head(&self) -> (r: &RegistryManifest)
        ensures
            r.semconv_version@ == self.head_version(),
    {
        &self.head
    }

    /// The manifest of the baseline snapshot.
    pub fn baseline(&self) -> (r: &RegistryManifest)
        ensures
            r.semconv_version@ == self.baseline_version(),
    {
        &self.baseline
    }

    /// Return a string representation of the statistics on the schema changes.
    pub fn dump_stats(&self) -> (r: String)
        ensures
            r@ == self.stats_text(),
    {
        let mut result = String::from_str("Schema Changes:\n");
        append_section(&mut result, SchemaItemType::Attributes, "Attributes", &self.attributes);
        append_section(&mut result, SchemaItemType::Metrics, "Metrics", &self.metrics);
        append_section(&mut result, SchemaItemType::Events, "Events", &self.events);
        append_section(&mut result, SchemaItemType::Spans, "Spans", &self.spans);
        append_section(&mut result, SchemaItemType::Resources, "Resources", &self.resources);
        result
    }
}

/// Number of changes of kind `k` in `changes`.
pub fn count_changes(changes: &Vec<SchemaItemChange>, k: ChangeKind) -> (r: usize)
    ensures
        r == count_kind(changes@, k),
{
    let mut n: usize = 0;
    let mut i: usize = 0;
    while i < changes.len()
        invariant
            i <= changes@.len(),
            n == count_kind(changes@.take(i as int), k),
            n <= i,
        decreases changes@.len() - i,
    {
        assert(changes@.take(i + 1).drop_last() =~= changes@.take(i as int));
        if changes[i].kind() == k {
            n = n + 1;
        }
        i = i + 1;
    }
    assert(changes@.take(i as int) =~= changes@);
    n
}

fn append_stat_line(
    result: &mut String,
    changes: &Vec<SchemaItemChange>,
    k: ChangeKind,
    label: &str,
)
    requires
        label@ == kind_label(k),
    ensures
        final(result)@ == old(result)@ + stat_line(changes@, k),
{
    let n = count_changes(changes, k);
    result.append(label);
    let digits = decimal_string(n);
    result.append(digits.as_str());
    result.append("\n");
}

fn append_section(
    result: &mut String,
    t: SchemaItemType,
    title: &str,
    changes: &Vec<SchemaItemChange>,
)
    requires
        title@ == type_title(t),
    ensures
        final(result)@ == old(result)@ + stats_section(t, changes@),
{
    let ghost start = result@;
    result.append(title);
    result.append(":\n");
    append_stat_line(result, changes, ChangeKind::Added, "  Added: ");
    append_stat_line(result, changes, ChangeKind::RenamedToNew, "  Renamed to new: ");
    append_stat_line(result, changes, ChangeKind::RenamedToExisting, "  Renamed to existing: ");
    append_stat_line(result, changes, ChangeKind::Deprecated, "  Deprecated: ");
    append_stat_line(result, changes, ChangeKind::Removed, "  Removed: ");
    assert(result@ =~= start + stats_section(t, changes@));
}

/// Every summary holds a list for each of the five item types, and for no other key.
pub proof fn law_every_item_type_present(s: SchemaChanges)
    ensures
        s.change_map().dom() == all_item_types(),
{
    assert forall|t: SchemaItemType| #[trigger] all_item_types().contains(t) by {
        match t {
            SchemaItemType::Attributes => {},
            SchemaItemType::Metrics => {},
            SchemaItemType::Events => {},
            SchemaItemType::Spans => {},
            SchemaItemType::Resources => {},
        }
    }
    assert(s.change_map().dom() =~= all_item_types());
}

} // verus!
