//! Classification of the differences between two resolved snapshots of a registry.

use vstd::prelude::*;
use vstd::string::*;
use crate::schema_changes::{RegistryManifest, SchemaChanges, SchemaItemChange, SchemaItemType};

verus! {

/// One item of a resolved snapshot, as the diff sees it.
#[derive(Debug)]
pub struct SchemaItem {
    /// The category of the item.
    pub item_type: SchemaItemType,
    /// The identifier of the item.
    pub name: String,
    /// The deprecation note of the item, if it is deprecated.
    pub deprecated: Option<String>,
}

/// A rename hint: the old identifier and the identifier that replaces it.
#[derive(Debug)]
pub struct RenameHint {
    pub old_name: String,
    pub new_name: String,
}

/// The deprecation note of an item; empty when it is not deprecated.
pub open spec fn note_of(o: Option<String>) -> Seq<char> {
    match o {
        Some(n) => n@,
        None => Seq::empty(),
    }
}

/// `items` holds an item of type `t` named `name`.
pub open spec fn has_item(items: Seq<SchemaItem>, t: SchemaItemType, name: Seq<char>) -> bool {
    exists|i: int| 0 <= i < items.len() && (#[trigger] items[i]).item_type == t && items[i].name@ == name
}

/// `items` holds an item of type `t` named `name` with a non-empty deprecation note.
pub open spec fn is_deprecated(items: Seq<SchemaItem>, t: SchemaItemType, name: Seq<char>) -> bool {
    exists|i: int|
        0 <= i < items.len() && (#[trigger] items[i]).item_type == t && items[i].name@ == name
            && note_of(items[i].deprecated).len() > 0
}

/// A hint renames `old` into `new`.
pub open spec fn renames(hints: Seq<RenameHint>, old: Seq<char>, new: Seq<char>) -> bool {
    exists|i: int| 0 <= i < hints.len() && (#[trigger] hints[i]).old_name@ == old && hints[i].new_name@ == new
}

/// Some hint renames `old`.
pub open spec fn is_rename_source(hints: Seq<RenameHint>, old: Seq<char>) -> bool {
    exists|i: int| 0 <= i < hints.len() && (#[trigger] hints[i]).old_name@ == old
}

/// Some hint renames into `new`.
pub open spec fn is_rename_target(hints: Seq<RenameHint>, new: Seq<char>) -> bool {
    exists|i: int| 0 <= i < hints.len() && (#[trigger] hints[i]).new_name@ == new
}

/// The two snapshots and the rename hints that a diff compares.
pub struct DiffInput<'a> {
    pub baseline: &'a Vec<SchemaItem>,
    pub head: &'a Vec<SchemaItem>,
    pub hints: &'a Vec<RenameHint>,
}

/// In the baseline only.
pub open spec fn baseline_only(d: DiffInput, t: SchemaItemType, name: Seq<char>) -> bool {
    has_item(d.baseline@, t, name) && !has_item(d.head@, t, name)
}

/// No name occurs twice in `names`.
pub open spec fn names_distinct(names: Seq<String>) -> bool {
    forall|i: int, j: int| 0 <= i < j < names.len() ==> (#[trigger] names[i])@ != (#[trigger] names[j])@
}

/// `olds` names exactly the baseline-only items of type `t` that a hint renames into
/// `new`, each once.
pub open spec fn rename_group(d: DiffInput, t: SchemaItemType, olds: Seq<String>, new: Seq<char>) -> bool {
    &&& olds.len() > 0
    &&& names_distinct(olds)
    &&& forall|k: int| 0 <= k < olds.len() ==> baseline_only(d, t, (#[trigger] olds[k])@) && renames(d.hints@, olds[k]@, new)
    &&& forall|i: int| 0 <= i < d.baseline@.len() && (#[trigger] d.baseline@[i]).item_type == t
        && baseline_only(d, t, d.baseline@[i].name@) && renames(d.hints@, d.baseline@[i].name@, new)
        ==> exists|k: int| 0 <= k < olds.len() && (#[trigger] olds[k])@ == d.baseline@[i].name@
}

/// What a recorded change of type `t` asserts about the two snapshots.
pub open spec fn change_holds(d: DiffInput, t: SchemaItemType, c: SchemaItemChange) -> bool {
    match c {
        SchemaItemChange::Added { name } => has_item(d.head@, t, name@) && !has_item(d.baseline@, t, name@)
            && !is_rename_target(d.hints@, name@),
        SchemaItemChange::Removed { name } => baseline_only(d, t, name@) && !is_rename_source(d.hints@, name@),
        SchemaItemChange::Deprecated { name, note } => has_item(d.baseline@, t, name@)
            && !is_deprecated(d.baseline@, t, name@) && note@.len() > 0 && exists|i: int|
            0 <= i < d.head@.len() && (#[trigger] d.head@[i]).item_type == t && d.head@[i].name@ == name@
                && note_of(d.head@[i].deprecated) == note@,
        SchemaItemChange::RenamedToNew { old_names, new_name } => rename_group(d, t, old_names@, new_name@)
            && !has_item(d.baseline@, t, new_name@),
        SchemaItemChange::RenamedToExisting { old_names, current_name } => rename_group(d, t, old_names@, current_name@)
            && has_item(d.baseline@, t, current_name@),
    }
}

pub open spec fn is_added(c: SchemaItemChange, name: Seq<char>) -> bool {
    c matches SchemaItemChange::Added { name: n } && n@ == name
}

pub open spec fn is_removed(c: SchemaItemChange, name: Seq<char>) -> bool {
    c matches SchemaItemChange::Removed { name: n } && n@ == name
}

pub open spec fn is_deprecated_record(c: SchemaItemChange, name: Seq<char>) -> bool {
    c matches SchemaItemChange::Deprecated { name: n, .. } && n@ == name
}

/// The name a rename record renames into.
pub open spec fn rename_target(c: SchemaItemChange) -> Seq<char> {
    match c {
        SchemaItemChange::RenamedToNew { new_name, .. } => new_name@,
        SchemaItemChange::RenamedToExisting { current_name, .. } => current_name@,
        _ => Seq::empty(),
    }
}

/// `c` records a rename of `old` into `new`.
pub open spec fn is_rename_of(c: SchemaItemChange, old: Seq<char>, new: Seq<char>) -> bool {
    match c {
        SchemaItemChange::RenamedToNew { old_names, new_name } => new_name@ == new
            && exists|k: int| 0 <= k < old_names@.len() && (#[trigger] old_names@[k])@ == old,
        SchemaItemChange::RenamedToExisting { old_names, current_name } => current_name@ == new
            && exists|k: int| 0 <= k < old_names@.len() && (#[trigger] old_names@[k])@ == old,
        _ => false,
    }
}

/// Every head item among the first `n` whose change is an addition or a deprecation is
/// recorded in `out`.
pub open spec fn head_complete(d: DiffInput, t: SchemaItemType, out: Seq<SchemaItemChange>, n: int) -> bool {
    forall|i: int| 0 <= i < n && (#[trigger] d.head@[i]).item_type == t ==> {
        &&& (!has_item(d.baseline@, t, d.head@[i].name@) && !is_rename_target(d.hints@, d.head@[i].name@))
            ==> exists|k: int| 0 <= k < out.len() && is_added(#[trigger] out[k], d.head@[i].name@)
        &&& (has_item(d.baseline@, t, d.head@[i].name@) && !is_deprecated(d.baseline@, t, d.head@[i].name@)
            && note_of(d.head@[i].deprecated).len() > 0)
            ==> exists|k: int| 0 <= k < out.len() && is_deprecated_record(#[trigger] out[k], d.head@[i].name@)
    }
}

/// Every baseline-only item among the first `n` is recorded in `out`, as a removal or
/// as a rename.
pub open spec fn base_complete(d: DiffInput, t: SchemaItemType, out: Seq<SchemaItemChange>, n: int) -> bool {
    forall|i: int| 0 <= i < n && (#[trigger] d.baseline@[i]).item_type == t && baseline_only(d, t, d.baseline@[i].name@) ==> {
        &&& !is_rename_source(d.hints@, d.baseline@[i].name@)
            ==> exists|k: int| 0 <= k < out.len() && is_removed(#[trigger] out[k], d.baseline@[i].name@)
        &&& is_rename_source(d.hints@, d.baseline@[i].name@)
            ==> exists|k: int| 0 <= k < out.len() && renames(d.hints@, d.baseline@[i].name@, rename_target(#[trigger] out[k]))
                && is_rename_of(out[k], d.baseline@[i].name@, rename_target(out[k]))
    }
}

/// Every item of type `t` that changed is recorded in `out`.
pub open spec fn changes_complete(d: DiffInput, t: SchemaItemType, out: Seq<SchemaItemChange>) -> bool {
    head_complete(d, t, out, d.head@.len() as int) && base_complete(d, t, out, d.baseline@.len() as int)
}

/// What a record is about: its kind (the two rename kinds together) and the name it
/// concerns (for a rename, the new name).
pub open spec fn record_key(c: SchemaItemChange) -> (nat, Seq<char>) {
    match c {
        SchemaItemChange::Added { name } => (0, name@),
        SchemaItemChange::Deprecated { name, .. } => (1, name@),
        SchemaItemChange::Removed { name } => (2, name@),
        SchemaItemChange::RenamedToNew { new_name, .. } => (3, new_name@),
        SchemaItemChange::RenamedToExisting { current_name, .. } => (3, current_name@),
    }
}

/// No two records of `out` are about the same thing: at most one addition, deprecation
/// or removal per name, and one rename record per new name.
pub open spec fn distinct_keys(out: Seq<SchemaItemChange>) -> bool {
    forall|i: int, j: int| 0 <= i < j < out.len() ==> record_key(#[trigger] out[i]) != record_key(#[trigger] out[j])
}

/// `out` is a classification of the items of type `t`: each change it records holds,
/// every change is recorded, and none twice.
pub open spec fn classifies(d: DiffInput, t: SchemaItemType, out: Seq<SchemaItemChange>) -> bool {
    &&& forall|k: int| 0 <= k < out.len() ==> change_holds(d, t, #[trigger] out[k])
    &&& changes_complete(d, t, out)
    &&& distinct_keys(out)
}

proof fn lemma_push_distinct(out: Seq<SchemaItemChange>, c: SchemaItemChange)
    requires
        distinct_keys(out),
        forall|k: int| 0 <= k < out.len() ==> record_key(#[trigger] out[k]) != record_key(c),
    ensures
        distinct_keys(out.push(c)),
{
    let o2 = out.push(c);
    assert forall|i: int, j: int| 0 <= i < j < o2.len() implies record_key(#[trigger] o2[i]) != record_key(#[trigger] o2[j]) by {
        assert(o2[i] == out[i]);
        if j < out.len() {
            assert(o2[j] == out[j]);
        }
    }
}

proof fn lemma_push_keeps(d: DiffInput, t: SchemaItemType, out: Seq<SchemaItemChange>, c: SchemaItemChange, n: int, m: int)
    requires
        head_complete(d, t, out, n),
        base_complete(d, t, out, m),
    ensures
        head_complete(d, t, out.push(c), n),
        base_complete(d, t, out.push(c), m),
{
    let o2 = out.push(c);
    assert forall|i: int| 0 <= i < n && (#[trigger] d.head@[i]).item_type == t implies {
        &&& (!has_item(d.baseline@, t, d.head@[i].name@) && !is_rename_target(d.hints@, d.head@[i].name@))
            ==> exists|k: int| 0 <= k < o2.len() && is_added(#[trigger] o2[k], d.head@[i].name@)
        &&& (has_item(d.baseline@, t, d.head@[i].name@) && !is_deprecated(d.baseline@, t, d.head@[i].name@)
            && note_of(d.head@[i].deprecated).len() > 0)
            ==> exists|k: int| 0 <= k < o2.len() && is_deprecated_record(#[trigger] o2[k], d.head@[i].name@)
    } by {
        if !has_item(d.baseline@, t, d.head@[i].name@) && !is_rename_target(d.hints@, d.head@[i].name@) {
            let k = choose|k: int| 0 <= k < out.len() && is_added(#[trigger] out[k], d.head@[i].name@);
            assert(o2[k] == out[k]);
        }
        if has_item(d.baseline@, t, d.head@[i].name@) && !is_deprecated(d.baseline@, t, d.head@[i].name@)
            && note_of(d.head@[i].deprecated).len() > 0 {
            let k = choose|k: int| 0 <= k < out.len() && is_deprecated_record(#[trigger] out[k], d.head@[i].name@);
            assert(o2[k] == out[k]);
        }
    }
    assert forall|i: int| 0 <= i < m && (#[trigger] d.baseline@[i]).item_type == t && baseline_only(d, t, d.baseline@[i].name@) implies {
        &&& !is_rename_source(d.hints@, d.baseline@[i].name@)
            ==> exists|k: int| 0 <= k < o2.len() && is_removed(#[trigger] o2[k], d.baseline@[i].name@)
        &&& is_rename_source(d.hints@, d.baseline@[i].name@)
            ==> exists|k: int| 0 <= k < o2.len() && renames(d.hints@, d.baseline@[i].name@, rename_target(#[trigger] o2[k]))
                && is_rename_of(o2[k], d.baseline@[i].name@, rename_target(o2[k]))
    } by {
        if !is_rename_source(d.hints@, d.baseline@[i].name@) {
            let k = choose|k: int| 0 <= k < out.len() && is_removed(#[trigger] out[k], d.baseline@[i].name@);
            assert(o2[k] == out[k]);
        } else {
            let k = choose|k: int| 0 <= k < out.len() && renames(d.hints@, d.baseline@[i].name@, rename_target(#[trigger] out[k]))
                && is_rename_of(out[k], d.baseline@[i].name@, rename_target(out[k]));
            assert(o2[k] == out[k]);
        }
    }
}

fn find_item(items: &Vec<SchemaItem>, t: SchemaItemType, name: &String) -> (r: bool)
    ensures
        r == has_item(items@, t, name@),
{
    let mut i: usize = 0;
    while i < items.len()
        invariant
            i <= items@.len(),
            forall|j: int| 0 <= j < i ==> !((#[trigger] items@[j]).item_type == t && items@[j].name@ == name@),
        decreases items@.len() - i,
    {
        if items[i].item_type == t && items[i].name.eq(name) {
            assert(items@[i as int].item_type == t && items@[i as int].name@ == name@);
            return true;
        }
        i = i + 1;
    }
    false
}

fn note_len_positive(o: &Option<String>) -> (r: bool)
    ensures
        r == (note_of(*o).len() > 0),
{
    match o {
        Some(n) => !n.as_str().is_empty(),
        None => false,
    }
}

fn find_deprecated(items: &Vec<SchemaItem>, t: SchemaItemType, name: &String) -> (r: bool)
    ensures
        r == is_deprecated(items@, t, name@),
{
    let mut i: usize = 0;
    while i < items.len()
        invariant
            i <= items@.len(),
            forall|j: int| 0 <= j < i ==> !((#[trigger] items@[j]).item_type == t && items@[j].name@ == name@
                && note_of(items@[j].deprecated).len() > 0),
        decreases items@.len() - i,
    {
        if items[i].item_type == t && items[i].name.eq(name) && note_len_positive(&items[i].deprecated) {
            assert(items@[i as int].item_type == t && items@[i as int].name@ == name@);
            return true;
        }
        i = i + 1;
    }
    false
}

fn hint_for(hints: &Vec<RenameHint>, old: &String) -> (r: Option<usize>)
    ensures
        r matches Some(k) ==> k < hints@.len() && hints@[k as int].old_name@ == old@,
        r is None ==> !is_rename_source(hints@, old@),
{
    let mut i: usize = 0;
    while i < hints.len()
        invariant
            i <= hints@.len(),
            forall|j: int| 0 <= j < i ==> (#[trigger] hints@[j]).old_name@ != old@,
        decreases hints@.len() - i,
    {
        if hints[i].old_name.eq(old) {
            return Some(i);
        }
        i = i + 1;
    }
    None
}

fn is_target(hints: &Vec<RenameHint>, new: &String) -> (r: bool)
    ensures
        r == is_rename_target(hints@, new@),
{
    let mut i: usize = 0;
    while i < hints.len()
        invariant
            i <= hints@.len(),
            forall|j: int| 0 <= j < i ==> (#[trigger] hints@[j]).new_name@ != new@,
        decreases hints@.len() - i,
    {
        if hints[i].new_name.eq(new) {
            assert(hints@[i as int].new_name@ == new@);
            return true;
        }
        i = i + 1;
    }
    false
}

fn hint_renames(hints: &Vec<RenameHint>, old: &String, new: &String) -> (r: bool)
    ensures
        r == renames(hints@, old@, new@),
{
    let mut i: usize = 0;
    while i < hints.len()
        invariant
            i <= hints@.len(),
            forall|j: int| 0 <= j < i ==> !((#[trigger] hints@[j]).old_name@ == old@ && hints@[j].new_name@ == new@),
        decreases hints@.len() - i,
    {
        if hints[i].old_name.eq(old) && hints[i].new_name.eq(new) {
            assert(hints@[i as int].old_name@ == old@ && hints@[i as int].new_name@ == new@);
            return true;
        }
        i = i + 1;
    }
    false
}

fn has_key(out: &Vec<SchemaItemChange>, kind: u8, name: &String) -> (r: bool)
    ensures
        r == exists|k: int| 0 <= k < out@.len() && record_key(#[trigger] out@[k]) == (kind as nat, name@),
{
    let mut i: usize = 0;
    while i < out.len()
        invariant
            i <= out@.len(),
            forall|k: int| 0 <= k < i ==> record_key(#[trigger] out@[k]) != (kind as nat, name@),
        decreases out@.len() - i,
    {
        let (k, n) = match &out[i] {
            SchemaItemChange::Added { name } => (0u8, name),
            SchemaItemChange::Deprecated { name, .. } => (1u8, name),
            SchemaItemChange::Removed { name } => (2u8, name),
            SchemaItemChange::RenamedToNew { new_name, .. } => (3u8, new_name),
            SchemaItemChange::RenamedToExisting { current_name, .. } => (3u8, current_name),
        };
        if k == kind && n.eq(name) {
            assert(record_key(out@[i as int]) == (kind as nat, name@));
            return true;
        }
        i = i + 1;
    }
    false
}

fn has_name(names: &Vec<String>, name: &String) -> (r: bool)
    ensures
        r == exists|k: int| 0 <= k < names@.len() && (#[trigger] names@[k])@ == name@,
{
    let mut i: usize = 0;
    while i < names.len()
        invariant
            i <= names@.len(),
            forall|k: int| 0 <= k < i ==> (#[trigger] names@[k])@ != name@,
        decreases names@.len() - i,
    {
        if names[i].eq(name) {
            return true;
        }
        i = i + 1;
    }
    false
}

fn collect_sources(d: &DiffInput, t: SchemaItemType, target: &String, seed: Ghost<int>) -> (r: Vec<String>)
    requires
        0 <= seed@ < d.baseline@.len(),
        d.baseline@[seed@].item_type == t,
        baseline_only(*d, t, d.baseline@[seed@].name@),
        renames(d.hints@, d.baseline@[seed@].name@, target@),
    ensures
        rename_group(*d, t, r@, target@),
{
    let mut olds: Vec<String> = Vec::new();
    let mut i: usize = 0;
    while i < d.baseline.len()
        invariant
            i <= d.baseline@.len(),
            forall|k: int| 0 <= k < olds@.len() ==> baseline_only(*d, t, (#[trigger] olds@[k])@) && renames(d.hints@, olds@[k]@, target@),
            names_distinct(olds@),
            forall|j: int| 0 <= j < i && (#[trigger] d.baseline@[j]).item_type == t
                && baseline_only(*d, t, d.baseline@[j].name@) && renames(d.hints@, d.baseline@[j].name@, target@)
                ==> exists|k: int| 0 <= k < olds@.len() && (#[trigger] olds@[k])@ == d.baseline@[j].name@,
        decreases d.baseline@.len() - i,
    {
        let b = &d.baseline[i];
        if b.item_type == t && !find_item(d.head, t, &b.name) && hint_renames(d.hints, &b.name, target)
            && !has_name(&olds, &b.name) {
            proof {
                assert(has_item(d.baseline@, t, b.name@)) by {
                    assert(d.baseline@[i as int] == *b);
                }
            }
            let ghost before = olds@;
            olds.push(b.name.clone());
            proof {
                assert forall|j: int| 0 <= j < i + 1 && (#[trigger] d.baseline@[j]).item_type == t
                    && baseline_only(*d, t, d.baseline@[j].name@) && renames(d.hints@, d.baseline@[j].name@, target@)
                    implies exists|k: int| 0 <= k < olds@.len() && (#[trigger] olds@[k])@ == d.baseline@[j].name@ by {
                    if j < i {
                        let k = choose|k: int| 0 <= k < before.len() && (#[trigger] before[k])@ == d.baseline@[j].name@;
                        assert(olds@[k] == before[k]);
                    } else {
                        assert(olds@[before.len() as int]@ == d.baseline@[j].name@);
                    }
                }
                assert forall|x: int, y: int| 0 <= x < y < olds@.len() implies (#[trigger] olds@[x])@ != (#[trigger] olds@[y])@ by {
                    assert(olds@[x] == before[x]);
                    if y < before.len() {
                        assert(olds@[y] == before[y]);
                    }
                }
            }
        } else {
            proof {
                if d.baseline@[i as int].item_type == t && baseline_only(*d, t, d.baseline@[i as int].name@)
                    && renames(d.hints@, d.baseline@[i as int].name@, target@) {
                    assert(has_item(d.baseline@, t, b.name@)) by {
                        assert(d.baseline@[i as int] == *b);
                    }
                }
            }
        }
        i = i + 1;
    }
    proof {
        let k = choose|k: int| 0 <= k < olds@.len() && (#[trigger] olds@[k])@ == d.baseline@[seed@].name@;
    }
    olds
}

/// Classifies the items of type `t`: additions and deprecations in head order, then
/// removals and renames in baseline order.
fn diff_type(d: &DiffInput, t: SchemaItemType) -> (r: Vec<SchemaItemChange>)
    ensures
        classifies(*d, t, r@),
{
    let mut out: Vec<SchemaItemChange> = Vec::new();
    let mut i: usize = 0;
    while i < d.head.len()
        invariant
            i <= d.head@.len(),
            forall|k: int| 0 <= k < out@.len() ==> change_holds(*d, t, #[trigger] out@[k]),
            head_complete(*d, t, out@, i as int),
            base_complete(*d, t, out@, 0),
            distinct_keys(out@),
        decreases d.head@.len() - i,
    {
        let h = &d.head[i];
        proof {
            assert(d.head@[i as int] == *h);
        }
        if h.item_type == t {
            assert(has_item(d.head@, t, h.name@));
            if !find_item(d.baseline, t, &h.name) {
                if !is_target(d.hints, &h.name) {
                    if !has_key(&out, 0, &h.name) {
                        let c = SchemaItemChange::Added { name: h.name.clone() };
                        proof {
                            lemma_push_keeps(*d, t, out@, c, i as int, 0);
                            lemma_push_distinct(out@, c);
                        }
                        out.push(c);
                        assert(is_added(out@[out@.len() - 1], h.name@));
                    } else {
                        proof {
                            let k = choose|k: int| 0 <= k < out@.len() && record_key(#[trigger] out@[k]) == (0nat, h.name@);
                            assert(is_added(out@[k], h.name@));
                        }
                    }
                }
            } else {
                match &h.deprecated {
                    Some(note) => {
                        if !note.as_str().is_empty() && !find_deprecated(d.baseline, t, &h.name) {
                            if !has_key(&out, 1, &h.name) {
                                let c = SchemaItemChange::Deprecated { name: h.name.clone(), note: note.clone() };
                                proof {
                                    lemma_push_keeps(*d, t, out@, c, i as int, 0);
                                    lemma_push_distinct(out@, c);
                                }
                                out.push(c);
                                assert(is_deprecated_record(out@[out@.len() - 1], h.name@));
                            } else {
                                proof {
                                    let k = choose|k: int| 0 <= k < out@.len() && record_key(#[trigger] out@[k]) == (1nat, h.name@);
                                    assert(is_deprecated_record(out@[k], h.name@));
                                }
                            }
                        }
                    },
                    None => {},
                }
            }
        }
        i = i + 1;
    }
    let mut j: usize = 0;
    while j < d.baseline.len()
        invariant
            j <= d.baseline@.len(),
            forall|k: int| 0 <= k < out@.len() ==> change_holds(*d, t, #[trigger] out@[k]),
            head_complete(*d, t, out@, d.head@.len() as int),
            base_complete(*d, t, out@, j as int),
            distinct_keys(out@),
        decreases d.baseline@.len() - j,
    {
        let b = &d.baseline[j];
        proof {
            assert(d.baseline@[j as int] == *b);
        }
        if b.item_type == t && !find_item(d.head, t, &b.name) {
            assert(has_item(d.baseline@, t, b.name@));
            match hint_for(d.hints, &b.name) {
                None => {
                    if !has_key(&out, 2, &b.name) {
                        let c = SchemaItemChange::Removed { name: b.name.clone() };
                        proof {
                            lemma_push_keeps(*d, t, out@, c, d.head@.len() as int, j as int);
                            lemma_push_distinct(out@, c);
                        }
                        out.push(c);
                        assert(is_removed(out@[out@.len() - 1], b.name@));
                    } else {
                        proof {
                            let k = choose|k: int| 0 <= k < out@.len() && record_key(#[trigger] out@[k]) == (2nat, b.name@);
                            assert(is_removed(out@[k], b.name@));
                        }
                    }
                },
                Some(h) => {
                    let target = &d.hints[h].new_name;
                    assert(renames(d.hints@, b.name@, target@)) by {
                        assert(d.hints@[h as int].old_name@ == b.name@);
                    }
                    if has_key(&out, 3, target) {
                        proof {
                            let k = choose|k: int| 0 <= k < out@.len() && record_key(#[trigger] out@[k]) == (3nat, target@);
                            let c = out@[k];
                            assert(change_holds(*d, t, c));
                            assert(rename_target(c) == target@);
                            assert(is_rename_of(c, b.name@, target@));
                        }
                    } else {
                        {
                            let olds = collect_sources(d, t, target, Ghost(j as int));
                            let ghost ov = olds@;
                            proof {
                                assert(d.baseline@[j as int].item_type == t);
                                assert(baseline_only(*d, t, d.baseline@[j as int].name@));
                            }
                            let ghost kk = choose|k: int| 0 <= k < ov.len() && (#[trigger] ov[k])@ == d.baseline@[j as int].name@;
                            let c = if find_item(d.baseline, t, target) {
                                SchemaItemChange::RenamedToExisting { old_names: olds, current_name: target.clone() }
                            } else {
                                SchemaItemChange::RenamedToNew { old_names: olds, new_name: target.clone() }
                            };
                            proof {
                                lemma_push_keeps(*d, t, out@, c, d.head@.len() as int, j as int);
                                lemma_push_distinct(out@, c);
                                match &c {
                                    SchemaItemChange::RenamedToNew { old_names, .. } => {
                                        assert(old_names@[kk]@ == b.name@);
                                    },
                                    SchemaItemChange::RenamedToExisting { old_names, .. } => {
                                        assert(old_names@[kk]@ == b.name@);
                                    },
                                    _ => {},
                                }
                                assert(is_rename_of(c, b.name@, target@));
                            }
                            out.push(c);
                            assert(out@[out@.len() - 1] == c);
                        }
                    }
                },
            }
        }
        j = j + 1;
    }
    out
}

/// Computes the changes from a baseline snapshot to a head snapshot.
///
/// For each item type: an item only in the head is added, unless a hint renames into
/// it; an item in both that only the head deprecates (with a non-empty note) is
/// deprecated; an item only in the baseline is removed, unless a hint renames it, in
/// which case it is reported in the rename record of its new name, which gathers every
/// such old name and says whether the new name already existed in the baseline.
pub fn diff(
    baseline: &Vec<SchemaItem>,
    baseline_manifest: RegistryManifest,
    head: &Vec<SchemaItem>,
    head_manifest: RegistryManifest,
    hints: &Vec<RenameHint>,
) -> (r: SchemaChanges)
    ensures
        forall|t: SchemaItemType| #[trigger] classifies(DiffInput { baseline, head, hints }, t, r.changes_of(t)),
        r.head_version() == head_manifest.semconv_version@,
        r.baseline_version() == baseline_manifest.semconv_version@,
{
    let d = DiffInput { baseline, head, hints };
    let a = diff_type(&d, SchemaItemType::Attributes);
    let m = diff_type(&d, SchemaItemType::Metrics);
    let e = diff_type(&d, SchemaItemType::Events);
    let s = diff_type(&d, SchemaItemType::Spans);
    let rs = diff_type(&d, SchemaItemType::Resources);
    let r = SchemaChanges::from_parts(head_manifest, baseline_manifest, a, m, e, s, rs);
    assert forall|t: SchemaItemType| #[trigger] classifies(d, t, r.changes_of(t)) by {
        match t {
            SchemaItemType::Attributes => {},
            SchemaItemType::Metrics => {},
            SchemaItemType::Events => {},
            SchemaItemType::Spans => {},
            SchemaItemType::Resources => {},
        }
    }
    r
}

/// No item is both added and removed by one diff.
pub proof fn law_never_added_and_removed(
    d: DiffInput,
    t: SchemaItemType,
    out: Seq<SchemaItemChange>,
    name: Seq<char>,
    i: int,
    j: int,
)
    requires
        classifies(d, t, out),
        0 <= i < out.len(),
        0 <= j < out.len(),
    ensures
        !(is_added(out[i], name) && is_removed(out[j], name)),
{
    assert(change_holds(d, t, out[i]));
    assert(change_holds(d, t, out[j]));
}

} // verus!
