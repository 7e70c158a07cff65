//! Resolution of a whole dependency graph of registries into one set of groups.

use vstd::prelude::*;
use vstd::string::*;
use crate::group::{field_value, overrides, union_lineage, Group, GroupField, GroupType};
use crate::lineage::{lex_less, registry_less, release_less, str_less, version_same, RegistryInfo};
use crate::merge::{failure_reason, lemma_merge_respects_view, merge, merge_kind, merged_group_ok, same_view, MergeKind, MergeResult};

verus! {

/// The groups that one registry release contributes.
#[derive(Debug)]
pub struct RegistryGroups {
    /// The release.
    pub info: RegistryInfo,
    /// Its groups.
    pub groups: Vec<Group>,
}

/// A group that could not be resolved.
#[derive(Debug)]
pub struct Conflict {
    /// Identifier of the group.
    pub group_id: String,
    /// Type of the group.
    pub group_type: GroupType,
    /// Why its definitions could not be merged.
    pub reason: String,
}

/// The outcome of resolving a set of registries.
#[derive(Debug)]
pub struct Resolution {
    /// One group per resolved identity.
    pub resolved: Vec<Group>,
    /// The identities that could not be resolved, sorted by group identifier.
    pub conflicts: Vec<Conflict>,
}

/// Position `(r, k)` is group `k` of registry `r`.
pub open spec fn valid_pos(regs: Seq<RegistryGroups>, p: (usize, usize)) -> bool {
    p.0 < regs.len() && p.1 < regs[p.0 as int].groups@.len()
}

pub open spec fn group_at(regs: Seq<RegistryGroups>, p: (usize, usize)) -> Group {
    regs[p.0 as int].groups@[p.1 as int]
}

/// Some input group has identifier `id` and type `t`.
pub open spec fn input_has(regs: Seq<RegistryGroups>, id: Seq<char>, t: GroupType) -> bool {
    exists|p: (usize, usize)| valid_pos(regs, p) && (#[trigger] group_at(regs, p)).id@ == id && group_at(regs, p).group_type == t
}

/// The release of the registry that contributed position `p`.
pub open spec fn release_at(regs: Seq<RegistryGroups>, p: (usize, usize)) -> RegistryInfo {
    regs[p.0 as int].info
}

/// `b` lists every position of a group with identifier `id` and type `t`, each once, in
/// release order (version, then registry name).
pub open spec fn is_bucket(regs: Seq<RegistryGroups>, id: Seq<char>, t: GroupType, b: Seq<(usize, usize)>) -> bool {
    &&& forall|i: int| 0 <= i < b.len() ==> valid_pos(regs, #[trigger] b[i]) && group_at(regs, b[i]).id@ == id
        && group_at(regs, b[i]).group_type == t
    &&& forall|p: (usize, usize)| valid_pos(regs, p) && (#[trigger] group_at(regs, p)).id@ == id && group_at(regs, p).group_type == t
        ==> b.contains(p)
    &&& b.no_duplicates()
    &&& release_sorted(regs, b)
}

/// No position of `b` comes from a release that orders before an earlier one's.
pub open spec fn release_sorted(regs: Seq<RegistryGroups>, b: Seq<(usize, usize)>) -> bool {
    forall|i: int, j: int| 0 <= i < j < b.len() ==> !release_less(release_at(regs, #[trigger] b[j]), release_at(regs, #[trigger] b[i]))
}

/// `accs` are the successive results of folding `merge` over the first `accs.len()`
/// groups of bucket `b`: the first group itself, then one merge per step, none of them
/// failing.
pub open spec fn fold_trace(regs: Seq<RegistryGroups>, b: Seq<(usize, usize)>, accs: Seq<Group>) -> bool {
    &&& 1 <= accs.len() <= b.len()
    &&& same_view(accs[0], group_at(regs, b[0]))
    &&& forall|k: int| 0 <= k < accs.len() - 1 ==> merged_group_ok(#[trigger] accs[k], group_at(regs, b[k + 1]), accs[k + 1])
}

/// `g` is the complete fold of its bucket `b`.
pub open spec fn resolved_trace(regs: Seq<RegistryGroups>, g: Group, b: Seq<(usize, usize)>, accs: Seq<Group>) -> bool {
    &&& is_bucket(regs, g.id@, g.group_type, b)
    &&& fold_trace(regs, b, accs)
    &&& accs.len() == b.len()
    &&& same_view(g, accs.last())
}

/// The fold of bucket `b` stops at a step that is not mergeable, for the reason of `c`.
pub open spec fn conflict_trace(regs: Seq<RegistryGroups>, c: Conflict, b: Seq<(usize, usize)>, accs: Seq<Group>) -> bool {
    &&& is_bucket(regs, c.group_id@, c.group_type, b)
    &&& fold_trace(regs, b, accs)
    &&& accs.len() < b.len()
    &&& merge_kind(accs.last(), group_at(regs, b[accs.len() as int])) == MergeKind::NotMergeable
    &&& c.reason@ == failure_reason(accs.last(), group_at(regs, b[accs.len() as int]))
}

/// A resolved group is the complete fold of its bucket.
pub open spec fn resolved_ok(regs: Seq<RegistryGroups>, g: Group) -> bool {
    exists|b: Seq<(usize, usize)>, accs: Seq<Group>| #[trigger] resolved_trace(regs, g, b, accs)
}

/// A conflict names an input identity whose fold meets a step that is not mergeable.
pub open spec fn conflict_ok(regs: Seq<RegistryGroups>, c: Conflict) -> bool {
    &&& input_has(regs, c.group_id@, c.group_type)
    &&& exists|b: Seq<(usize, usize)>, accs: Seq<Group>| #[trigger] conflict_trace(regs, c, b, accs)
}

/// The output covers identifier `id` with type `t`, as a group or as a conflict.
pub open spec fn covers(res: Resolution, id: Seq<char>, t: GroupType) -> bool {
    (exists|i: int| 0 <= i < res.resolved@.len() && (#[trigger] res.resolved@[i]).id@ == id && res.resolved@[i].group_type == t)
    || (exists|i: int| 0 <= i < res.conflicts@.len() && (#[trigger] res.conflicts@[i]).group_id@ == id && res.conflicts@[i].group_type == t)
}

/// Conflicts sorted by group identifier.
pub open spec fn conflicts_sorted(c: Seq<Conflict>) -> bool {
    forall|i: int, j: int| 0 <= i < j < c.len() ==> !lex_less((#[trigger] c[j]).group_id@, (#[trigger] c[i]).group_id@)
}

/// What a resolution of `regs` guarantees: each resolved group is the complete,
/// release-ordered fold of its bucket; each conflict is a bucket whose fold meets a step
/// that is not mergeable, with that step's reason; every input identity is one or the
/// other, never both and never twice; conflicts are sorted by group identifier.
pub open spec fn resolves(regs: Seq<RegistryGroups>, res: Resolution) -> bool {
    &&& forall|i: int| 0 <= i < res.resolved@.len() ==> resolved_ok(regs, #[trigger] res.resolved@[i])
    &&& forall|i: int| 0 <= i < res.conflicts@.len() ==> conflict_ok(regs, #[trigger] res.conflicts@[i])
    &&& forall|p: (usize, usize)| valid_pos(regs, p) ==> covers(res, (#[trigger] group_at(regs, p)).id@, group_at(regs, p).group_type)
    &&& forall|i: int, j: int| 0 <= i < j < res.resolved@.len() ==> !((#[trigger] res.resolved@[i]).id@ == (#[trigger] res.resolved@[j]).id@
        && res.resolved@[i].group_type == res.resolved@[j].group_type)
    &&& forall|i: int| 0 <= i < res.resolved@.len() ==> forall|j: int| 0 <= j < res.conflicts@.len() ==>
        !((#[trigger] res.resolved@[i]).id@ == (#[trigger] res.conflicts@[j]).group_id@ && res.resolved@[i].group_type == res.conflicts@[j].group_type)
    &&& conflicts_sorted(res.conflicts@)
}

proof fn lemma_lex_asym(a: Seq<char>, b: Seq<char>)
    ensures
        lex_less(a, b) ==> !lex_less(b, a),
    decreases a.len(),
{
    if a.len() > 0 && b.len() > 0 && a[0] == b[0] {
        lemma_lex_asym(a.drop_first(), b.drop_first());
    }
}

proof fn lemma_lex_trans(a: Seq<char>, b: Seq<char>, c: Seq<char>)
    requires
        lex_less(a, b),
        lex_less(b, c),
    ensures
        lex_less(a, c),
    decreases a.len(),
{
    if a.len() > 0 && a[0] == b[0] && b[0] == c[0] {
        lemma_lex_trans(a.drop_first(), b.drop_first(), c.drop_first());
    }
}

fn is_covered(resolved: &Vec<Group>, conflicts: &Vec<Conflict>, id: &String, t: GroupType) -> (r: bool)
    ensures
        r == covers(Resolution { resolved: *resolved, conflicts: *conflicts }, id@, t),
{
    let mut i: usize = 0;
    while i < resolved.len()
        invariant
            i <= resolved@.len(),
            forall|j: int| 0 <= j < i ==> !((#[trigger] resolved@[j]).id@ == id@ && resolved@[j].group_type == t),
        decreases resolved@.len() - i,
    {
        if resolved[i].id.eq(id) && resolved[i].group_type == t {
            assert(resolved@[i as int].id@ == id@);
            return true;
        }
        i = i + 1;
    }
    let mut k: usize = 0;
    while k < conflicts.len()
        invariant
            k <= conflicts@.len(),
            forall|j: int| 0 <= j < resolved@.len() ==> !((#[trigger] resolved@[j]).id@ == id@ && resolved@[j].group_type == t),
            forall|j: int| 0 <= j < k ==> !((#[trigger] conflicts@[j]).group_id@ == id@ && conflicts@[j].group_type == t),
        decreases conflicts@.len() - k,
    {
        if conflicts[k].group_id.eq(id) && conflicts[k].group_type == t {
            assert(conflicts@[k as int].group_id@ == id@);
            return true;
        }
        k = k + 1;
    }
    false
}

proof fn lemma_release_asym(a: RegistryInfo, b: RegistryInfo)
    ensures
        release_less(a, b) ==> !release_less(b, a),
{
    lemma_lex_asym(a.name@, b.name@);
}

proof fn lemma_release_trans(a: RegistryInfo, b: RegistryInfo, c: RegistryInfo)
    requires
        release_less(a, b),
        release_less(b, c),
    ensures
        release_less(a, c),
{
    if version_same(a.version@, b.version@) && version_same(b.version@, c.version@) {
        lemma_lex_trans(a.name@, b.name@, c.name@);
    }
}

proof fn lemma_insert_seq<T>(old: Seq<T>, pos: int, x: T)
    requires
        0 <= pos <= old.len(),
    ensures
        forall|i: int| 0 <= i < old.insert(pos, x).len() ==> #[trigger] old.insert(pos, x)[i] == x || old.contains(old.insert(pos, x)[i]),
        forall|y: T| old.contains(y) ==> #[trigger] old.insert(pos, x).contains(y),
        old.insert(pos, x).contains(x),
        old.no_duplicates() && !old.contains(x) ==> old.insert(pos, x).no_duplicates(),
{
    let n = old.insert(pos, x);
    assert(n[pos] == x);
    assert forall|i: int| 0 <= i < n.len() implies #[trigger] n[i] == x || old.contains(n[i]) by {
        if i < pos {
            assert(n[i] == old[i]);
        } else if i > pos {
            assert(n[i] == old[i - 1]);
        }
    }
    assert forall|y: T| old.contains(y) implies #[trigger] n.contains(y) by {
        let j = choose|j: int| 0 <= j < old.len() && old[j] == y;
        if j < pos {
            assert(n[j] == y);
        } else {
            assert(n[j + 1] == y);
        }
    }
    if old.no_duplicates() && !old.contains(x) {
        assert forall|i: int, j: int| 0 <= i < n.len() && 0 <= j < n.len() && i != j implies n[i] != n[j] by {
            if i != pos && j != pos {
                let oi = if i < pos { i } else { i - 1 };
                let oj = if j < pos { j } else { j - 1 };
                assert(n[i] == old[oi]);
                assert(n[j] == old[oj]);
            } else if i == pos {
                let oj = if j < pos { j } else { j - 1 };
                assert(n[j] == old[oj]);
            } else {
                let oi = if i < pos { i } else { i - 1 };
                assert(n[i] == old[oi]);
            }
        }
    }
}

/// Inserts position `p` after every position whose release does not order after it.
fn insert_by_release(regs: &Vec<RegistryGroups>, out: &mut Vec<(usize, usize)>, p: (usize, usize))
    requires
        valid_pos(regs@, p),
        forall|i: int| 0 <= i < old(out)@.len() ==> valid_pos(regs@, #[trigger] old(out)@[i]),
        release_sorted(regs@, old(out)@),
    ensures
        exists|pos: int| 0 <= pos <= old(out)@.len() && final(out)@ == old(out)@.insert(pos, p),
        release_sorted(regs@, final(out)@),
{
    let info = &regs[p.0].info;
    let mut pos: usize = 0;
    while pos < out.len() && !registry_less(info, &regs[out[pos].0].info)
        invariant
            pos <= out@.len(),
            valid_pos(regs@, p),
            *info == release_at(regs@, p),
            forall|i: int| 0 <= i < out@.len() ==> valid_pos(regs@, #[trigger] out@[i]),
            forall|i: int| 0 <= i < pos ==> !release_less(release_at(regs@, p), release_at(regs@, #[trigger] out@[i])),
        decreases out@.len() - pos,
    {
        pos = pos + 1;
    }
    let ghost before = out@;
    let ghost rp = release_at(regs@, p);
    proof {
        assert forall|j: int| pos <= j < before.len() implies !release_less(release_at(regs@, #[trigger] before[j]), rp) by {
            lemma_release_asym(rp, release_at(regs@, before[pos as int]));
            if j > pos && release_less(release_at(regs@, before[j]), rp) {
                lemma_release_trans(release_at(regs@, before[j]), rp, release_at(regs@, before[pos as int]));
            }
        }
    }
    out.insert(pos, p);
    assert forall|i: int, j: int| 0 <= i < j < out@.len() implies !release_less(
        release_at(regs@, #[trigger] out@[j]),
        release_at(regs@, #[trigger] out@[i]),
    ) by {
        if j < pos {
            assert(out@[i] == before[i] && out@[j] == before[j]);
        } else if j == pos {
            assert(out@[i] == before[i]);
        } else if i == pos {
            assert(out@[j] == before[j - 1]);
        } else if i < pos {
            assert(out@[i] == before[i] && out@[j] == before[j - 1]);
        } else {
            assert(out@[i] == before[i - 1] && out@[j] == before[j - 1]);
        }
    }
}

/// The bucket of the groups with identifier `id` and type `t`: their positions, in
/// release order, ties kept in input order.
fn bucket_of(regs: &Vec<RegistryGroups>, id: &String, t: GroupType) -> (r: Vec<(usize, usize)>)
    ensures
        is_bucket(regs@, id@, t, r@),
{
    let mut out: Vec<(usize, usize)> = Vec::new();
    let mut a: usize = 0;
    while a < regs.len()
        invariant
            a <= regs@.len(),
            forall|i: int| 0 <= i < out@.len() ==> valid_pos(regs@, #[trigger] out@[i]) && group_at(regs@, out@[i]).id@ == id@
                && group_at(regs@, out@[i]).group_type == t && pos_before(out@[i], a as int, 0),
            forall|q: (usize, usize)| valid_pos(regs@, q) && (#[trigger] group_at(regs@, q)).id@ == id@ && group_at(regs@, q).group_type == t
                && pos_before(q, a as int, 0) ==> out@.contains(q),
            out@.no_duplicates(),
            release_sorted(regs@, out@),
        decreases regs@.len() - a,
    {
        let gs = &regs[a].groups;
        let mut b: usize = 0;
        while b < gs.len()
            invariant
                a < regs@.len(),
                gs@ == regs@[a as int].groups@,
                b <= gs@.len(),
                forall|i: int| 0 <= i < out@.len() ==> valid_pos(regs@, #[trigger] out@[i]) && group_at(regs@, out@[i]).id@ == id@
                    && group_at(regs@, out@[i]).group_type == t && pos_before(out@[i], a as int, b as int),
                forall|q: (usize, usize)| valid_pos(regs@, q) && (#[trigger] group_at(regs@, q)).id@ == id@ && group_at(regs@, q).group_type == t
                    && pos_before(q, a as int, b as int) ==> out@.contains(q),
                out@.no_duplicates(),
                release_sorted(regs@, out@),
            decreases gs@.len() - b,
        {
            if gs[b].id.eq(id) && gs[b].group_type == t {
                let ghost before = out@;
                let ghost p = (a, b);
                proof {
                    assert(group_at(regs@, p) == gs@[b as int]);
                    assert(!before.contains(p));
                }
                insert_by_release(regs, &mut out, (a, b));
                proof {
                    let pos = choose|pos: int| 0 <= pos <= before.len() && out@ == before.insert(pos, p);
                    lemma_insert_seq(before, pos, p);
                    assert forall|i: int| 0 <= i < out@.len() implies valid_pos(regs@, #[trigger] out@[i]) && group_at(regs@, out@[i]).id@ == id@
                        && group_at(regs@, out@[i]).group_type == t && pos_before(out@[i], a as int, b + 1) by {
                        if out@[i] != p {
                            assert(before.contains(out@[i]));
                            let j = choose|j: int| 0 <= j < before.len() && before[j] == out@[i];
                        }
                    }
                    assert forall|q: (usize, usize)| valid_pos(regs@, q) && (#[trigger] group_at(regs@, q)).id@ == id@ && group_at(regs@, q).group_type == t
                        && pos_before(q, a as int, b + 1) implies out@.contains(q) by {
                        if q != p {
                            assert(before.contains(q));
                        }
                    }
                }
            } else {
                proof {
                    assert forall|q: (usize, usize)| valid_pos(regs@, q) && (#[trigger] group_at(regs@, q)).id@ == id@ && group_at(regs@, q).group_type == t
                        && pos_before(q, a as int, b + 1) implies out@.contains(q) by {
                        if q == (a, b) {
                            assert(group_at(regs@, q) == gs@[b as int]);
                        }
                    }
                }
            }
            b = b + 1;
        }
        a = a + 1;
    }
    out
}

/// Folds `merge` over the groups of `bucket`, in order.
fn fold_bucket(regs: &Vec<RegistryGroups>, bucket: &Vec<(usize, usize)>, id: Ghost<Seq<char>>, t: GroupType) -> (r: Result<Group, String>)
    requires
        bucket@.len() > 0,
        is_bucket(regs@, id@, t, bucket@),
    ensures
        r matches Ok(g) ==> g.id@ == id@ && g.group_type == t && exists|accs: Seq<Group>| #[trigger] resolved_trace(regs@, g, bucket@, accs),
        r matches Err(reason) ==> exists|accs: Seq<Group>| #[trigger] fold_trace(regs@, bucket@, accs) && accs.len() < bucket@.len()
            && merge_kind(accs.last(), group_at(regs@, bucket@[accs.len() as int])) == MergeKind::NotMergeable
            && reason@ == failure_reason(accs.last(), group_at(regs@, bucket@[accs.len() as int])),
{
    let p0 = bucket[0];
    assert(valid_pos(regs@, bucket@[0]));
    let first = &regs[p0.0].groups[p0.1];
    proof {
        assert(group_at(regs@, p0) == *first);
    }
    let mut acc = first.copy_with_lineage(union_lineage(&first.lineage, &None));
    let ghost mut accs: Seq<Group> = seq![acc];
    proof {
        assert(same_view(acc, *first));
    }
    let mut i: usize = 1;
    while i < bucket.len()
        invariant
            1 <= i <= bucket@.len(),
            is_bucket(regs@, id@, t, bucket@),
            fold_trace(regs@, bucket@, accs),
            accs.len() == i,
            accs.last() == acc,
            acc.id@ == id@,
            acc.group_type == t,
        decreases bucket@.len() - i,
    {
        let p = bucket[i];
        assert(valid_pos(regs@, bucket@[i as int]));
        let next = &regs[p.0].groups[p.1];
        proof {
            assert(group_at(regs@, p) == *next);
        }
        let res = merge(&acc, next);
        let ghost old_acc = acc;
        let ghost old_accs = accs;
        match res {
            MergeResult::NotMergeable { reason } => {
                proof {
                    assert(fold_trace(regs@, bucket@, accs));
                }
                return Err(reason);
            },
            MergeResult::StructuralEquivalence { group } => {
                acc = group;
            },
            MergeResult::VersionCompatibility { group } => {
                acc = group;
            },
            MergeResult::DisjointOverride { group } => {
                acc = group;
            },
        }
        proof {
            accs = accs.push(acc);
            assert(merged_group_ok(old_acc, *next, acc));
            assert forall|k: int| 0 <= k < accs.len() - 1 implies merged_group_ok(#[trigger] accs[k], group_at(regs@, bucket@[k + 1]), accs[k + 1]) by {
                if k < accs.len() - 2 {
                    assert(accs[k] == old_accs[k] && accs[k + 1] == old_accs[k + 1]);
                } else {
                    assert(accs[k] == old_acc);
                }
            }
            assert(accs[0] == old_accs[0]);
        }
        i = i + 1;
    }
    proof {
        assert(resolved_trace(regs@, acc, bucket@, accs));
    }
    Ok(acc)
}

/// The parts of `resolves` that hold after each step of the resolution.
pub open spec fn partial_ok(regs: Seq<RegistryGroups>, res: Resolution) -> bool {
    &&& forall|i: int| 0 <= i < res.resolved@.len() ==> resolved_ok(regs, #[trigger] res.resolved@[i])
    &&& forall|i: int| 0 <= i < res.conflicts@.len() ==> conflict_ok(regs, #[trigger] res.conflicts@[i])
    &&& forall|i: int, j: int| 0 <= i < j < res.resolved@.len() ==> !((#[trigger] res.resolved@[i]).id@ == (#[trigger] res.resolved@[j]).id@
        && res.resolved@[i].group_type == res.resolved@[j].group_type)
    &&& forall|i: int| 0 <= i < res.resolved@.len() ==> forall|j: int| 0 <= j < res.conflicts@.len() ==>
        !((#[trigger] res.resolved@[i]).id@ == (#[trigger] res.conflicts@[j]).group_id@ && res.resolved@[i].group_type == res.conflicts@[j].group_type)
    &&& conflicts_sorted(res.conflicts@)
}

proof fn lemma_push_resolved(regs: Seq<RegistryGroups>, before: Resolution, after: Resolution, id: Seq<char>, t: GroupType)
    requires
        partial_ok(regs, before),
        !covers(before, id, t),
        after.resolved@.len() == before.resolved@.len() + 1,
        after.resolved@ == before.resolved@.push(after.resolved@.last()),
        after.resolved@.last().id@ == id,
        after.resolved@.last().group_type == t,
        resolved_ok(regs, after.resolved@.last()),
        after.conflicts@ == before.conflicts@,
    ensures
        partial_ok(regs, after),
        covers(after, id, t),
        forall|id2: Seq<char>, t2: GroupType| covers(before, id2, t2) ==> #[trigger] covers(after, id2, t2),
{
    let n = before.resolved@.len() as int;
    assert(after.resolved@[n].id@ == id);
    assert forall|i: int| 0 <= i < after.resolved@.len() implies resolved_ok(regs, #[trigger] after.resolved@[i]) by {
        if i < n {
            assert(after.resolved@[i] == before.resolved@[i]);
        }
    }
    assert forall|i: int, j: int| 0 <= i < j < after.resolved@.len() implies !((#[trigger] after.resolved@[i]).id@ == (#[trigger] after.resolved@[j]).id@
        && after.resolved@[i].group_type == after.resolved@[j].group_type) by {
        assert(after.resolved@[i] == before.resolved@[i]);
        if j < n {
            assert(after.resolved@[j] == before.resolved@[j]);
        }
    }
    assert forall|i: int| 0 <= i < after.resolved@.len() implies forall|j: int| 0 <= j < after.conflicts@.len() ==>
        !((#[trigger] after.resolved@[i]).id@ == (#[trigger] after.conflicts@[j]).group_id@ && after.resolved@[i].group_type == after.conflicts@[j].group_type) by {
        if i < n {
            assert(after.resolved@[i] == before.resolved@[i]);
        }
    }
    assert forall|id2: Seq<char>, t2: GroupType| covers(before, id2, t2) implies #[trigger] covers(after, id2, t2) by {
        if exists|i: int| 0 <= i < before.resolved@.len() && (#[trigger] before.resolved@[i]).id@ == id2 && before.resolved@[i].group_type == t2 {
            let i = choose|i: int| 0 <= i < before.resolved@.len() && (#[trigger] before.resolved@[i]).id@ == id2 && before.resolved@[i].group_type == t2;
            assert(after.resolved@[i] == before.resolved@[i]);
        }
    }
}

proof fn lemma_insert_conflict(regs: Seq<RegistryGroups>, before: Resolution, after: Resolution, c: Conflict)
    requires
        partial_ok(regs, before),
        !covers(before, c.group_id@, c.group_type),
        conflict_ok(regs, c),
        conflicts_sorted(after.conflicts@),
        exists|pos: int| 0 <= pos <= before.conflicts@.len() && after.conflicts@ == before.conflicts@.insert(pos, c),
        after.resolved@ == before.resolved@,
    ensures
        partial_ok(regs, after),
        covers(after, c.group_id@, c.group_type),
        forall|id2: Seq<char>, t2: GroupType| covers(before, id2, t2) ==> #[trigger] covers(after, id2, t2),
{
    let pos = choose|pos: int| 0 <= pos <= before.conflicts@.len() && after.conflicts@ == before.conflicts@.insert(pos, c);
    assert(after.conflicts@[pos] == c);
    assert forall|j: int| 0 <= j < after.conflicts@.len() implies (#[trigger] after.conflicts@[j]) == c
        || (j < pos && after.conflicts@[j] == before.conflicts@[j])
        || (j > pos && after.conflicts@[j] == before.conflicts@[j - 1]) by {
    }
    assert forall|i: int| 0 <= i < after.conflicts@.len() implies conflict_ok(regs, #[trigger] after.conflicts@[i]) by {
        if i < pos {
            assert(after.conflicts@[i] == before.conflicts@[i]);
        } else if i > pos {
            assert(after.conflicts@[i] == before.conflicts@[i - 1]);
        }
    }
    assert forall|i: int| 0 <= i < after.resolved@.len() implies forall|j: int| 0 <= j < after.conflicts@.len() ==>
        !((#[trigger] after.resolved@[i]).id@ == (#[trigger] after.conflicts@[j]).group_id@ && after.resolved@[i].group_type == after.conflicts@[j].group_type) by {
        assert forall|j: int| 0 <= j < after.conflicts@.len() implies
            !((#[trigger] after.resolved@[i]).id@ == (#[trigger] after.conflicts@[j]).group_id@ && after.resolved@[i].group_type == after.conflicts@[j].group_type) by {
            if j < pos {
                assert(after.conflicts@[j] == before.conflicts@[j]);
            } else if j > pos {
                assert(after.conflicts@[j] == before.conflicts@[j - 1]);
            } else {
                assert(before.resolved@[i] == after.resolved@[i]);
            }
        }
    }
    assert forall|id2: Seq<char>, t2: GroupType| covers(before, id2, t2) implies #[trigger] covers(after, id2, t2) by {
        if !(exists|i: int| 0 <= i < before.resolved@.len() && (#[trigger] before.resolved@[i]).id@ == id2 && before.resolved@[i].group_type == t2) {
            let i = choose|i: int| 0 <= i < before.conflicts@.len() && (#[trigger] before.conflicts@[i]).group_id@ == id2 && before.conflicts@[i].group_type == t2;
            if i < pos {
                assert(after.conflicts@[i] == before.conflicts@[i]);
            } else {
                assert(after.conflicts@[i + 1] == before.conflicts@[i]);
            }
        } else {
            let i = choose|i: int| 0 <= i < before.resolved@.len() && (#[trigger] before.resolved@[i]).id@ == id2 && before.resolved@[i].group_type == t2;
            assert(after.resolved@[i] == before.resolved@[i]);
        }
    }
}

/// Inserts `c` into sorted `conflicts` after every conflict whose identifier does not
/// order after it.
fn insert_conflict(conflicts: &mut Vec<Conflict>, c: Conflict)
    requires
        conflicts_sorted(old(conflicts)@),
    ensures
        conflicts_sorted(final(conflicts)@),
        exists|pos: int| 0 <= pos <= old(conflicts)@.len() && final(conflicts)@ == old(conflicts)@.insert(pos, c),
{
    let mut pos: usize = 0;
    while pos < conflicts.len() && !str_less(c.group_id.as_str(), conflicts[pos].group_id.as_str())
        invariant
            pos <= conflicts@.len(),
            forall|i: int| 0 <= i < pos ==> !lex_less(c.group_id@, (#[trigger] conflicts@[i]).group_id@),
        decreases conflicts@.len() - pos,
    {
        pos = pos + 1;
    }
    let ghost before = conflicts@;
    let ghost cid = c.group_id@;
    proof {
        assert forall|j: int| pos <= j < before.len() implies !lex_less((#[trigger] before[j]).group_id@, cid) by {
            lemma_lex_asym(cid, before[pos as int].group_id@);
            if j > pos {
                if lex_less(before[j].group_id@, cid) {
                    lemma_lex_trans(before[j].group_id@, cid, before[pos as int].group_id@);
                }
            }
        }
    }
    conflicts.insert(pos, c);
    assert forall|i: int, j: int| 0 <= i < j < conflicts@.len() implies !lex_less(
        (#[trigger] conflicts@[j]).group_id@,
        (#[trigger] conflicts@[i]).group_id@,
    ) by {
        if j < pos {
            assert(conflicts@[i] == before[i] && conflicts@[j] == before[j]);
        } else if j == pos {
            assert(conflicts@[i] == before[i]);
        } else if i == pos {
            assert(conflicts@[j] == before[j - 1]);
        } else if i < pos {
            assert(conflicts@[i] == before[i] && conflicts@[j] == before[j - 1]);
        } else {
            assert(conflicts@[i] == before[i - 1] && conflicts@[j] == before[j - 1]);
        }
    }
}

pub open spec fn pos_before(p: (usize, usize), a: int, b: int) -> bool {
    p.0 < a || (p.0 == a && p.1 < b)
}

/// Resolves the identity of `g`, which the output does not cover yet: pushes the fold of
/// its bucket, or inserts its conflict.
fn resolve_identity(registries: &Vec<RegistryGroups>, res: &mut Resolution, g: &Group, here: Ghost<(usize, usize)>)
    requires
        partial_ok(registries@, *old(res)),
        !covers(*old(res), g.id@, g.group_type),
        valid_pos(registries@, here@),
        group_at(registries@, here@) == *g,
    ensures
        partial_ok(registries@, *final(res)),
        covers(*final(res), g.id@, g.group_type),
        forall|id2: Seq<char>, t2: GroupType| covers(*old(res), id2, t2) ==> #[trigger] covers(*final(res), id2, t2),
{
    let ghost regs = registries@;
    let ghost here = here@;
    let ghost old_res = *res;
    let bucket = bucket_of(registries, &g.id, g.group_type);
    proof {
        assert(bucket@.contains(here));
    }
    match fold_bucket(registries, &bucket, Ghost(g.id@), g.group_type) {
        Ok(group) => {
            proof {
                let accs = choose|accs: Seq<Group>| #[trigger] resolved_trace(regs, group, bucket@, accs);
                assert(resolved_trace(regs, group, bucket@, accs));
            }
            res.resolved.push(group);
            proof {
                assert(res.resolved@.last() == group);
                assert(res.resolved@ == old_res.resolved@.push(res.resolved@.last()));
                lemma_push_resolved(regs, old_res, *res, g.id@, g.group_type);
            }
        },
        Err(reason) => {
            let c = Conflict { group_id: g.id.clone(), group_type: g.group_type, reason };
            let ghost gc = c;
            proof {
                assert(input_has(regs, c.group_id@, c.group_type)) by {
                    assert(group_at(regs, here).id@ == c.group_id@);
                }
                let accs = choose|accs: Seq<Group>| #[trigger] fold_trace(regs, bucket@, accs) && accs.len() < bucket@.len()
                    && merge_kind(accs.last(), group_at(regs, bucket@[accs.len() as int])) == MergeKind::NotMergeable
                    && c.reason@ == failure_reason(accs.last(), group_at(regs, bucket@[accs.len() as int]));
                assert(conflict_trace(regs, c, bucket@, accs));
            }
            insert_conflict(&mut res.conflicts, c);
            proof {
                lemma_insert_conflict(regs, old_res, *res, gc);
            }
        },
    }
}

/// Resolves the groups of a set of registries into one group per identity.
///
/// Groups are bucketed by identifier and type. Each bucket is ordered by release
/// (version, then registry name) and folded with `merge`; a bucket whose fold meets a
/// definition that cannot be merged becomes a conflict instead, without stopping the
/// other buckets. Conflicts are sorted by group identifier.
pub fn resolve(registries: &Vec<RegistryGroups>) -> (r: Resolution)
    ensures
        resolves(registries@, r),
{
    let ghost regs = registries@;
    let mut res = Resolution { resolved: Vec::new(), conflicts: Vec::new() };
    let mut a: usize = 0;
    while a < registries.len()
        invariant
            regs == registries@,
            a <= regs.len(),
            partial_ok(regs, res),
            forall|p: (usize, usize)| valid_pos(regs, p) && pos_before(p, a as int, 0) ==> covers(res, (#[trigger] group_at(regs, p)).id@, group_at(regs, p).group_type),
        decreases regs.len() - a,
    {
        let gs = &registries[a].groups;
        let mut b: usize = 0;
        while b < gs.len()
            invariant
                regs == registries@,
                a < regs.len(),
                gs@ == regs[a as int].groups@,
                b <= gs@.len(),
                partial_ok(regs, res),
                forall|p: (usize, usize)| valid_pos(regs, p) && pos_before(p, a as int, b as int) ==> covers(res, (#[trigger] group_at(regs, p)).id@, group_at(regs, p).group_type),
            decreases gs@.len() - b,
        {
            let g = &gs[b];
            let ghost here = (a, b);
            proof {
                assert(group_at(regs, here) == *g);
                assert(valid_pos(regs, here));
            }
            let ghost old_res = res;
            if !is_covered(&res.resolved, &res.conflicts, &g.id, g.group_type) {
                resolve_identity(registries, &mut res, g, Ghost(here));
            }
            proof {
                assert forall|p: (usize, usize)| valid_pos(regs, p) && pos_before(p, a as int, b + 1) implies covers(res, (#[trigger] group_at(regs, p)).id@, group_at(regs, p).group_type) by {
                    if pos_before(p, a as int, b as int) {
                        assert(covers(old_res, group_at(regs, p).id@, group_at(regs, p).group_type));
                    } else {
                        assert(p == here);
                    }
                }
            }
            b = b + 1;
        }
        proof {
            assert forall|p: (usize, usize)| valid_pos(regs, p) && pos_before(p, a + 1, 0) implies covers(res, (#[trigger] group_at(regs, p)).id@, group_at(regs, p).group_type) by {
                assert(pos_before(p, a as int, gs@.len() as int));
            }
        }
        a = a + 1;
    }
    res
}

proof fn lemma_same_view_join(a: Group, b: Group, c: Group)
    requires
        same_view(a, c),
        same_view(b, c),
    ensures
        same_view(a, b),
{
    assert forall|f: GroupField| #[trigger] field_value(a, f) == field_value(b, f) by {
        assert(field_value(a, f) == field_value(c, f) && field_value(b, f) == field_value(c, f));
    }
    assert forall|f: GroupField| #[trigger] overrides(a, f) == overrides(b, f) by {
        assert(overrides(a, f) == overrides(c, f) && overrides(b, f) == overrides(c, f));
    }
}

/// Two folds of one bucket agree, step by step, on everything merging reads.
pub proof fn lemma_fold_steps_agree(regs: Seq<RegistryGroups>, b: Seq<(usize, usize)>, accs1: Seq<Group>, accs2: Seq<Group>, k: int)
    requires
        fold_trace(regs, b, accs1),
        fold_trace(regs, b, accs2),
        0 <= k < accs1.len(),
        k < accs2.len(),
    ensures
        same_view(accs1[k], accs2[k]),
    decreases k,
{
    if k == 0 {
        lemma_same_view_join(accs1[0], accs2[0], group_at(regs, b[0]));
    } else {
        lemma_fold_steps_agree(regs, b, accs1, accs2, k - 1);
        assert(merged_group_ok(accs1[k - 1], group_at(regs, b[k]), accs1[k]));
        assert(merged_group_ok(accs2[k - 1], group_at(regs, b[k]), accs2[k]));
        lemma_merge_respects_view(accs1[k - 1], accs2[k - 1], group_at(regs, b[k]), accs1[k], accs2[k]);
    }
}

/// Over one bucket, the fold's outcome is determined: when it completes, no fold of the
/// same bucket stops at a step that cannot merge.
pub proof fn law_fold_outcome_unique(regs: Seq<RegistryGroups>, b: Seq<(usize, usize)>, done: Seq<Group>, partial: Seq<Group>)
    requires
        fold_trace(regs, b, done),
        done.len() == b.len(),
        fold_trace(regs, b, partial),
        partial.len() < b.len(),
    ensures
        merge_kind(partial.last(), group_at(regs, b[partial.len() as int])) != MergeKind::NotMergeable,
{
    let k = partial.len() - 1;
    lemma_fold_steps_agree(regs, b, done, partial, k);
    assert(merged_group_ok(done[k], group_at(regs, b[k + 1]), done[k + 1]));
    lemma_merge_respects_view(done[k], partial[k], group_at(regs, b[k + 1]), done[k + 1], done[k + 1]);
}

/// Over one bucket, a fold that fails always fails at the same step, for the same reason.
pub proof fn law_fold_failure_unique(regs: Seq<RegistryGroups>, b: Seq<(usize, usize)>, p1: Seq<Group>, p2: Seq<Group>)
    requires
        fold_trace(regs, b, p1),
        p1.len() < b.len(),
        merge_kind(p1.last(), group_at(regs, b[p1.len() as int])) == MergeKind::NotMergeable,
        fold_trace(regs, b, p2),
        p2.len() < b.len(),
        merge_kind(p2.last(), group_at(regs, b[p2.len() as int])) == MergeKind::NotMergeable,
    ensures
        p1.len() == p2.len(),
        failure_reason(p1.last(), group_at(regs, b[p1.len() as int])) == failure_reason(p2.last(), group_at(regs, b[p2.len() as int])),
{
    if p1.len() < p2.len() {
        let k = p1.len() - 1;
        lemma_fold_steps_agree(regs, b, p1, p2, k);
        assert(merged_group_ok(p2[k], group_at(regs, b[k + 1]), p2[k + 1]));
        lemma_merge_respects_view(p1[k], p2[k], group_at(regs, b[k + 1]), p2[k + 1], p2[k + 1]);
    } else if p2.len() < p1.len() {
        let k = p2.len() - 1;
        lemma_fold_steps_agree(regs, b, p2, p1, k);
        assert(merged_group_ok(p1[k], group_at(regs, b[k + 1]), p1[k + 1]));
        lemma_merge_respects_view(p2[k], p1[k], group_at(regs, b[k + 1]), p1[k + 1], p1[k + 1]);
    } else {
        let k = p1.len() - 1;
        lemma_fold_steps_agree(regs, b, p1, p2, k);
        lemma_merge_respects_view(p1[k], p2[k], group_at(regs, b[k + 1]), p1[k], p1[k]);
    }
}

} // verus!
