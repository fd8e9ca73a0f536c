use vstd::prelude::*;
use crate::normalize::{extract_app_name, normalized_name};

verus! {

/// One running process: its raw name and its resident memory in bytes.
pub struct ProcessRecord {
    pub name: String,
    pub memory: u64,
}

/// One application group: its identity and the memory of all its processes.
pub struct AppUsage {
    pub name: String,
    pub memory: u64,
}

/// Memory of all records, in bytes.
pub open spec fn records_total(recs: Seq<ProcessRecord>) -> int
    decreases recs.len(),
{
    if recs.len() == 0 {
        0
    } else {
        records_total(recs.drop_last()) + recs.last().memory
    }
}

/// Memory of all groups, in bytes.
pub open spec fn usage_total(us: Seq<AppUsage>) -> int
    decreases us.len(),
{
    if us.len() == 0 {
        0
    } else {
        usage_total(us.drop_last()) + us.last().memory
    }
}

/// Memory of the records whose application identity is `key`.
pub open spec fn group_total(recs: Seq<ProcessRecord>, key: Seq<char>) -> int
    decreases recs.len(),
{
    if recs.len() == 0 {
        0
    } else {
        group_total(recs.drop_last(), key) + if normalized_name(recs.last().name@) == key {
            recs.last().memory as int
        } else {
            0
        }
    }
}

/// No two groups share a name.
pub open spec fn distinct_names(us: Seq<AppUsage>) -> bool {
    forall|i: int, j: int|
        0 <= i < us.len() && 0 <= j < us.len() && i != j ==> us[i].name@ != us[j].name@
}

/// Each group is later in the sequence only behind groups holding as much.
pub open spec fn sorted_by_memory(us: Seq<AppUsage>) -> bool {
    forall|i: int, j: int| 0 <= i < j < us.len() ==> us[i].memory >= us[j].memory
}

/// Some record of `recs` has the application identity `key`.
pub open spec fn has_key(recs: Seq<ProcessRecord>, key: Seq<char>) -> bool {
    exists|k: int| 0 <= k < recs.len() && normalized_name(#[trigger] recs[k].name@) == key
}

/// Some group of `us` is named `key`.
pub open spec fn has_group(us: Seq<AppUsage>, key: Seq<char>) -> bool {
    exists|i: int| 0 <= i < us.len() && #[trigger] us[i].name@ == key
}

/// `us` holds exactly one group for each application identity among `recs`,
/// with the memory of that identity's records.
pub open spec fn groups_of(us: Seq<AppUsage>, recs: Seq<ProcessRecord>) -> bool {
    &&& distinct_names(us)
    &&& forall|i: int|
        0 <= i < us.len() ==> #[trigger] us[i].memory == group_total(recs, us[i].name@)
            && has_key(recs, us[i].name@)
    &&& forall|k: int|
        0 <= k < recs.len() ==> has_group(us, normalized_name(#[trigger] recs[k].name@))
}

pub(crate) proof fn lemma_records_prefix(recs: Seq<ProcessRecord>, k: int)
    requires
        0 <= k <= recs.len(),
    ensures
        records_total(recs.subrange(0, k)) <= records_total(recs),
    decreases recs.len() - k,
{
    if k < recs.len() {
        lemma_records_prefix(recs, k + 1);
        assert(recs.subrange(0, k + 1).drop_last() =~= recs.subrange(0, k));
    } else {
        assert(recs.subrange(0, k) =~= recs);
    }
}

pub(crate) proof fn lemma_usage_prefix(us: Seq<AppUsage>, k: int)
    requires
        0 <= k <= us.len(),
    ensures
        usage_total(us.subrange(0, k)) <= usage_total(us),
    decreases us.len() - k,
{
    if k < us.len() {
        lemma_usage_prefix(us, k + 1);
        assert(us.subrange(0, k + 1).drop_last() =~= us.subrange(0, k));
    } else {
        assert(us.subrange(0, k) =~= us);
    }
}

proof fn lemma_usage_update(us: Seq<AppUsage>, i: int, x: AppUsage)
    requires
        0 <= i < us.len(),
    ensures
        usage_total(us.update(i, x)) == usage_total(us) - us[i].memory + x.memory,
    decreases us.len(),
{
    if i < us.len() - 1 {
        lemma_usage_update(us.drop_last(), i, x);
        assert(us.update(i, x).drop_last() =~= us.drop_last().update(i, x));
    } else {
        assert(us.update(i, x).drop_last() =~= us.drop_last());
    }
}

proof fn lemma_usage_nonneg(us: Seq<AppUsage>)
    ensures
        usage_total(us) >= 0,
    decreases us.len(),
{
    if us.len() > 0 {
        lemma_usage_nonneg(us.drop_last());
    }
}

proof fn lemma_usage_element(us: Seq<AppUsage>, i: int)
    requires
        0 <= i < us.len(),
    ensures
        us[i].memory <= usage_total(us),
    decreases us.len(),
{
    if i < us.len() - 1 {
        lemma_usage_element(us.drop_last(), i);
        assert(us.drop_last()[i] == us[i]);
    } else {
        lemma_usage_nonneg(us.drop_last());
    }
}

proof fn lemma_group_absent(recs: Seq<ProcessRecord>, key: Seq<char>)
    requires
        !has_key(recs, key),
    ensures
        group_total(recs, key) == 0,
    decreases recs.len(),
{
    if recs.len() > 0 {
        let init = recs.drop_last();
        assert(!has_key(init, key)) by {
            if has_key(init, key) {
                let k = choose|k: int|
                    0 <= k < init.len() && normalized_name(#[trigger] init[k].name@) == key;
                assert(recs[k] == init[k]);
            }
        }
        lemma_group_absent(init, key);
        assert(normalized_name(recs[recs.len() - 1].name@) != key);
    }
}

/// Index of the group named `key`, if there is one.
fn find_group(groups: &Vec<AppUsage>, key: &String) -> (r: Option<usize>)
    ensures
        match r {
            Some(j) => j < groups@.len() && groups@[j as int].name@ == key@,
            None => !has_group(groups@, key@),
        },
{
    let mut j: usize = 0;
    while j < groups.len()
        invariant
            j <= groups@.len(),
            forall|i: int| 0 <= i < j ==> groups@[i].name@ != key@,
        decreases groups@.len() - j,
    {
        if groups[j].name == *key {
            return Some(j);
        }
        j += 1;
    }
    None
}

/// Adding the memory of the last record to the group of its identity turns
/// the groups of the records before it into the groups of all of them.
proof fn lemma_join_group(
    before: Seq<AppUsage>,
    after: Seq<AppUsage>,
    recs: Seq<ProcessRecord>,
    j: int,
)
    requires
        recs.len() > 0,
        groups_of(before, recs.drop_last()),
        0 <= j < before.len(),
        before[j].name@ == normalized_name(recs.last().name@),
        after.len() == before.len(),
        after[j].name@ == before[j].name@,
        after[j].memory == before[j].memory + recs.last().memory,
        forall|i: int| 0 <= i < before.len() && i != j ==> after[i] == before[i],
    ensures
        groups_of(after, recs),
{
    let prev = recs.drop_last();
    assert forall|i: int| 0 <= i < after.len() implies #[trigger] after[i].memory
        == group_total(recs, after[i].name@) && has_key(recs, after[i].name@) by {
        assert(before[i].memory == group_total(prev, before[i].name@));
        assert(has_key(prev, before[i].name@));
        let w = choose|w: int|
            0 <= w < prev.len() && normalized_name(#[trigger] prev[w].name@) == before[i].name@;
        assert(recs[w] == prev[w]);
        assert(after[i].name@ == before[i].name@);
    }
    assert forall|q: int| 0 <= q < recs.len() implies has_group(
        after,
        normalized_name(#[trigger] recs[q].name@),
    ) by {
        if q < prev.len() {
            let key = normalized_name(prev[q].name@);
            assert(recs[q] == prev[q]);
            assert(has_group(before, key));
            let w = choose|w: int| 0 <= w < before.len() && #[trigger] before[w].name@ == key;
            assert(after[w].name@ == before[w].name@);
        } else {
            assert(after[j].name@ == normalized_name(recs[q].name@));
        }
    }
}

/// Opening a group for the last record, whose identity has none yet, turns
/// the groups of the records before it into the groups of all of them.
proof fn lemma_open_group(before: Seq<AppUsage>, after: Seq<AppUsage>, recs: Seq<ProcessRecord>)
    requires
        recs.len() > 0,
        groups_of(before, recs.drop_last()),
        !has_group(before, normalized_name(recs.last().name@)),
        after.len() == before.len() + 1,
        after.drop_last() == before,
        after.last().name@ == normalized_name(recs.last().name@),
        after.last().memory == recs.last().memory,
    ensures
        groups_of(after, recs),
{
    let prev = recs.drop_last();
    let key = normalized_name(recs.last().name@);
    assert(!has_key(prev, key)) by {
        if has_key(prev, key) {
            let w = choose|w: int|
                0 <= w < prev.len() && normalized_name(#[trigger] prev[w].name@) == key;
            assert(has_group(before, normalized_name(prev[w].name@)));
        }
    }
    lemma_group_absent(prev, key);
    assert forall|i: int, j: int|
        0 <= i < after.len() && 0 <= j < after.len() && i != j implies after[i].name@
        != after[j].name@ by {
        if i < before.len() {
            assert(after[i] == before[i]);
        }
        if j < before.len() {
            assert(after[j] == before[j]);
        }
    }
    assert forall|i: int| 0 <= i < after.len() implies #[trigger] after[i].memory
        == group_total(recs, after[i].name@) && has_key(recs, after[i].name@) by {
        if i < before.len() {
            assert(before[i].memory == group_total(prev, before[i].name@));
            assert(has_key(prev, before[i].name@));
            assert(after[i] == before[i]);
            let w = choose|w: int|
                0 <= w < prev.len() && normalized_name(#[trigger] prev[w].name@) == before[i].name@;
            assert(recs[w] == prev[w]);
        } else {
            assert(normalized_name(recs[recs.len() - 1].name@) == after[i].name@);
        }
    }
    assert forall|q: int| 0 <= q < recs.len() implies has_group(
        after,
        normalized_name(#[trigger] recs[q].name@),
    ) by {
        if q < prev.len() {
            let key_q = normalized_name(prev[q].name@);
            assert(recs[q] == prev[q]);
            assert(has_group(before, key_q));
            let w = choose|w: int| 0 <= w < before.len() && #[trigger] before[w].name@ == key_q;
            assert(after[w] == before[w]);
        } else {
            assert(after[before.len() as int].name@ == normalized_name(recs[q].name@));
        }
    }
}

/// Groups the records by application identity, in order of first occurrence.
pub fn group_by_app(records: &Vec<ProcessRecord>) -> (r: Vec<AppUsage>)
    requires
        records_total(records@) <= u64::MAX,
    ensures
        groups_of(r@, records@),
        usage_total(r@) == records_total(records@),
{
    let mut groups: Vec<AppUsage> = Vec::new();
    let mut k: usize = 0;
    while k < records.len()
        invariant
            k <= records@.len(),
            records_total(records@) <= u64::MAX,
            groups_of(groups@, records@.subrange(0, k as int)),
            usage_total(groups@) == records_total(records@.subrange(0, k as int)),
        decreases records@.len() - k,
    {
        let ghost next = records@.subrange(0, k + 1);
        let ghost before = groups@;
        proof {
            assert(next.drop_last() =~= records@.subrange(0, k as int));
            assert(next.last() == records@[k as int]);
            lemma_records_prefix(records@, k + 1);
        }
        let name = extract_app_name(&records[k].name);
        let memory = records[k].memory;
        match find_group(&groups, &name) {
            Some(j) => {
                proof {
                    lemma_usage_element(groups@, j as int);
                }
                let total = groups[j].memory + memory;
                groups.set(j, AppUsage { name, memory: total });
                proof {
                    lemma_usage_update(before, j as int, groups@[j as int]);
                    lemma_join_group(before, groups@, next, j as int);
                }
            },
            None => {
                groups.push(AppUsage { name, memory });
                proof {
                    assert(groups@.drop_last() =~= before);
                    lemma_open_group(before, groups@, next);
                }
            },
        }
        k += 1;
    }
    assert(records@.subrange(0, k as int) =~= records@);
    groups
}

/// `x` stands somewhere in `s`.
pub open spec fn holds(s: Seq<AppUsage>, x: AppUsage) -> bool {
    exists|i: int| 0 <= i < s.len() && #[trigger] s[i] == x
}

/// Every group of `a` stands in `b`.
pub open spec fn contained_in(a: Seq<AppUsage>, b: Seq<AppUsage>) -> bool {
    forall|i: int| 0 <= i < a.len() ==> holds(b, #[trigger] a[i])
}

/// Where the element at index `j` was before the one at `b` was swapped out
/// with the last one, at `last`, and removed.
spec fn moved_from(j: int, b: int, last: int) -> int {
    if j == b {
        last
    } else {
        j
    }
}

/// Index of a group holding the most memory; `rest` must not be empty.
fn largest_group(rest: &Vec<AppUsage>) -> (b: usize)
    requires
        rest@.len() > 0,
    ensures
        b < rest@.len(),
        forall|j: int|
            0 <= j < rest@.len() ==> rest@[b as int].memory >= #[trigger] rest@[j].memory,
{
    let mut b: usize = 0;
    let mut j: usize = 1;
    while j < rest.len()
        invariant
            1 <= j <= rest@.len(),
            b < j,
            forall|i: int| 0 <= i < j ==> rest@[b as int].memory >= #[trigger] rest@[i].memory,
        decreases rest@.len() - j,
    {
        if rest[j].memory > rest[b].memory {
            b = j;
        }
        j += 1;
    }
    b
}

/// The same groups, ordered by memory from most to least.
fn rank_by_memory(groups: Vec<AppUsage>) -> (r: Vec<AppUsage>)
    requires
        distinct_names(groups@),
    ensures
        r@.len() == groups@.len(),
        contained_in(r@, groups@),
        contained_in(groups@, r@),
        distinct_names(r@),
        sorted_by_memory(r@),
        usage_total(r@) == usage_total(groups@),
{
    let ghost orig = groups@;
    let mut rest = groups;
    let mut out: Vec<AppUsage> = Vec::new();
    proof {
        assert forall|i: int| 0 <= i < orig.len() implies holds(rest@, #[trigger] orig[i]) by {
            assert(rest@[i] == orig[i]);
        }
    }
    while rest.len() > 0
        invariant
            out@.len() + rest@.len() == orig.len(),
            contained_in(out@, orig),
            contained_in(rest@, orig),
            forall|j: int|
                0 <= j < orig.len() ==> holds(out@, #[trigger] orig[j]) || holds(rest@, orig[j]),
            distinct_names(out@),
            distinct_names(rest@),
            forall|i: int, j: int|
                0 <= i < out@.len() && 0 <= j < rest@.len() ==> #[trigger] out@[i].name@
                    != #[trigger] rest@[j].name@
                    && out@[i].memory >= rest@[j].memory,
            sorted_by_memory(out@),
            usage_total(out@) + usage_total(rest@) == usage_total(orig),
        decreases rest@.len(),
    {
        let ghost old_rest = rest@;
        let ghost old_out = out@;
        let ghost last = old_rest.len() - 1;
        let b = largest_group(&rest);
        let e = rest.swap_remove(b);
        out.push(e);
        proof {
            let upd = old_rest.update(b as int, old_rest.last());
            lemma_usage_update(old_rest, b as int, old_rest.last());
            assert(upd.drop_last() == rest@);
            assert(upd.last() == old_rest.last());
            assert(out@.drop_last() =~= old_out);
            assert forall|j: int| 0 <= j < rest@.len() implies #[trigger] rest@[j]
                == old_rest[moved_from(j, b as int, last)] by {}
            assert forall|i: int| 0 <= i < out@.len() implies holds(orig, #[trigger] out@[i]) by {
                if i < old_out.len() {
                    assert(out@[i] == old_out[i]);
                } else {
                    assert(holds(orig, old_rest[b as int]));
                }
            }
            assert forall|j: int| 0 <= j < rest@.len() implies holds(orig, #[trigger] rest@[j]) by {
                assert(holds(orig, old_rest[moved_from(j, b as int, last)]));
            }
            assert forall|j: int| 0 <= j < orig.len() implies holds(out@, #[trigger] orig[j])
                || holds(rest@, orig[j]) by {
                if holds(old_out, orig[j]) {
                    let i = choose|i: int|
                        0 <= i < old_out.len() && #[trigger] old_out[i] == orig[j];
                    assert(out@[i] == old_out[i]);
                } else {
                    let i = choose|i: int|
                        0 <= i < old_rest.len() && #[trigger] old_rest[i] == orig[j];
                    if i == b {
                        assert(out@[old_out.len() as int] == orig[j]);
                    } else if i == last {
                        assert(rest@[b as int] == orig[j]);
                    } else {
                        assert(rest@[i] == orig[j]);
                    }
                }
            }
            assert forall|i: int, j: int|
                0 <= i < out@.len() && 0 <= j < out@.len() && i != j implies out@[i].name@
                != out@[j].name@ by {
                if i < old_out.len() && j < old_out.len() {
                    assert(out@[i] == old_out[i] && out@[j] == old_out[j]);
                } else if i < old_out.len() {
                    assert(out@[i] == old_out[i]);
                    assert(old_out[i].name@ != old_rest[b as int].name@);
                } else {
                    assert(out@[j] == old_out[j]);
                    assert(old_out[j].name@ != old_rest[b as int].name@);
                }
            }
            assert forall|i: int, j: int|
                0 <= i < rest@.len() && 0 <= j < rest@.len() && i != j implies rest@[i].name@
                != rest@[j].name@ by {
                assert(rest@[i] == old_rest[moved_from(i, b as int, last)]);
                assert(rest@[j] == old_rest[moved_from(j, b as int, last)]);
            }
            assert forall|i: int, j: int|
                0 <= i < out@.len() && 0 <= j < rest@.len() implies #[trigger] out@[i].name@
                != #[trigger] rest@[j].name@
                && out@[i].memory >= rest@[j].memory by {
                let oj = moved_from(j, b as int, last);
                assert(rest@[j] == old_rest[oj]);
                if i < old_out.len() {
                    assert(out@[i] == old_out[i]);
                    assert(old_out[i].name@ != old_rest[oj].name@);
                } else {
                    assert(old_rest[b as int].memory >= old_rest[oj].memory);
                }
            }
            assert forall|i: int, j: int| 0 <= i < j < out@.len() implies out@[i].memory
                >= out@[j].memory by {
                assert(out@[i] == old_out[i]);
                if j < old_out.len() {
                    assert(out@[j] == old_out[j]);
                } else {
                    assert(old_out[i].memory >= old_rest[b as int].memory);
                }
            }
        }
    }
    proof {
        assert forall|i: int| 0 <= i < orig.len() implies holds(out@, #[trigger] orig[i]) by {
            assert(!holds(rest@, orig[i]));
        }
    }
    out
}

/// Groups the records by application identity and ranks the groups by
/// memory, most first. The groups together hold all the records' memory.
pub fn aggregate(records: &Vec<ProcessRecord>) -> (r: Vec<AppUsage>)
    requires
        records_total(records@) <= u64::MAX,
    ensures
        groups_of(r@, records@),
        sorted_by_memory(r@),
        usage_total(r@) == records_total(records@),
{
    let groups = group_by_app(records);
    let ghost g = groups@;
    let ranked = rank_by_memory(groups);
    proof {
        assert forall|i: int| 0 <= i < ranked@.len() implies #[trigger] ranked@[i].memory
            == group_total(records@, ranked@[i].name@)
            && has_key(records@, ranked@[i].name@) by {
            assert(holds(g, ranked@[i]));
            let j = choose|j: int| 0 <= j < g.len() && #[trigger] g[j] == ranked@[i];
            assert(g[j].memory == group_total(records@, g[j].name@));
        }
        assert forall|k: int| 0 <= k < records@.len() implies has_group(
            ranked@,
            normalized_name(#[trigger] records@[k].name@),
        ) by {
            assert(has_group(g, normalized_name(records@[k].name@)));
            let key = normalized_name(records@[k].name@);
            let j = choose|j: int| 0 <= j < g.len() && #[trigger] g[j].name@ == key;
            assert(holds(ranked@, g[j]));
            let i = choose|i: int| 0 <= i < ranked@.len() && #[trigger] ranked@[i] == g[j];
            assert(ranked@[i].name@ == normalized_name(records@[k].name@));
        }
    }
    ranked
}

} // verus!
