//! Planning of the data-table writes: one plan per table, ordered by
//! estimated work, the number of writers, and the assignment of plans to
//! writers by longest processing time first.
use vstd::prelude::*;
use crate::model::KeyIndex;
use crate::table::IdTable;
use crate::text::chars_of;

verus! {

broadcast use vstd::seq_lib::group_to_multiset_ensures;

/// Most writers chosen when no number is configured.
pub const MAX_AUTO_DATA_WRITE_THREADS: usize = 8;

/// The key identifiers of one data table, under its name.
#[derive(Debug)]
pub struct TableGroup {
    pub table_name: String,
    pub key_ids: Vec<i64>,
}

/// What is written into one data table.
#[derive(Debug)]
pub struct DataTableWritePlan {
    pub table_name: String,
    pub key_ids: Vec<i64>,
    /// The number of values of all its keys.
    pub estimated_values: u128,
}

/// `a` comes strictly before `b` in the order of code points.
pub open spec fn text_less(a: Seq<char>, b: Seq<char>) -> bool
    decreases a.len(),
{
    if a.len() == 0 {
        b.len() > 0
    } else if b.len() == 0 {
        false
    } else if (a[0] as int) < (b[0] as int) {
        true
    } else if a[0] == b[0] {
        text_less(a.drop_first(), b.drop_first())
    } else {
        false
    }
}

/// The total number of values of these keys, `None` where one has no index.
pub open spec fn sum_lengths(ids: Seq<i64>, key_index: IdTable<KeyIndex>) -> Option<int>
    decreases ids.len(),
{
    if ids.len() == 0 {
        Some(0)
    } else {
        match (sum_lengths(ids.drop_last(), key_index), key_index.lookup(ids.last())) {
            (Some(s), Some(ki)) => Some(s + ki.length),
            _ => None,
        }
    }
}

/// Plan `a` is written before plan `b`: more estimated values first, then
/// more keys, then the name.
pub open spec fn plan_precedes(a: DataTableWritePlan, b: DataTableWritePlan) -> bool {
    a.estimated_values > b.estimated_values || (a.estimated_values == b.estimated_values && (
    a.key_ids@.len() > b.key_ids@.len() || (a.key_ids@.len() == b.key_ids@.len() && text_less(
        a.table_name@,
        b.table_name@,
    ))))
}

pub open spec fn plans_ordered(s: Seq<DataTableWritePlan>) -> bool {
    forall|i: int, j: int| 0 <= i < j < s.len() ==> !plan_precedes(s[j], s[i])
}

pub proof fn lemma_text_less_asym(a: Seq<char>, b: Seq<char>)
    ensures
        text_less(a, b) ==> !text_less(b, a),
    decreases a.len(),
{
    if a.len() > 0 && b.len() > 0 && a[0] == b[0] {
        lemma_text_less_asym(a.drop_first(), b.drop_first());
    }
}

pub proof fn lemma_text_less_trans(a: Seq<char>, b: Seq<char>, c: Seq<char>)
    requires
        text_less(a, b),
        text_less(b, c),
    ensures
        text_less(a, c),
    decreases a.len(),
{
    if a.len() > 0 && b.len() > 0 && c.len() > 0 && a[0] == b[0] && b[0] == c[0] {
        lemma_text_less_trans(a.drop_first(), b.drop_first(), c.drop_first());
    }
}

/// Two different texts are ordered one way or the other.
pub proof fn lemma_text_less_total(a: Seq<char>, b: Seq<char>)
    requires
        !text_less(b, a),
        a != b,
    ensures
        text_less(a, b),
    decreases a.len(),
{
    if a.len() > 0 && b.len() > 0 && a[0] == b[0] {
        if a.drop_first() == b.drop_first() {
            assert(a =~= seq![a[0]] + a.drop_first());
            assert(b =~= seq![b[0]] + b.drop_first());
        }
        lemma_text_less_total(a.drop_first(), b.drop_first());
    } else if a.len() == 0 && b.len() == 0 {
        assert(a =~= b);
    } else if a.len() > 0 && b.len() > 0 {
        assert((a[0] as int) != (b[0] as int));
    }
}

proof fn lemma_precedes_order(a: DataTableWritePlan, b: DataTableWritePlan, c: DataTableWritePlan)
    ensures
        plan_precedes(a, b) ==> !plan_precedes(b, a),
        plan_precedes(a, b) && plan_precedes(b, c) ==> plan_precedes(a, c),
{
    lemma_text_less_asym(a.table_name@, b.table_name@);
    if text_less(a.table_name@, b.table_name@) && text_less(b.table_name@, c.table_name@) {
        lemma_text_less_trans(a.table_name@, b.table_name@, c.table_name@);
    }
}

/// Compares two names in the order of code points.
pub fn name_less(a: &str, b: &str) -> (r: bool)
    ensures
        r == text_less(a@, b@),
{
    let x = chars_of(a);
    let y = chars_of(b);
    let mut i: usize = 0;
    assert(x@.skip(0) =~= x@);
    assert(y@.skip(0) =~= y@);
    while i < x.len() && i < y.len()
        invariant
            i <= x@.len(),
            i <= y@.len(),
            text_less(a@, b@) == text_less(x@.skip(i as int), y@.skip(i as int)),
            x@ == a@,
            y@ == b@,
        decreases x@.len() - i,
    {
        if x[i] < y[i] {
            return true;
        }
        if x[i] != y[i] {
            return false;
        }
        assert(x@.skip(i as int).drop_first() =~= x@.skip(i + 1));
        assert(y@.skip(i as int).drop_first() =~= y@.skip(i + 1));
        i = i + 1;
    }
    i == x.len() && i < y.len()
}

fn precedes(a: &DataTableWritePlan, b: &DataTableWritePlan) -> (r: bool)
    ensures
        r == plan_precedes(*a, *b),
{
    if a.estimated_values != b.estimated_values {
        return a.estimated_values > b.estimated_values;
    }
    if a.key_ids.len() != b.key_ids.len() {
        return a.key_ids.len() > b.key_ids.len();
    }
    name_less(a.table_name.as_str(), b.table_name.as_str())
}

/// The total number of values of the keys `ids`.
fn estimate(ids: &Vec<i64>, key_index: &IdTable<KeyIndex>) -> (r: Option<u128>)
    requires
        key_index.wf(),
    ensures
        match sum_lengths(ids@, *key_index) {
            Some(s) => r == Some(s as u128),
            None => r is None,
        },
{
    let mut total: u128 = 0;
    let mut i: usize = 0;
    while i < ids.len()
        invariant
            key_index.wf(),
            i <= ids@.len(),
            sum_lengths(ids@.take(i as int), *key_index) == Some(total as int),
            total <= i * 0xFFFF_FFFF_FFFF_FFFFu128,
        decreases ids@.len() - i,
    {
        assert(ids@.take(i + 1).drop_last() =~= ids@.take(i as int));
        match key_index.get(ids[i]) {
            Some(ki) => {
                total = total + ki.length as u128;
            },
            None => {
                proof {
                    lemma_sum_lengths_none(ids@, *key_index, i + 1);
                }
                return None;
            },
        }
        i = i + 1;
    }
    assert(ids@.take(i as int) =~= ids@);
    Some(total)
}

proof fn lemma_sum_lengths_none(ids: Seq<i64>, key_index: IdTable<KeyIndex>, k: int)
    requires
        0 < k <= ids.len(),
        sum_lengths(ids.take(k), key_index) is None,
    ensures
        sum_lengths(ids, key_index) is None,
    decreases ids.len() - k,
{
    if k < ids.len() {
        assert(ids.take(k + 1).drop_last() =~= ids.take(k));
        lemma_sum_lengths_none(ids, key_index, k + 1);
    } else {
        assert(ids.take(k) =~= ids);
    }
}

/// The plan that a table group becomes.
pub open spec fn plan_of(g: TableGroup, est: int) -> DataTableWritePlan {
    DataTableWritePlan { table_name: g.table_name, key_ids: g.key_ids, estimated_values: est as u128 }
}

/// The plan of a table group whose keys all have an index.
pub open spec fn plan_for(g: TableGroup, key_index: IdTable<KeyIndex>) -> DataTableWritePlan {
    plan_of(g, sum_lengths(g.key_ids@, key_index)->Some_0)
}

pub open spec fn planned(groups: Seq<TableGroup>, key_index: IdTable<KeyIndex>) -> Seq<DataTableWritePlan> {
    groups.map_values(|g: TableGroup| plan_for(g, key_index))
}

/// Every key of every group has an index.
pub open spec fn groups_indexed(groups: Seq<TableGroup>, key_index: IdTable<KeyIndex>) -> bool {
    forall|i: int| 0 <= i < groups.len() ==> (#[trigger] sum_lengths(groups[i].key_ids@, key_index)) is Some
}

/// Inserts `p` into the ordered `out` after every plan that it does not precede.
fn insert_ordered(out: &mut Vec<DataTableWritePlan>, p: DataTableWritePlan)
    requires
        plans_ordered(old(out)@),
    ensures
        plans_ordered(final(out)@),
        final(out)@.to_multiset() == old(out)@.to_multiset().insert(p),
{
    let mut k: usize = 0;
    while k < out.len() && !precedes(&p, &out[k])
        invariant
            k <= out@.len(),
            forall|j: int| 0 <= j < k ==> !plan_precedes(p, out@[j]),
        decreases out@.len() - k,
    {
        k = k + 1;
    }
    let ghost before = out@;
    proof {
        vstd::seq_lib::to_multiset_insert(before, k as int, p);
    }
    out.insert(k, p);
    proof {
        assert forall|i: int, j: int| 0 <= i < j < out@.len() implies !plan_precedes(out@[j], out@[i]) by {
            if j < k {
                assert(out@[i] == before[i] && out@[j] == before[j]);
            } else if j == k {
                assert(out@[i] == before[i]);
            } else if i < k {
                assert(out@[i] == before[i] && out@[j] == before[j - 1]);
            } else if i == k {
                assert(out@[j] == before[j - 1]);
                assert(plan_precedes(p, before[k as int]));
                lemma_precedes_order(p, before[k as int], before[j - 1]);
                lemma_precedes_order(before[j - 1], p, before[k as int]);
            } else {
                assert(out@[i] == before[i - 1] && out@[j] == before[j - 1]);
            }
        }
    }
}

/// One plan per table group, ordered by estimated values descending, then by
/// number of keys descending, then by name. `Err` holds the name of a table
/// with a key that has no index.
pub fn build_data_table_plans(groups: Vec<TableGroup>, key_index: &IdTable<KeyIndex>) -> (r: Result<
    Vec<DataTableWritePlan>,
    String,
>)
    requires
        key_index.wf(),
    ensures
        r is Ok <==> groups_indexed(groups@, *key_index),
        r matches Ok(plans) ==> {
            &&& plans_ordered(plans@)
            &&& plans@.to_multiset() == planned(groups@, *key_index).to_multiset()
        },
{
    let ghost all = groups@;
    let mut pending = groups;
    let mut out: Vec<DataTableWritePlan> = Vec::new();
    while pending.len() > 0
        invariant
            key_index.wf(),
            all == groups@,
            pending@ == all.take(pending@.len() as int),
            pending@.len() <= all.len(),
            forall|i: int| pending@.len() <= i < all.len() ==> (#[trigger] sum_lengths(all[i].key_ids@, *key_index)) is Some,
            plans_ordered(out@),
            out@.to_multiset() == planned(all.skip(pending@.len() as int), *key_index).to_multiset(),
        decreases pending@.len(),
    {
        let ghost n = pending@.len();
        let g = pending.pop().unwrap();
        assert(g == all[n - 1]);
        match estimate(&g.key_ids, key_index) {
            Some(est) => {
                let ghost g0 = g;
                let TableGroup { table_name, key_ids } = g;
                let p = DataTableWritePlan { table_name, key_ids, estimated_values: est };
                assert(sum_lengths(g0.key_ids@, *key_index) is Some);
                assert(p.table_name == g0.table_name);
                assert(p.key_ids == g0.key_ids);
                assert(p == plan_of(g0, sum_lengths(g0.key_ids@, *key_index)->Some_0));
                assert(p == plan_for(all[n - 1], *key_index));
                insert_ordered(&mut out, p);
                proof {
                    let s = planned(all.skip(n - 1), *key_index);
                    let t = planned(all.skip(n as int), *key_index);
                    assert(s =~= t.insert(0, plan_for(all[n - 1], *key_index)));
                    vstd::seq_lib::to_multiset_insert(t, 0, plan_for(all[n - 1], *key_index));
                }
            },
            None => {
                assert(sum_lengths(all[n - 1].key_ids@, *key_index) is None);
                assert(!groups_indexed(all, *key_index));

                return Err(g.table_name);
            },
        }
    }
    assert(all.skip(0) =~= all);
    Ok(out)
}

/// The number of writers for `total_tables` tables: the configured number, at
/// least 1; else the machine's parallelism, at most 8; never more than the
/// number of tables.
pub fn resolve_data_write_threads(total_tables: usize, configured_threads: Option<usize>, available: usize) -> (r: usize)
    ensures
        r == match configured_threads {
            Some(t) => vstd::math::min(vstd::math::max(t as int, 1), total_tables as int),
            None => vstd::math::min(
                vstd::math::min(available as int, MAX_AUTO_DATA_WRITE_THREADS as int),
                total_tables as int,
            ),
        },
{
    match configured_threads {
        Some(t) => {
            let t = if t < 1 {
                1
            } else {
                t
            };
            if t < total_tables {
                t
            } else {
                total_tables
            }
        },
        None => {
            let a = if available < MAX_AUTO_DATA_WRITE_THREADS {
                available
            } else {
                MAX_AUTO_DATA_WRITE_THREADS
            };
            if a < total_tables {
                a
            } else {
                total_tables
            }
        },
    }
}

/// `a + b`, or the largest `u128` where the sum exceeds it.
pub open spec fn sat_add(a: u128, b: u128) -> u128 {
    if a + b > u128::MAX {
        u128::MAX
    } else {
        (a + b) as u128
    }
}

/// The position of the first smallest of `l[0..k]`.
pub open spec fn first_min(l: Seq<u128>, k: nat) -> int
    decreases k,
{
    if k <= 1 {
        0
    } else {
        let m = first_min(l, (k - 1) as nat);
        if l[k - 1] < l[m] {
            k - 1
        } else {
            m
        }
    }
}

/// The loads of `w` writers after the first `n` plans, of these estimates,
/// have each gone to the writer with the smallest load (the first such).
pub open spec fn lpt_loads(est: Seq<u128>, w: nat, n: nat) -> Seq<u128>
    decreases n,
{
    if n == 0 {
        Seq::new(w, |i: int| 0u128)
    } else {
        let l = lpt_loads(est, w, (n - 1) as nat);
        let c = first_min(l, w);
        l.update(c, sat_add(l[c], est[n - 1]))
    }
}

/// The writer that plan `i` goes to.
pub open spec fn lpt_worker(est: Seq<u128>, w: nat, i: nat) -> int {
    first_min(lpt_loads(est, w, i), w)
}

/// The positions, in order, of the first `n` plans that go to writer `w`.
pub open spec fn bucket(a: Seq<usize>, w: int, n: nat) -> Seq<usize>
    decreases n,
{
    if n == 0 {
        Seq::empty()
    } else {
        let b = bucket(a, w, (n - 1) as nat);
        if a[n - 1] == w {
            b.push((n - 1) as usize)
        } else {
            b
        }
    }
}

/// The non-empty buckets of writers `0..k`, in writer order.
pub open spec fn nonempty_buckets(a: Seq<usize>, k: nat) -> Seq<Seq<usize>>
    decreases k,
{
    if k == 0 {
        Seq::empty()
    } else {
        let p = nonempty_buckets(a, (k - 1) as nat);
        let b = bucket(a, k - 1, a.len());
        if b.len() > 0 {
            p.push(b)
        } else {
            p
        }
    }
}

pub proof fn lemma_first_min_range(l: Seq<u128>, k: nat)
    requires
        1 <= k <= l.len(),
    ensures
        0 <= first_min(l, k) < k,
    decreases k,
{
    if k > 1 {
        lemma_first_min_range(l, (k - 1) as nat);
    }
}

pub proof fn lemma_lpt_loads_len(est: Seq<u128>, w: nat, n: nat)
    requires
        w >= 1,
    ensures
        lpt_loads(est, w, n).len() == w,
    decreases n,
{
    if n > 0 {
        lemma_lpt_loads_len(est, w, (n - 1) as nat);
        lemma_first_min_range(lpt_loads(est, w, (n - 1) as nat), w);
    }
}

/// The writer of each plan, of these estimates, among `worker_count` writers:
/// each plan in turn goes to the writer with the smallest load so far (the
/// first such), whose load then grows by the plan's estimate, saturating.
pub fn assign_workers(est: &Vec<u128>, worker_count: usize) -> (r: Vec<usize>)
    requires
        worker_count >= 1,
    ensures
        r@.len() == est@.len(),
        forall|i: int| 0 <= i < est@.len() ==> #[trigger] r@[i] == lpt_worker(est@, worker_count as nat, i as nat),
{
    let w = worker_count;
    let mut loads: Vec<u128> = Vec::new();
    while loads.len() < w
        invariant
            loads@.len() <= w,
            forall|j: int| 0 <= j < loads@.len() ==> loads@[j] == 0,
        decreases w - loads@.len(),
    {
        loads.push(0);
    }
    assert(loads@ =~= lpt_loads(est@, w as nat, 0));
    let mut r: Vec<usize> = Vec::new();
    let mut i: usize = 0;
    while i < est.len()
        invariant
            w >= 1,
            i <= est@.len(),
            r@.len() == i,
            loads@ == lpt_loads(est@, w as nat, i as nat),
            loads@.len() == w,
            forall|k: int| 0 <= k < i ==> #[trigger] r@[k] == lpt_worker(est@, w as nat, k as nat),
        decreases est@.len() - i,
    {
        let mut m: usize = 0;
        let mut j: usize = 1;
        while j < w
            invariant
                1 <= j <= w,
                loads@.len() == w,
                m as int == first_min(loads@, j as nat),
                m < j,
            decreases w - j,
        {
            if loads[j] < loads[m] {
                m = j;
            }
            j = j + 1;
        }
        let e = est[i];
        let cur = loads[m];
        let next = if cur > u128::MAX - e {
            u128::MAX
        } else {
            cur + e
        };
        loads.set(m, next);
        r.push(m);
        i = i + 1;
        proof {
            lemma_lpt_loads_len(est@, w as nat, i as nat);
        }
    }
    r
}

/// The plans of each writer, as positions in `plans`: the writers are those
/// of `assign_workers` on the plans' estimates, and only writers with at least
/// one plan are kept.
pub fn distribute_data_table_plans(plans: &Vec<DataTableWritePlan>, worker_count: usize) -> (r: Vec<Vec<usize>>)
    requires
        worker_count >= 1,
    ensures
        r@.map_values(|b: Vec<usize>| b@) == nonempty_buckets(
            Seq::new(plans@.len(), |i: int| lpt_worker(plans@.map_values(|p: DataTableWritePlan| p.estimated_values), worker_count as nat, i as nat) as usize),
            worker_count as nat,
        ),
{
    let mut est: Vec<u128> = Vec::new();
    let mut i: usize = 0;
    while i < plans.len()
        invariant
            i <= plans@.len(),
            est@ == plans@.map_values(|p: DataTableWritePlan| p.estimated_values).take(i as int),
        decreases plans@.len() - i,
    {
        est.push(plans[i].estimated_values);
        i = i + 1;
        assert(est@ =~= plans@.map_values(|p: DataTableWritePlan| p.estimated_values).take(i as int));
    }
    let ghost e = plans@.map_values(|p: DataTableWritePlan| p.estimated_values);
    assert(est@ =~= e);
    let a = assign_workers(&est, worker_count);
    assert(a@ =~= Seq::new(plans@.len(), |i: int| lpt_worker(e, worker_count as nat, i as nat) as usize));
    let mut out: Vec<Vec<usize>> = Vec::new();
    let mut w: usize = 0;
    while w < worker_count
        invariant
            w <= worker_count,
            out@.map_values(|b: Vec<usize>| b@) == nonempty_buckets(a@, w as nat),
        decreases worker_count - w,
    {
        let mut b: Vec<usize> = Vec::new();
        let mut k: usize = 0;
        while k < a.len()
            invariant
                k <= a@.len(),
                b@ == bucket(a@, w as int, k as nat),
            decreases a@.len() - k,
        {
            if a[k] == w {
                b.push(k);
            }
            k = k + 1;
        }
        let ghost prev = out@;
        if b.len() > 0 {
            out.push(b);
            assert(out@.map_values(|b: Vec<usize>| b@) =~= prev.map_values(|b: Vec<usize>| b@).push(bucket(a@, w as int, a@.len())));
        }
        w = w + 1;
    }
    out
}

} // verus!
