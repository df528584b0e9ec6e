//! Properties of a loaded catalog, of the data-table plans and of the rows
//! written, stated over the specifications of the functions that compute
//! them.
use vstd::prelude::*;
use crate::catalog::{
    add_to_group, band_after, count_in, grouping, key_table_name, lemma_find_group, names_unique, SolutionDataset,
};
use crate::load::derivations_hold;
use crate::naming::{
    lemma_table_name_parts, name_parts, table_name_of, no_sep, period_name_of, phase_name_of, qualified_collection_name, separable,
    underscored,
};
use crate::model::{Key, KeyIndex, Membership};
use crate::plan::{bucket, lemma_first_min_range, lemma_lpt_loads_len, lpt_loads, lpt_worker, nonempty_buckets};
use crate::plan::sum_lengths;
use crate::rows::{
    all_blocks, block_id_of, file_bytes, file_covers, key_blocks, key_outcome, row_of, rows_of_keys, table_keys,
    table_reads, total_values, DataError, DataRow, KeyRead, TableWriter,
};

verus! {

proof fn lemma_band_after(keys: Seq<Key>, pid: i64, start: i64, n: int)
    requires
        0 <= n <= keys.len(),
    ensures
        band_after(keys, pid, start, n) >= start,
        forall|j: int| 0 <= j < n && keys[j].property_id == pid ==> keys[j].band_id <= band_after(keys, pid, start, n),
        band_after(keys, pid, start, n) == start || exists|j: int|
            0 <= j < n && keys[j].property_id == pid && keys[j].band_id == band_after(keys, pid, start, n),
    decreases n,
{
    if n > 0 {
        lemma_band_after(keys, pid, start, n - 1);
    }
}

/// In a loaded catalog each property's band is the largest band of its keys,
/// where one is at least 0; it is 0 where the property has no key or only
/// keys of negative band.
pub proof fn lemma_property_band_is_max(d: SolutionDataset, i: int)
    requires
        derivations_hold(d),
        d.wf(),
        0 <= i < d.property.ids().len(),
    ensures
        forall|j: int|
            0 <= j < d.key.rows().len() && d.key.rows()[j].property_id == d.property.ids()[i] ==> d.key.rows()[j].band_id
                <= d.property.rows()[i].band_id,
        d.property.rows()[i].band_id == 0 || exists|j: int|
            0 <= j < d.key.rows().len() && d.key.rows()[j].property_id == d.property.ids()[i]
                && d.key.rows()[j].band_id == d.property.rows()[i].band_id,
        d.property.rows()[i].band_id >= 0,
{
    assert(d.property.rows()[i].band_id == band_after(d.key.rows(), d.property.ids()[i], 0, d.key.rows().len() as int));
    lemma_band_after(d.key.rows(), d.property.ids()[i], 0, d.key.rows().len() as int);
}

/// Some membership among the first `n` of collection `cid` has `k` earlier
/// memberships of that collection.
pub open spec fn numbered(ms: Seq<Membership>, cid: i64, n: int, k: int) -> bool {
    exists|i: int| 0 <= i < n && ms[i].collection_id == cid && count_in(ms, cid, i) == k
}

/// Some membership of collection `cid` has number `k`.
pub open spec fn has_member_numbered(ms: Seq<Membership>, cid: i64, k: int) -> bool {
    exists|i: int| 0 <= i < ms.len() && ms[i].collection_id == cid && ms[i].collection_idx == k
}

proof fn lemma_count_in_numbers(ms: Seq<Membership>, cid: i64, n: int)
    requires
        0 <= n <= ms.len(),
    ensures
        forall|i: int| 0 <= i < n && ms[i].collection_id == cid ==> count_in(ms, cid, i) < count_in(ms, cid, n),
        forall|k: int| 0 <= k < count_in(ms, cid, n) ==> #[trigger] numbered(ms, cid, n, k),
    decreases n,
{
    if n > 0 {
        lemma_count_in_numbers(ms, cid, n - 1);
        assert forall|k: int| 0 <= k < count_in(ms, cid, n) implies #[trigger] numbered(ms, cid, n, k) by {
            if k < count_in(ms, cid, n - 1) {
                assert(numbered(ms, cid, n - 1, k));
                let i = choose|i: int| 0 <= i < n - 1 && ms[i].collection_id == cid && count_in(ms, cid, i) == k;
                assert(0 <= i < n && ms[i].collection_id == cid && count_in(ms, cid, i) == k);
            } else {
                assert(ms[n - 1].collection_id == cid && count_in(ms, cid, n - 1) == k);
            }
        }
    }
}

/// In a loaded catalog the members of a collection are numbered 0 to
/// `n_members - 1`, each number taken by exactly one membership, and
/// `n_members` is the number of memberships of the collection.
pub proof fn lemma_collection_numbering(d: SolutionDataset, c: int)
    requires
        derivations_hold(d),
        d.wf(),
        0 <= c < d.collection.ids().len(),
    ensures
        d.collection.rows()[c].n_members as int == count_in(
            d.membership.rows(),
            d.collection.ids()[c],
            d.membership.rows().len() as int,
        ),
        forall|i: int|
            0 <= i < d.membership.rows().len() && d.membership.rows()[i].collection_id == d.collection.ids()[c]
                ==> d.membership.rows()[i].collection_idx < d.collection.rows()[c].n_members,
        forall|k: int|
            0 <= k < d.collection.rows()[c].n_members ==> #[trigger] has_member_numbered(
                d.membership.rows(),
                d.collection.ids()[c],
                k,
            ),
        forall|i: int, j: int|
            0 <= i < j < d.membership.rows().len() && d.membership.rows()[i].collection_id == d.collection.ids()[c]
                && d.membership.rows()[j].collection_id == d.collection.ids()[c] ==> d.membership.rows()[i].collection_idx
                < d.membership.rows()[j].collection_idx,
{
    let ms = d.membership.rows();
    let cid = d.collection.ids()[c];
    let n = ms.len() as int;
    lemma_count_in_numbers(ms, cid, n);
    assert forall|i: int| 0 <= i <= n implies #[trigger] count_in(ms, cid, i) <= n by {
        lemma_count_le(ms, cid, i);
    }
    assert forall|k: int| 0 <= k < d.collection.rows()[c].n_members implies #[trigger] has_member_numbered(ms, cid, k) by {
        assert(numbered(ms, cid, n, k));
        let i = choose|i: int| 0 <= i < n && ms[i].collection_id == cid && count_in(ms, cid, i) == k;
        assert(ms[i].collection_idx as int == count_in(ms, cid, i));
    }
    assert forall|i: int, j: int|
        0 <= i < j < n && ms[i].collection_id == cid && ms[j].collection_id == cid implies ms[i].collection_idx
        < ms[j].collection_idx by {
        lemma_count_mono(ms, cid, i + 1, j);
        assert(ms[i].collection_idx as int == count_in(ms, cid, i));
        assert(ms[j].collection_idx as int == count_in(ms, cid, j));
    }
}

proof fn lemma_count_le(ms: Seq<Membership>, cid: i64, n: int)
    requires
        0 <= n <= ms.len(),
    ensures
        count_in(ms, cid, n) <= n,
    decreases n,
{
    if n > 0 {
        lemma_count_le(ms, cid, n - 1);
    }
}

proof fn lemma_count_mono(ms: Seq<Membership>, cid: i64, a: int, b: int)
    requires
        0 <= a <= b <= ms.len(),
    ensures
        count_in(ms, cid, a) <= count_in(ms, cid, b),
    decreases b - a,
{
    if a < b {
        lemma_count_mono(ms, cid, a, b - 1);
    }
}

proof fn lemma_all_blocks_len(reads: Seq<KeyRead>, n: int)
    requires
        0 <= n <= reads.len(),
    ensures
        all_blocks(reads, n).len() == total_values(reads, n),
        forall|i: int| 0 <= i < n ==> 0 <= #[trigger] total_values(reads, i) && total_values(reads, i) + reads[i].length <= total_values(reads, n),
        forall|i: int|
            0 <= i < n ==> all_blocks(reads, n).subrange(
                total_values(reads, i),
                total_values(reads, i) + reads[i].length,
            ) == key_blocks(#[trigger] reads[i]),
    decreases n,
{
    if n > 0 {
        lemma_all_blocks_len(reads, n - 1);
        let prev = all_blocks(reads, n - 1);
        let cur = all_blocks(reads, n);
        assert forall|i: int| 0 <= i < n implies cur.subrange(
            total_values(reads, i),
            total_values(reads, i) + reads[i].length,
        ) == key_blocks(#[trigger] reads[i]) by {
            if i < n - 1 {
                assert(cur.subrange(total_values(reads, i), total_values(reads, i) + reads[i].length) =~= prev.subrange(
                    total_values(reads, i),
                    total_values(reads, i) + reads[i].length,
                ));
            } else {
                assert(cur.subrange(total_values(reads, i), total_values(reads, i) + reads[i].length) =~= key_blocks(
                    reads[i],
                ));
            }
        }
    }
}

/// Once a table writer is done, the rows it handed out are, key after key in
/// plan order, those of blocks `period_offset + 1` to `period_offset + length`
/// of each key, each once and in increasing order; their number is the sum of
/// the keys' lengths.
pub proof fn lemma_table_rows(w: TableWriter)
    requires
        w.inv(),
        w.done(),
    ensures
        w.emitted().len() == total_values(w.reads(), w.reads().len() as int),
        forall|i: int|
            0 <= i < w.reads().len() ==> w.emitted().subrange(
                total_values(w.reads(), i),
                total_values(w.reads(), i) + w.reads()[i].length,
            ) == key_blocks(#[trigger] w.reads()[i]),
        forall|i: int, j: int|
            0 <= i < w.reads().len() && 0 <= j < w.reads()[i].length ==> #[trigger] key_blocks(w.reads()[i])[j] == (
            w.reads()[i].key_id,
            block_id_of(w.reads()[i].period_offset, j) as i64,
        ),
{
    assert(w.emitted() =~= all_blocks(w.reads(), w.reads().len() as int));
    lemma_all_blocks_len(w.reads(), w.reads().len() as int);
}

proof fn lemma_bucket(a: Seq<usize>, w: int, n: int)
    requires
        0 <= n <= a.len(),
        a.len() <= usize::MAX,
    ensures
        forall|q: int| 0 <= q < bucket(a, w, n as nat).len() ==> (#[trigger] bucket(a, w, n as nat)[q]) < n && a[bucket(a, w, n as nat)[q] as int] == w,
        forall|i: int| 0 <= i < n && a[i] == w ==> #[trigger] bucket(a, w, n as nat).contains(i as usize),
        bucket(a, w, n as nat).no_duplicates(),
    decreases n,
{
    if n > 0 {
        lemma_bucket(a, w, n - 1);
        let b = bucket(a, w, (n - 1) as nat);
        if a[n - 1] == w {
            assert forall|i: int| 0 <= i < n && a[i] == w implies #[trigger] bucket(a, w, n as nat).contains(i as usize) by {
                if i < n - 1 {
                    assert(b.contains(i as usize));
                    let q = choose|q: int| 0 <= q < b.len() && b[q] == i as usize;
                    assert(bucket(a, w, n as nat)[q] == i as usize);
                } else {
                    assert(bucket(a, w, n as nat)[b.len() as int] == i as usize);
                }
            }
        } else {
            assert forall|i: int| 0 <= i < n && a[i] == w implies #[trigger] bucket(a, w, n as nat).contains(i as usize) by {
                assert(i < n - 1);
                assert(b.contains(i as usize));
            }
        }
    }
}

/// Every plan goes to one of the `w` writers.
pub proof fn lemma_worker_in_range(est: Seq<u128>, w: nat, i: nat)
    requires
        w >= 1,
    ensures
        0 <= lpt_worker(est, w, i) < w,
{
    lemma_lpt_loads_len(est, w, i);
    lemma_first_min_range(lpt_loads(est, w, i), w);
}

/// Plan `i` is in one of the buckets.
pub open spec fn in_some_bucket(bs: Seq<Seq<usize>>, i: int) -> bool {
    exists|b: int| 0 <= b < bs.len() && #[trigger] bs[b].contains(i as usize)
}

/// Whatever the number of writers, the buckets of the writers hold each plan
/// exactly once: every plan is written once, by one writer, so each table
/// gets the same rows as when one writer writes them all.
pub proof fn lemma_buckets_partition(a: Seq<usize>, w: nat)
    requires
        a.len() <= usize::MAX,
        forall|i: int| 0 <= i < a.len() ==> (#[trigger] a[i]) < w,
    ensures
        forall|i: int| 0 <= i < a.len() ==> #[trigger] in_some_bucket(nonempty_buckets(a, w), i),
        forall|b: int, c: int, i: usize|
            0 <= b < c < nonempty_buckets(a, w).len() ==> !(#[trigger] nonempty_buckets(a, w)[b].contains(i)
                && #[trigger] nonempty_buckets(a, w)[c].contains(i)),
        forall|b: int| 0 <= b < nonempty_buckets(a, w).len() ==> (#[trigger] nonempty_buckets(a, w)[b]).no_duplicates(),
{
    lemma_nonempty_buckets(a, w);
}

/// The writer whose bucket is the `b`-th non-empty one.
spec fn bucket_owner(a: Seq<usize>, k: nat, b: int) -> int
    decreases k,
{
    if k == 0 {
        -1
    } else {
        let p = nonempty_buckets(a, (k - 1) as nat);
        if bucket(a, k - 1, a.len()).len() > 0 && b == p.len() {
            k - 1
        } else {
            bucket_owner(a, (k - 1) as nat, b)
        }
    }
}

proof fn lemma_nonempty_buckets(a: Seq<usize>, k: nat)
    requires
        a.len() <= usize::MAX,
    ensures
        forall|b: int|
            0 <= b < nonempty_buckets(a, k).len() ==> 0 <= #[trigger] bucket_owner(a, k, b) < k && nonempty_buckets(
                a,
                k,
            )[b] == bucket(a, bucket_owner(a, k, b), a.len()),
        forall|b: int, c: int|
            0 <= b < c < nonempty_buckets(a, k).len() ==> #[trigger] bucket_owner(a, k, b) < #[trigger] bucket_owner(
                a,
                k,
                c,
            ),
        forall|b: int| 0 <= b < nonempty_buckets(a, k).len() ==> (#[trigger] nonempty_buckets(a, k)[b]).no_duplicates(),
        forall|b: int, c: int, i: usize|
            0 <= b < c < nonempty_buckets(a, k).len() ==> !(#[trigger] nonempty_buckets(a, k)[b].contains(i)
                && #[trigger] nonempty_buckets(a, k)[c].contains(i)),
        forall|i: int| 0 <= i < a.len() && a[i] < k ==> #[trigger] in_some_bucket(nonempty_buckets(a, k), i),
    decreases k,
{
    if k > 0 {
        lemma_nonempty_buckets(a, (k - 1) as nat);
        let p = nonempty_buckets(a, (k - 1) as nat);
        let bk = bucket(a, k - 1, a.len());
        lemma_bucket(a, k - 1, a.len() as int);
        assert forall|b: int| 0 <= b < nonempty_buckets(a, k).len() implies 0 <= #[trigger] bucket_owner(a, k, b) < k
            && nonempty_buckets(a, k)[b] == bucket(a, bucket_owner(a, k, b), a.len()) by {
            if b < p.len() {
                assert(bucket_owner(a, k, b) == bucket_owner(a, (k - 1) as nat, b));
                assert(nonempty_buckets(a, k)[b] == p[b]);
            } else {
                assert(bk.len() > 0);
                assert(bucket_owner(a, k, b) == k - 1);
                assert(nonempty_buckets(a, k)[b] == bk);
            }
        }
        assert forall|b: int, c: int| 0 <= b < c < nonempty_buckets(a, k).len() implies #[trigger] bucket_owner(a, k, b)
            < #[trigger] bucket_owner(a, k, c) by {
            assert(bucket_owner(a, k, b) == bucket_owner(a, (k - 1) as nat, b));
            assert(0 <= bucket_owner(a, (k - 1) as nat, b) < k - 1);
            if c < p.len() {
                assert(bucket_owner(a, k, c) == bucket_owner(a, (k - 1) as nat, c));
            } else {
                assert(bucket_owner(a, k, c) == k - 1);
            }
        }
        assert forall|b: int| 0 <= b < nonempty_buckets(a, k).len() implies (#[trigger] nonempty_buckets(a, k)[b]).no_duplicates() by {
            lemma_bucket(a, bucket_owner(a, k, b), a.len() as int);
        }
        assert forall|b: int, c: int, i: usize|
            0 <= b < c < nonempty_buckets(a, k).len() implies !(#[trigger] nonempty_buckets(a, k)[b].contains(i)
                && #[trigger] nonempty_buckets(a, k)[c].contains(i)) by {
            if c < p.len() {
                assert(nonempty_buckets(a, k)[b] == p[b]);
                assert(nonempty_buckets(a, k)[c] == p[c]);
            } else {
                let ob = bucket_owner(a, k, b);
                assert(ob == bucket_owner(a, (k - 1) as nat, b));
                assert(0 <= bucket_owner(a, (k - 1) as nat, b) < k - 1);
                lemma_bucket(a, ob, a.len() as int);
                assert(nonempty_buckets(a, k)[c] == bk);
                assert(nonempty_buckets(a, k)[b] == bucket(a, ob, a.len()));
                if nonempty_buckets(a, k)[b].contains(i) && nonempty_buckets(a, k)[c].contains(i) {
                    let nb = bucket(a, ob, a.len());
                    let q = choose|q: int| 0 <= q < nb.len() && nb[q] == i;
                    let r = choose|r: int| 0 <= r < bk.len() && bk[r] == i;
                    assert(a[nb[q] as int] == ob);
                    assert(a[bk[r] as int] == k - 1);
                }
            }
        }
        assert forall|i: int| 0 <= i < a.len() && a[i] < k implies #[trigger] in_some_bucket(nonempty_buckets(a, k), i) by {
            if a[i] < k - 1 {
                assert(in_some_bucket(p, i));
                let b = choose|b: int| 0 <= b < p.len() && #[trigger] p[b].contains(i as usize);
                assert(nonempty_buckets(a, k)[b] == p[b]);
            } else {
                assert(bk.contains(i as usize));
                assert(nonempty_buckets(a, k)[p.len() as int] == bk);
            }
        }
    }
}

/// The table name of the `i`-th key index of `d`.
pub open spec fn name_at(d: SolutionDataset, i: int) -> Seq<char> {
    key_table_name(d, d.key_index.rows()[i])->Ok_0
}

/// Some group is named `name` and holds key `id`.
pub open spec fn in_group(groups: Seq<(Seq<char>, Seq<i64>)>, name: Seq<char>, id: i64) -> bool {
    exists|g: int| 0 <= g < groups.len() && groups[g].0 == name && #[trigger] groups[g].1.contains(id)
}

/// One of the first `n` key indexes of `d` has table name `name`.
pub open spec fn named_by(d: SolutionDataset, n: int, name: Seq<char>) -> bool {
    exists|i: int| 0 <= i < n && #[trigger] name_at(d, i) == name
}

/// The grouping of keys into data tables: the table name of every key index
/// names a group that holds its key; every group is named after one of the
/// key indexes; no two groups share a name.
pub proof fn lemma_grouping(d: SolutionDataset, n: int)
    requires
        0 <= n <= d.key_index.rows().len(),
    ensures
        names_unique(grouping(d, n)),
        forall|i: int|
            0 <= i < n ==> #[trigger] in_group(grouping(d, n), name_at(d, i), d.key_index.rows()[i].key_id),
        forall|g: int| 0 <= g < grouping(d, n).len() ==> named_by(d, n, #[trigger] grouping(d, n)[g].0),
    decreases n,
{
    if n > 0 {
        lemma_grouping(d, n - 1);
        let prev = grouping(d, n - 1);
        let cur = grouping(d, n);
        let nm = name_at(d, n - 1);
        let id = d.key_index.rows()[n - 1].key_id;
        lemma_find_group(prev, nm, prev.len() as int);
        assert(cur == add_to_group(prev, nm, id));
        assert forall|a: int, b: int| 0 <= a < b < cur.len() implies cur[a].0 != cur[b].0 by {
            if b < prev.len() {
                assert(cur[a].0 == prev[a].0 && cur[b].0 == prev[b].0);
            }
        }
        assert forall|i: int| 0 <= i < n implies #[trigger] in_group(cur, name_at(d, i), d.key_index.rows()[i].key_id) by {
            if i < n - 1 {
                assert(in_group(prev, name_at(d, i), d.key_index.rows()[i].key_id));
                let g = choose|g: int|
                    0 <= g < prev.len() && prev[g].0 == name_at(d, i) && #[trigger] prev[g].1.contains(
                        d.key_index.rows()[i].key_id,
                    );
                let q = choose|q: int| 0 <= q < prev[g].1.len() && prev[g].1[q] == d.key_index.rows()[i].key_id;
                assert(cur[g].0 == prev[g].0);
                assert(cur[g].1[q] == prev[g].1[q]);
                assert(cur[g].1.contains(d.key_index.rows()[i].key_id));
            } else {
                let fg = crate::catalog::find_group(prev, nm, prev.len() as int);
                if fg >= 0 {
                    assert(cur[fg].1 == prev[fg].1.push(id));
                    assert(cur[fg].1[prev[fg].1.len() as int] == id);
                    assert(cur[fg].1.contains(id));
                } else {
                    assert(cur[prev.len() as int].1 == seq![id]);
                    assert(cur[prev.len() as int].1[0] == id);
                    assert(cur[prev.len() as int].1.contains(id));
                }
            }
        }
        assert forall|g: int| 0 <= g < cur.len() implies named_by(d, n, #[trigger] cur[g].0) by {
            if g < prev.len() {
                assert(cur[g].0 == prev[g].0);
                assert(named_by(d, n - 1, prev[g].0));
                let i = choose|i: int| 0 <= i < n - 1 && #[trigger] name_at(d, i) == prev[g].0;
                assert(name_at(d, i) == cur[g].0);
            } else {
                assert(name_at(d, n - 1) == cur[g].0);
            }
        }
    }
}

/// The estimate of a table's plan is the number of rows that its writer
/// produces: the sum of the lengths of its keys.
pub proof fn lemma_plan_estimate(ds: SolutionDataset, ids: Seq<i64>, keys: Seq<Key>, reads: Seq<KeyRead>, n: int)
    requires
        0 <= n <= ids.len(),
        ids.len() == keys.len(),
        keys.len() == reads.len(),
        forall|i: int|
            0 <= i < ids.len() ==> #[trigger] key_outcome(ds, ids[i]) == Ok::<(Key, KeyRead), DataError>(
                (keys[i], reads[i]),
            ),
    ensures
        sum_lengths(ids.take(n), ds.key_index) == Some(total_values(reads, n)),
    decreases n,
{
    if n > 0 {
        lemma_plan_estimate(ds, ids, keys, reads, n - 1);
        assert(ids.take(n).drop_last() =~= ids.take(n - 1));
        assert(key_outcome(ds, ids[n - 1]) == Ok::<(Key, KeyRead), DataError>((keys[n - 1], reads[n - 1])));
    } else {
        assert(ids.take(0) =~= Seq::<i64>::empty());
    }
}

/// Key `id` is the key of one of the first `n` key indexes of `d`, and that
/// key index has table name `name`.
pub open spec fn filed_at(d: SolutionDataset, n: int, name: Seq<char>, id: i64) -> bool {
    exists|i: int| 0 <= i < n && #[trigger] d.key_index.rows()[i].key_id == id && name_at(d, i) == name
}

proof fn lemma_key_index_ids(d: SolutionDataset)
    requires
        d.wf(),
    ensures
        forall|i: int|
            0 <= i < d.key_index.rows().len() ==> (#[trigger] d.key_index.rows()[i]).key_id == d.key_index.ids()[i],
{
    assert forall|i: int| 0 <= i < d.key_index.rows().len() implies (#[trigger] d.key_index.rows()[i]).key_id
        == d.key_index.ids()[i] by {
        d.key_index.lemma_index_of(d.key_index.ids()[i], i);
    }
}

/// In the grouping of a well-formed catalog each group lists keys whose key
/// index has the group's name, in strictly ascending order, and no key is in
/// two groups.
pub proof fn lemma_grouping_keys(d: SolutionDataset, n: int)
    requires
        d.wf(),
        0 <= n <= d.key_index.rows().len(),
    ensures
        forall|g: int, q: int|
            0 <= g < grouping(d, n).len() && 0 <= q < grouping(d, n)[g].1.len() ==> #[trigger] filed_at(
                d,
                n,
                grouping(d, n)[g].0,
                grouping(d, n)[g].1[q],
            ),
        forall|g: int, q: int, r: int|
            0 <= g < grouping(d, n).len() && 0 <= q < r < grouping(d, n)[g].1.len() ==> #[trigger] grouping(d, n)[g].1[q]
                < #[trigger] grouping(d, n)[g].1[r],
        forall|g: int, h: int, id: i64|
            0 <= g < h < grouping(d, n).len() ==> !(#[trigger] grouping(d, n)[g].1.contains(id)
                && #[trigger] grouping(d, n)[h].1.contains(id)),
    decreases n,
{
    lemma_key_index_ids(d);
    lemma_grouping(d, n);
    if n > 0 {
        lemma_grouping_keys(d, n - 1);
        lemma_grouping(d, n - 1);
        let prev = grouping(d, n - 1);
        let cur = grouping(d, n);
        let nm = name_at(d, n - 1);
        let id = d.key_index.rows()[n - 1].key_id;
        lemma_find_group(prev, nm, prev.len() as int);
        let fg = crate::catalog::find_group(prev, nm, prev.len() as int);
        assert(cur == add_to_group(prev, nm, id));
        assert forall|g: int, q: int| 0 <= g < cur.len() && 0 <= q < cur[g].1.len() implies #[trigger] filed_at(
            d,
            n,
            cur[g].0,
            cur[g].1[q],
        ) by {
            if g < prev.len() && q < prev[g].1.len() {
                assert(cur[g].0 == prev[g].0 && cur[g].1[q] == prev[g].1[q]);
                assert(filed_at(d, n - 1, prev[g].0, prev[g].1[q]));
                let i = choose|i: int|
                    0 <= i < n - 1 && #[trigger] d.key_index.rows()[i].key_id == prev[g].1[q] && name_at(d, i) == prev[g].0;
                assert(d.key_index.rows()[i].key_id == cur[g].1[q]);
            } else {
                assert(cur[g].1[q] == id && cur[g].0 == nm);
                assert(d.key_index.rows()[n - 1].key_id == cur[g].1[q]);
            }
        }
        assert forall|g: int, q: int, r: int| 0 <= g < cur.len() && 0 <= q < r < cur[g].1.len() implies #[trigger] cur[g].1[q]
            < #[trigger] cur[g].1[r] by {
            if g < prev.len() && r < prev[g].1.len() {
                assert(cur[g].1[q] == prev[g].1[q] && cur[g].1[r] == prev[g].1[r]);
            } else if g < prev.len() {
                assert(cur[g].1[r] == id);
                assert(cur[g].1[q] == prev[g].1[q]);
                assert(filed_at(d, n - 1, prev[g].0, prev[g].1[q]));
                let i = choose|i: int|
                    0 <= i < n - 1 && #[trigger] d.key_index.rows()[i].key_id == prev[g].1[q] && name_at(d, i) == prev[g].0;
                assert(d.key_index.ids()[i] < d.key_index.ids()[n - 1]);
            } else {
                assert(cur[g].1.len() == 1);
            }
        }
        assert forall|g: int, h: int, x: i64| 0 <= g < h < cur.len() implies !(#[trigger] cur[g].1.contains(x)
            && #[trigger] cur[h].1.contains(x)) by {
            if cur[g].1.contains(x) && cur[h].1.contains(x) {
                let q = choose|q: int| 0 <= q < cur[g].1.len() && cur[g].1[q] == x;
                let r = choose|r: int| 0 <= r < cur[h].1.len() && cur[h].1[r] == x;
                assert(filed_at(d, n, cur[g].0, cur[g].1[q]));
                assert(filed_at(d, n, cur[h].0, cur[h].1[r]));
                let i = choose|i: int| 0 <= i < n && #[trigger] d.key_index.rows()[i].key_id == x && name_at(d, i) == cur[g].0;
                let j = choose|j: int| 0 <= j < n && #[trigger] d.key_index.rows()[j].key_id == x && name_at(d, j) == cur[h].0;
                if i < j {
                    assert(d.key_index.ids()[i] < d.key_index.ids()[j]);
                } else if j < i {
                    assert(d.key_index.ids()[j] < d.key_index.ids()[i]);
                }
                assert(names_unique(cur));
            }
        }
    }
}

proof fn lemma_rows_of_keys(keys: Seq<Key>, reads: Seq<KeyRead>, files: Seq<(i64, Vec<u8>)>, n: int)
    requires
        0 <= n <= reads.len(),
        n <= keys.len(),
    ensures
        rows_of_keys(keys, reads, files, n).len() == total_values(reads, n),
        forall|i: int| 0 <= i < n ==> 0 <= #[trigger] total_values(reads, i) && total_values(reads, i) + reads[i].length
            <= total_values(reads, n),
        forall|i: int, j: int|
            0 <= i < n && 0 <= j < reads[i].length ==> #[trigger] rows_of_keys(keys, reads, files, n)[total_values(
                reads,
                i,
            ) + j] == row_of(keys[i], reads[i], file_bytes(files, reads[i].period_type_id)->Some_0, j),
    decreases n,
{
    if n > 0 {
        lemma_rows_of_keys(keys, reads, files, n - 1);
        let prev = rows_of_keys(keys, reads, files, n - 1);
        let cur = rows_of_keys(keys, reads, files, n);
        assert forall|i: int, j: int| 0 <= i < n && 0 <= j < reads[i].length implies #[trigger] cur[total_values(
            reads,
            i,
        ) + j] == row_of(keys[i], reads[i], file_bytes(files, reads[i].period_type_id)->Some_0, j) by {
            if i < n - 1 {
                assert(cur[total_values(reads, i) + j] == prev[total_values(reads, i) + j]);
            }
        }
    }
}

/// The rows that `table_rows` produces when every key of the table can be
/// read: their number is the sum of the keys' lengths; the rows of the
/// `i`-th key come after those of the keys before it, and its `j`-th row has
/// block `period_offset + 1 + j` and the bits of the double stored at byte
/// `position + 8 * j` of its period file.
pub proof fn lemma_table_rows_from_files(ds: SolutionDataset, key_ids: Seq<i64>, files: Seq<(i64, Vec<u8>)>)
    requires
        forall|i: int|
            0 <= i < key_ids.len() ==> (#[trigger] key_outcome(ds, key_ids[i])) is Ok && file_covers(
                files,
                key_outcome(ds, key_ids[i])->Ok_0.1,
            ),
    ensures
        ({
            let keys = table_keys(ds, key_ids);
            let reads = table_reads(ds, key_ids);
            let rows = rows_of_keys(keys, reads, files, key_ids.len() as int);
            &&& rows.len() == total_values(reads, key_ids.len() as int)
            &&& sum_lengths(key_ids, ds.key_index) == Some(rows.len() as int)
            &&& forall|i: int, j: int|
                0 <= i < key_ids.len() && 0 <= j < reads[i].length ==> #[trigger] rows[total_values(reads, i) + j]
                    == row_of(keys[i], reads[i], file_bytes(files, reads[i].period_type_id)->Some_0, j)
            &&& forall|i: int, j: int|
                0 <= i < key_ids.len() && 0 <= j < reads[i].length ==> (#[trigger] rows[total_values(reads, i) + j]).block_id
                    == reads[i].period_offset + 1 + j
        }),
{
    let keys = table_keys(ds, key_ids);
    let reads = table_reads(ds, key_ids);
    let n = key_ids.len() as int;
    lemma_rows_of_keys(keys, reads, files, n);
    assert forall|i: int| 0 <= i < n implies #[trigger] key_outcome(ds, key_ids[i]) == Ok::<(Key, KeyRead), DataError>(
        (keys[i], reads[i]),
    ) by {}
    lemma_plan_estimate(ds, key_ids, keys, reads, n);
    assert(key_ids.take(n) =~= key_ids);
    let rows = rows_of_keys(keys, reads, files, n);
    assert forall|i: int, j: int| 0 <= i < n && 0 <= j < reads[i].length implies (#[trigger] rows[total_values(
        reads,
        i,
    ) + j]).block_id == reads[i].period_offset + 1 + j by {
        crate::rows::lemma_read_block_fits(reads[i], j);
    }
}

/// The qualified collection name and the shown property name that the table
/// name of key index `ki` is made of, where its references resolve.
pub open spec fn key_name_sources(d: SolutionDataset, ki: KeyIndex) -> Option<(Seq<char>, Seq<char>)> {
    match d.key.lookup(ki.key_id) {
        None => None,
        Some(key) => match d.membership.lookup(key.membership_id) {
            None => None,
            Some(m) => match d.collection.lookup(m.collection_id) {
                None => None,
                Some(c) => match d.property.lookup(key.property_id) {
                    None => None,
                    Some(p) => {
                        let prefix = match c.complement_name {
                            Some(n) => Some(n@),
                            None => match d.class.lookup(c.parent_class_id) {
                                Some(cl) => Some(cl.name@),
                                None => None,
                            },
                        };
                        match prefix {
                            None => None,
                            Some(pre) => Some(
                                (
                                    qualified_collection_name(pre, c.name@),
                                    if key.is_summary {
                                        p.summary_name@
                                    } else {
                                        p.name@
                                    },
                                ),
                            ),
                        }
                    },
                },
            },
        },
    }
}

/// The name of key index `ki` can be split back: its qualified collection
/// name, underscored, holds no `__` and does not end in `_`, and its shown
/// property name, underscored, holds no `__`.
pub open spec fn splittable(d: SolutionDataset, ki: KeyIndex) -> bool {
    key_name_sources(d, ki) matches Some((c, p)) && separable(underscored(c)) && no_sep(underscored(p))
}

/// Table name `name` is the name of one of the first `n` key indexes of `d`,
/// and splits into that key index's phase, period kind, qualified collection
/// name and shown property name.
pub open spec fn splits_as_key(d: SolutionDataset, n: int, name: Seq<char>) -> bool {
    exists|i: int|
        0 <= i < n && #[trigger] name_at(d, i) == name && name_parts(name) == Some(
            (
                phase_name_of(d.key.lookup(d.key_index.rows()[i].key_id)->Some_0.phase_id),
                period_name_of(d.key_index.rows()[i].period_type_id),
                underscored(key_name_sources(d, d.key_index.rows()[i])->Some_0.0),
                underscored(key_name_sources(d, d.key_index.rows()[i])->Some_0.1),
            ),
        )
}

/// Every data table of the grouping, where each key index's name can be split
/// back, is named after a key index whose name splits into its phase, its
/// period kind, its qualified collection name and its shown property name.
pub proof fn lemma_grouping_names_split(d: SolutionDataset, n: int)
    requires
        0 <= n <= d.key_index.rows().len(),
        forall|i: int| 0 <= i < n ==> #[trigger] splittable(d, d.key_index.rows()[i]),
    ensures
        forall|g: int| 0 <= g < grouping(d, n).len() ==> #[trigger] splits_as_key(d, n, grouping(d, n)[g].0),
{
    lemma_grouping(d, n);
    assert forall|g: int| 0 <= g < grouping(d, n).len() implies #[trigger] splits_as_key(d, n, grouping(d, n)[g].0) by {
        assert(named_by(d, n, grouping(d, n)[g].0));
        let i = choose|i: int| 0 <= i < n && #[trigger] name_at(d, i) == grouping(d, n)[g].0;
        let ki = d.key_index.rows()[i];
        assert(splittable(d, ki));
        let src = key_name_sources(d, ki)->Some_0;
        let key = d.key.lookup(ki.key_id)->Some_0;
        assert(name_at(d, i) == table_name_of(phase_name_of(key.phase_id), period_name_of(ki.period_type_id), src.0, src.1));
        lemma_table_name_parts(key.phase_id, ki.period_type_id, src.0, src.1);
    }
}

} // verus!
