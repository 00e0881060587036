//! The order of branch records: most recent tip first, and among records
//! of equal recency the one that came first.

use crate::repo::branch_collecting::{spec_records, BranchRecord, RepoBranch};
use vstd::prelude::*;

verus! {

/// The key by which records are ordered: the time of the tip, or the least
/// integer where there is none.
pub open spec fn recency_key(t: Option<i64>) -> int {
    match t {
        Some(s) => s as int,
        None => i64::MIN as int,
    }
}

/// Whether no record stands before one with a more recent tip.
pub open spec fn sorted_by_recency(records: Seq<BranchRecord>) -> bool {
    forall|i: int, j: int|
        0 <= i < j < records.len() ==> recency_key(#[trigger] records[i].time) >= recency_key(
            #[trigger] records[j].time,
        )
}

/// The place at which a record with tip time `t` goes into a sorted list:
/// that of the first record that is not more recent, or the end.
pub open spec fn spec_insertion_point(sorted: Seq<BranchRecord>, t: Option<i64>) -> int
    decreases sorted.len(),
{
    if sorted.len() == 0 || recency_key(sorted[0].time) <= recency_key(t) {
        0
    } else {
        1 + spec_insertion_point(sorted.drop_first(), t)
    }
}

/// The records ordered by recency, those of equal recency in the order in
/// which they stand in `records`: the first record goes into the ordered
/// rest, before every record that is not more recent.
pub open spec fn spec_sorted_by_recency(records: Seq<BranchRecord>) -> Seq<BranchRecord>
    decreases records.len(),
{
    if records.len() == 0 {
        Seq::empty()
    } else {
        let rest = spec_sorted_by_recency(records.drop_first());
        rest.insert(spec_insertion_point(rest, records[0].time), records[0])
    }
}

/// Whether a record with tip time `a` may stand before one with tip time `b`.
pub fn comes_before(a: Option<i64>, b: Option<i64>) -> (r: bool)
    ensures
        r == (recency_key(a) >= recency_key(b)),
{
    match (a, b) {
        (_, None) => true,
        (None, Some(y)) => y == i64::MIN,
        (Some(x), Some(y)) => x >= y,
    }
}

/// Inserting a value into a sequence adds it once to what the sequence
/// holds.
pub proof fn lemma_insert_to_multiset<A>(s: Seq<A>, at: int, a: A)
    requires
        0 <= at <= s.len(),
    ensures
        s.insert(at, a).to_multiset() == s.to_multiset().insert(a),
{
    broadcast use vstd::seq_lib::group_to_multiset_ensures;

    let t = s.insert(at, a);
    assert(t.remove(at) =~= s);
    assert(t[at] == a);
    vstd::seq_lib::to_multiset_remove(t, at);
    assert(t.contains(a));
    assert(t.to_multiset().count(a) > 0);
    assert(t.to_multiset() =~= s.to_multiset().insert(a));
}

/// The insertion point is the one place before which every record is more
/// recent and at which the record, if there is one, is not.
pub proof fn lemma_insertion_point(sorted: Seq<BranchRecord>, t: Option<i64>, at: int)
    requires
        0 <= at <= sorted.len(),
        forall|i: int| 0 <= i < at ==> recency_key((#[trigger] sorted[i]).time) > recency_key(t),
        at < sorted.len() ==> recency_key(sorted[at].time) <= recency_key(t),
    ensures
        spec_insertion_point(sorted, t) == at,
    decreases sorted.len(),
{
    if at > 0 {
        assert(recency_key(sorted[0].time) > recency_key(t));
        let rest = sorted.drop_first();
        assert forall|i: int| 0 <= i < at - 1 implies recency_key((#[trigger] rest[i]).time)
            > recency_key(t) by {
            assert(rest[i] == sorted[i + 1]);
        }
        if at - 1 < rest.len() {
            assert(rest[at - 1] == sorted[at]);
        }
        lemma_insertion_point(rest, t, at - 1);
    }
}

/// Where the insertion point lies.
pub proof fn lemma_insertion_point_bounds(sorted: Seq<BranchRecord>, t: Option<i64>)
    ensures
        0 <= spec_insertion_point(sorted, t) <= sorted.len(),
        forall|i: int|
            0 <= i < spec_insertion_point(sorted, t) ==> recency_key((#[trigger] sorted[i]).time)
                > recency_key(t),
        spec_insertion_point(sorted, t) < sorted.len() ==> recency_key(
            sorted[spec_insertion_point(sorted, t)].time,
        ) <= recency_key(t),
    decreases sorted.len(),
{
    if !(sorted.len() == 0 || recency_key(sorted[0].time) <= recency_key(t)) {
        let rest = sorted.drop_first();
        lemma_insertion_point_bounds(rest, t);
        let at = spec_insertion_point(sorted, t);
        assert forall|i: int| 0 <= i < at implies recency_key((#[trigger] sorted[i]).time)
            > recency_key(t) by {
            if i > 0 {
                assert(rest[i - 1] == sorted[i]);
            }
        }
        if at < sorted.len() {
            assert(rest[at - 1] == sorted[at]);
        }
    }
}

/// The ordered records are the records, each as often, and no record
/// stands before a more recent one. Where `rank` grows along `records`,
/// records of equal recency stand in the order of their rank.
pub proof fn lemma_sorted_by_recency(
    records: Seq<BranchRecord>,
    rank: spec_fn(BranchRecord) -> int,
)
    ensures
        spec_sorted_by_recency(records).len() == records.len(),
        spec_sorted_by_recency(records).to_multiset() == records.to_multiset(),
        sorted_by_recency(spec_sorted_by_recency(records)),
        (forall|m: int, n: int|
            0 <= m < n < records.len() ==> rank(#[trigger] records[m]) < rank(
                #[trigger] records[n],
            )) ==> (forall|i: int, j: int|
            0 <= i < j < records.len() && recency_key(
                (#[trigger] spec_sorted_by_recency(records)[i]).time,
            ) == recency_key((#[trigger] spec_sorted_by_recency(records)[j]).time) ==> rank(
                spec_sorted_by_recency(records)[i],
            ) < rank(spec_sorted_by_recency(records)[j])),
    decreases records.len(),
{
    let out = spec_sorted_by_recency(records);
    if records.len() == 0 {
        assert(out =~= records);
    } else {
        let x = records[0];
        let tail = records.drop_first();
        let rest = spec_sorted_by_recency(tail);
        let at = spec_insertion_point(rest, x.time);
        lemma_sorted_by_recency(tail, rank);
        lemma_insertion_point_bounds(rest, x.time);
        lemma_insert_to_multiset(rest, at, x);
        assert(records.remove(0) =~= tail);
        vstd::seq_lib::to_multiset_remove(records, 0);
        records.to_multiset_ensures();
        assert(records.contains(x));
        assert(records.to_multiset().count(x) > 0);
        assert(records.to_multiset() =~= tail.to_multiset().insert(x));
        assert forall|i: int, j: int| 0 <= i < j < out.len() implies recency_key(
            #[trigger] out[i].time,
        ) >= recency_key(#[trigger] out[j].time) by {
            lemma_inserted(rest, at, x, i);
            lemma_inserted(rest, at, x, j);
            if at < rest.len() && j > at {
                assert(recency_key(rest[at].time) >= recency_key(rest[j - 1].time) || j - 1 == at);
            }
        }
        if forall|m: int, n: int|
            0 <= m < n < records.len() ==> rank(#[trigger] records[m]) < rank(
                #[trigger] records[n],
            ) {
            assert forall|m: int, n: int| 0 <= m < n < tail.len() implies rank(
                #[trigger] tail[m],
            ) < rank(#[trigger] tail[n]) by {
                assert(tail[m] == records[m + 1]);
                assert(tail[n] == records[n + 1]);
            }
            assert forall|i: int, j: int|
                0 <= i < j < records.len() && recency_key((#[trigger] out[i]).time)
                    == recency_key((#[trigger] out[j]).time) implies rank(out[i]) < rank(
                out[j],
            ) by {
                lemma_inserted(rest, at, x, i);
                lemma_inserted(rest, at, x, j);
                if i == at {
                    // What follows the new record came after it in `records`.
                    let later = rest[j - 1];
                    rest.to_multiset_ensures();
                    tail.to_multiset_ensures();
                    assert(rest.contains(later));
                    assert(rest.to_multiset().count(later) > 0);
                    assert(tail.contains(later));
                    let n = choose|n: int| 0 <= n < tail.len() && tail[n] == later;
                    assert(tail[n] == records[n + 1]);
                } else if j == at {
                    assert(recency_key(rest[i].time) > recency_key(x.time));
                } else {
                    let p = if i < at { i } else { i - 1 };
                    let q = if j < at { j } else { j - 1 };
                    assert(out[i] == rest[p] && out[j] == rest[q]);
                }
            }
        }
    }
}

/// What stands at each place after a record went into a list.
pub proof fn lemma_inserted(rest: Seq<BranchRecord>, at: int, x: BranchRecord, i: int)
    requires
        0 <= at <= rest.len(),
        0 <= i <= rest.len(),
    ensures
        rest.insert(at, x)[i] == if i < at {
            rest[i]
        } else if i == at {
            x
        } else {
            rest[i - 1]
        },
{
}

/// The first place in a sorted list at which a record with tip time `t` may
/// stand: every record before it is more recent.
fn insertion_point(sorted: &Vec<RepoBranch>, t: Option<i64>) -> (at: usize)
    ensures
        at == spec_insertion_point(spec_records(sorted@), t),
        at <= sorted.len(),
{
    let ghost records = spec_records(sorted@);
    let mut at: usize = 0;
    while at < sorted.len() && !comes_before(t, sorted[at].latest_commit_sec)
        invariant
            at <= sorted.len(),
            records == spec_records(sorted@),
            forall|i: int| 0 <= i < at ==> recency_key((#[trigger] records[i]).time) > recency_key(t),
        decreases sorted.len() - at,
    {
        proof {
            assert(records[at as int].time == sorted[at as int].latest_commit_sec);
        }
        at += 1;
    }
    proof {
        if at < sorted.len() {
            assert(records[at as int].time == sorted[at as int].latest_commit_sec);
        }
        lemma_insertion_point(records, t, at as int);
    }
    at
}

/// Orders the records by the time of their tips, most recent first; a
/// record without a time counts as the oldest there can be. Records of
/// equal recency keep the order in which they came. The result holds each
/// record as often as `records` does.
pub fn sort_by_recency(records: Vec<RepoBranch>) -> (sorted: Vec<RepoBranch>)
    ensures
        spec_records(sorted@) == spec_sorted_by_recency(spec_records(records@)),
        spec_records(sorted@).to_multiset() == spec_records(records@).to_multiset(),
        sorted_by_recency(spec_records(sorted@)),
{
    let ghost all = spec_records(records@);
    let mut rest = records;
    let mut sorted: Vec<RepoBranch> = Vec::new();
    proof {
        assert(all.subrange(all.len() as int, all.len() as int) =~= Seq::<BranchRecord>::empty());
        assert(spec_records(sorted@) =~= Seq::<BranchRecord>::empty());
        assert(all.subrange(0, all.len() as int) =~= all);
    }
    while rest.len() > 0
        invariant
            rest.len() <= all.len(),
            spec_records(rest@) == all.subrange(0, rest.len() as int),
            spec_records(sorted@) == spec_sorted_by_recency(
                all.subrange(rest.len() as int, all.len() as int),
            ),
        decreases rest.len(),
    {
        let ghost before = spec_records(sorted@);
        let ghost m = rest.len() - 1;
        let ghost held = spec_records(rest@);
        let record = rest.pop().unwrap();
        let ghost moved = record@;
        let at = insertion_point(&sorted, record.latest_commit_sec);
        sorted.insert(at, record);
        proof {
            assert(moved == held[m]);
            assert(held[m] == all[m]);
            assert(spec_records(rest@) =~= all.subrange(0, m));
            assert(all.subrange(m, all.len() as int).drop_first() =~= all.subrange(
                m + 1,
                all.len() as int,
            ));
            assert(spec_records(sorted@) =~= before.insert(at as int, moved));
        }
    }
    proof {
        assert(all.subrange(0, all.len() as int) =~= all);
        lemma_sorted_by_recency(all, |r: BranchRecord| 0int);
    }
    sorted
}

} // verus!
