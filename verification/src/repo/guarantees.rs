//! What holds of every scan and of every list that collecting returns.

use crate::repo::branch_collecting::{
    spec_branch_record, spec_collected, spec_collected_of, spec_first_fault,
    spec_first_records, spec_has_branch, spec_is_first_of_branch, spec_place,
    spec_records_of_branches, spec_records_of_repo, spec_records_of_stream, spec_same_branch,
    spec_scan_fault, spec_scan_records, spec_stands_before, BranchRecord,
};
use crate::repo::recency::{lemma_sorted_by_recency, recency_key, spec_sorted_by_recency};
use crate::repo::repo_scanning::{
    spec_find_repo, spec_first_unreadable_dir, spec_locate, spec_locate_entries, BranchProbe,
    DirListing, EntryProbe, Located, RepoHandle,
};
use vstd::prelude::*;

verus! {

/// Whether the branch at `b` of the repository at `k` of the stream is the
/// origin of `record`: the repository's branches were enumerated, the
/// branch has a name, and the record holds the repository's path, that name
/// and the time of the branch's tip.
pub open spec fn spec_is_origin(stream: Seq<Located>, k: int, b: int, record: BranchRecord) -> bool {
    &&& 0 <= k < stream.len()
    &&& stream[k] matches Located::Repo(repo)
    &&& repo.branches matches Some(branches)
    &&& 0 <= b < branches@.len()
    &&& spec_branch_record(repo.path@, branches@[b]) == Some(record)
}

/// Every record of a repository stems from one of its named branches.
pub proof fn lemma_record_stems_from_branch(
    repo_path: Seq<char>,
    branches: Seq<BranchProbe>,
    record: BranchRecord,
)
    requires
        spec_records_of_branches(repo_path, branches).contains(record),
    ensures
        exists|b: int|
            0 <= b < branches.len() && #[trigger] spec_branch_record(repo_path, branches[b])
                == Some(record),
    decreases branches.len(),
{
    let all = spec_records_of_branches(repo_path, branches);
    let at = choose|i: int| 0 <= i < all.len() && all[i] == record;
    if branches.len() > 0 {
        let before = spec_records_of_branches(repo_path, branches.drop_last());
        if at < before.len() {
            assert(before[at] == record);
            lemma_record_stems_from_branch(repo_path, branches.drop_last(), record);
            let b = choose|b: int|
                0 <= b < branches.drop_last().len() && #[trigger] spec_branch_record(
                    repo_path,
                    branches.drop_last()[b],
                ) == Some(record);
            assert(branches.drop_last()[b] == branches[b]);
        } else {
            assert(spec_branch_record(repo_path, branches[branches.len() - 1]) == Some(record));
        }
    }
}

/// Every named branch of a repository has its record among the
/// repository's records.
pub proof fn lemma_branch_has_record(repo_path: Seq<char>, branches: Seq<BranchProbe>, b: int)
    requires
        0 <= b < branches.len(),
        branches[b].name.is_some(),
    ensures
        spec_records_of_branches(repo_path, branches).contains(
            spec_branch_record(repo_path, branches[b]).unwrap(),
        ),
    decreases branches.len(),
{
    let all = spec_records_of_branches(repo_path, branches);
    let before = spec_records_of_branches(repo_path, branches.drop_last());
    let record = spec_branch_record(repo_path, branches[b]).unwrap();
    if b == branches.len() - 1 {
        assert(all[before.len() as int] == record);
    } else {
        assert(branches.drop_last()[b] == branches[b]);
        lemma_branch_has_record(repo_path, branches.drop_last(), b);
        let at = choose|i: int| 0 <= i < before.len() && before[i] == record;
        assert(all[at] == record);
    }
}

/// Every record of a stream stems from a named branch of one of its
/// repositories.
pub proof fn lemma_record_stems_from_stream(stream: Seq<Located>, record: BranchRecord)
    requires
        spec_records_of_stream(stream).contains(record),
    ensures
        exists|k: int, b: int| spec_is_origin(stream, k, b, record),
    decreases stream.len(),
{
    let all = spec_records_of_stream(stream);
    let at = choose|i: int| 0 <= i < all.len() && all[i] == record;
    if stream.len() > 0 {
        let before = spec_records_of_stream(stream.drop_last());
        if at < before.len() {
            assert(before[at] == record);
            lemma_record_stems_from_stream(stream.drop_last(), record);
            let (k, b) = choose|k: int, b: int| spec_is_origin(stream.drop_last(), k, b, record);
            assert(stream.drop_last()[k] == stream[k]);
            assert(spec_is_origin(stream, k, b, record));
        } else {
            let k = stream.len() - 1;
            match stream[k] {
                Located::Repo(repo) => {
                    let own = spec_records_of_repo(repo);
                    assert(own[at - before.len()] == record);
                    match repo.branches {
                        Some(branches) => {
                            lemma_record_stems_from_branch(repo.path@, branches@, record);
                            let b = choose|b: int|
                                0 <= b < branches@.len() && #[trigger] spec_branch_record(
                                    repo.path@,
                                    branches@[b],
                                ) == Some(record);
                            assert(spec_is_origin(stream, k, b, record));
                        },
                        None => {},
                    }
                },
                Located::Fault(_) => {},
            }
        }
    }
}

/// Every record that stems from a named branch of a repository of the
/// stream is among the stream's records.
pub proof fn lemma_origin_has_record(stream: Seq<Located>, k: int, b: int, record: BranchRecord)
    requires
        spec_is_origin(stream, k, b, record),
    ensures
        spec_records_of_stream(stream).contains(record),
    decreases stream.len(),
{
    let all = spec_records_of_stream(stream);
    let before = spec_records_of_stream(stream.drop_last());
    if k == stream.len() - 1 {
        match stream[k] {
            Located::Repo(repo) => {
                let own = spec_records_of_repo(repo);
                lemma_branch_has_record(repo.path@, repo.branches.unwrap()@, b);
                let at = choose|i: int| 0 <= i < own.len() && own[i] == record;
                assert(all[before.len() + at] == record);
            },
            Located::Fault(_) => {},
        }
    } else {
        assert(stream.drop_last()[k] == stream[k]);
        assert(spec_is_origin(stream.drop_last(), k, b, record));
        lemma_origin_has_record(stream.drop_last(), k, b, record);
        let at = choose|i: int| 0 <= i < before.len() && before[i] == record;
        assert(all[at] == record);
    }
}

/// Records of the same branch have the same place in a scan, and the scan
/// holds the branch of the one where it holds that of the other.
pub proof fn lemma_same_branch_same_place(scan: Seq<BranchRecord>, a: BranchRecord, b: BranchRecord)
    requires
        spec_same_branch(a, b),
    ensures
        spec_has_branch(scan, a) == spec_has_branch(scan, b),
        spec_place(scan, a) == spec_place(scan, b),
    decreases scan.len(),
{
    if spec_has_branch(scan, a) {
        let i = choose|i: int| 0 <= i < scan.len() && spec_same_branch(#[trigger] scan[i], a);
        assert(spec_same_branch(scan[i], b));
    }
    if spec_has_branch(scan, b) {
        let i = choose|i: int| 0 <= i < scan.len() && spec_same_branch(#[trigger] scan[i], b);
        assert(spec_same_branch(scan[i], a));
    }
    if scan.len() > 0 {
        lemma_same_branch_same_place(scan.drop_last(), a, b);
    }
}

/// Where a scan holds the branch of a record, the place of the record is
/// that of the first record of that branch.
pub proof fn lemma_place(scan: Seq<BranchRecord>, record: BranchRecord)
    requires
        spec_has_branch(scan, record),
    ensures
        0 <= spec_place(scan, record) < scan.len(),
        spec_same_branch(scan[spec_place(scan, record)], record),
        forall|k: int|
            0 <= k < spec_place(scan, record) ==> !spec_same_branch(#[trigger] scan[k], record),
    decreases scan.len(),
{
    let i = choose|i: int| 0 <= i < scan.len() && spec_same_branch(#[trigger] scan[i], record);
    let before = scan.drop_last();
    if spec_has_branch(before, record) {
        lemma_place(before, record);
        let p = spec_place(before, record);
        assert(before[p] == scan[p]);
        assert forall|k: int| 0 <= k < p implies !spec_same_branch(#[trigger] scan[k], record) by {
            assert(before[k] == scan[k]);
        }
    } else {
        assert forall|k: int| 0 <= k < scan.len() - 1 implies !spec_same_branch(
            #[trigger] scan[k],
            record,
        ) by {
            assert(before[k] == scan[k]);
        }
        assert(i == scan.len() - 1);
    }
}

/// The records without repeats hold the same branches as the records.
pub proof fn lemma_first_records_hold_branch(scan: Seq<BranchRecord>, record: BranchRecord)
    ensures
        spec_has_branch(spec_first_records(scan), record) == spec_has_branch(scan, record),
    decreases scan.len(),
{
    let first = spec_first_records(scan);
    if scan.len() > 0 {
        let before = scan.drop_last();
        let kept = spec_first_records(before);
        let last = scan.last();
        lemma_first_records_hold_branch(before, record);
        lemma_first_records_hold_branch(before, last);
        if spec_has_branch(scan, record) {
            let i = choose|i: int|
                0 <= i < scan.len() && spec_same_branch(#[trigger] scan[i], record);
            if i < scan.len() - 1 {
                assert(spec_same_branch(before[i], record));
            }
            if spec_has_branch(kept, record) {
                let m = choose|m: int|
                    0 <= m < kept.len() && spec_same_branch(#[trigger] kept[m], record);
                assert(spec_same_branch(first[m], record));
            } else if spec_has_branch(kept, last) {
                let m = choose|m: int|
                    0 <= m < kept.len() && spec_same_branch(#[trigger] kept[m], last);
                assert(spec_same_branch(kept[m], record));
            } else {
                assert(spec_same_branch(first[kept.len() as int], record));
            }
        }
        if spec_has_branch(first, record) {
            let m = choose|m: int|
                0 <= m < first.len() && spec_same_branch(#[trigger] first[m], record);
            if m < kept.len() {
                assert(spec_same_branch(kept[m], record));
                let i = choose|i: int|
                    0 <= i < before.len() && spec_same_branch(#[trigger] before[i], record);
                assert(spec_same_branch(scan[i], record));
            } else {
                assert(spec_same_branch(scan[scan.len() - 1], record));
            }
        }
    }
}

/// Each of the records without repeats is the first record of its branch,
/// and they stand in the order of their places.
pub proof fn lemma_first_records(scan: Seq<BranchRecord>)
    ensures
        forall|m: int|
            0 <= m < spec_first_records(scan).len() ==> spec_is_first_of_branch(
                scan,
                #[trigger] spec_first_records(scan)[m],
            ),
        forall|m: int, n: int|
            0 <= m < n < spec_first_records(scan).len() ==> spec_place(
                scan,
                #[trigger] spec_first_records(scan)[m],
            ) < spec_place(scan, #[trigger] spec_first_records(scan)[n]),
    decreases scan.len(),
{
    let first = spec_first_records(scan);
    if scan.len() > 0 {
        let before = scan.drop_last();
        let kept = spec_first_records(before);
        let last = scan.last();
        lemma_first_records(before);
        lemma_first_records_hold_branch(before, last);
        assert forall|m: int| 0 <= m < first.len() implies spec_is_first_of_branch(
            scan,
            #[trigger] first[m],
        ) && (m < kept.len() ==> spec_place(scan, first[m]) < scan.len() - 1) && (m
            >= kept.len() ==> spec_place(scan, first[m]) == scan.len() - 1) by {
            if m < kept.len() {
                assert(first[m] == kept[m]);
                assert(spec_is_first_of_branch(before, kept[m]));
                let p = spec_place(before, kept[m]);
                assert(spec_same_branch(before[p], kept[m]));
                assert(spec_has_branch(before, kept[m]));
                assert(before[p] == scan[p]);
            } else {
                assert(first[m] == last);
            }
        }
        assert forall|m: int, n: int| 0 <= m < n < first.len() implies spec_place(
            scan,
            #[trigger] first[m],
        ) < spec_place(scan, #[trigger] first[n]) by {
            if n < kept.len() {
                assert(first[m] == kept[m] && first[n] == kept[n]);
                assert(spec_is_first_of_branch(before, kept[m]));
                assert(spec_is_first_of_branch(before, kept[n]));
                let p = spec_place(before, kept[m]);
                let q = spec_place(before, kept[n]);
                assert(spec_same_branch(before[p], kept[m]));
                assert(spec_same_branch(before[q], kept[n]));
            }
        }
    }
}

/// The records of a scan without repeats, ordered by recency, are what
/// collecting gives.
pub proof fn lemma_sorted_first_records_are_collected(scan: Seq<BranchRecord>)
    ensures
        spec_collected_of(scan, spec_sorted_by_recency(spec_first_records(scan))),
{
    let first = spec_first_records(scan);
    let out = spec_sorted_by_recency(first);
    let rank = |r: BranchRecord| spec_place(scan, r);
    lemma_first_records(scan);
    lemma_sorted_by_recency(first, rank);
    first.to_multiset_ensures();
    out.to_multiset_ensures();
    assert forall|i: int| 0 <= i < out.len() implies spec_is_first_of_branch(
        scan,
        #[trigger] out[i],
    ) by {
        assert(out.contains(out[i]));
        assert(out.to_multiset().count(out[i]) > 0);
        assert(first.contains(out[i]));
        let m = choose|m: int| 0 <= m < first.len() && first[m] == out[i];
        assert(spec_is_first_of_branch(scan, first[m]));
    }
    assert forall|k: int| 0 <= k < scan.len() implies spec_has_branch(out, #[trigger] scan[k]) by {
        assert(spec_same_branch(scan[k], scan[k]));
        assert(spec_has_branch(scan, scan[k]));
        lemma_first_records_hold_branch(scan, scan[k]);
        let m = choose|m: int|
            0 <= m < first.len() && spec_same_branch(#[trigger] first[m], scan[k]);
        assert(first.contains(first[m]));
        assert(first.to_multiset().count(first[m]) > 0);
        assert(out.contains(first[m]));
        let i = choose|i: int| 0 <= i < out.len() && out[i] == first[m];
        assert(spec_same_branch(out[i], scan[k]));
    }
    assert forall|i: int, j: int| 0 <= i < j < out.len() implies spec_stands_before(
        scan,
        #[trigger] out[i],
        #[trigger] out[j],
    ) by {
        assert(rank(out[i]) == spec_place(scan, out[i]));
        assert(rank(out[j]) == spec_place(scan, out[j]));
    }
    assert forall|i: int, j: int| 0 <= i < j < out.len() implies !spec_same_branch(
        #[trigger] out[i],
        #[trigger] out[j],
    ) by {
        if spec_same_branch(out[i], out[j]) {
            lemma_same_branch_same_place(scan, out[i], out[j]);
            assert(spec_is_first_of_branch(scan, out[i]));
            assert(spec_is_first_of_branch(scan, out[j]));
            assert(spec_stands_before(scan, out[i], out[j]));
        }
    }
}

/// Every record of a collected list is a record of the scan.
pub proof fn lemma_collected_record_is_scanned(
    listings: Seq<DirListing>,
    records: Seq<BranchRecord>,
    i: int,
)
    requires
        spec_collected(listings, records),
        0 <= i < records.len(),
    ensures
        spec_scan_records(listings).contains(records[i]),
{
    let scan = spec_scan_records(listings);
    assert(spec_is_first_of_branch(scan, records[i]));
    assert(scan[spec_place(scan, records[i])] == records[i]);
}

/// No two records of a collected list are of the same branch.
pub proof fn lemma_collected_has_each_branch_once(
    listings: Seq<DirListing>,
    records: Seq<BranchRecord>,
    i: int,
    j: int,
)
    requires
        spec_collected(listings, records),
        0 <= i < records.len(),
        0 <= j < records.len(),
        i != j,
    ensures
        records[i].repo != records[j].repo || records[i].branch != records[j].branch,
{
    if i < j {
        assert(!spec_same_branch(records[i], records[j]));
    } else {
        assert(!spec_same_branch(records[j], records[i]));
    }
}

/// A collected list is ordered by the time of the tips, most recent first,
/// where a record without a time counts as the oldest there can be.
pub proof fn lemma_collected_is_sorted(
    listings: Seq<DirListing>,
    records: Seq<BranchRecord>,
    i: int,
    j: int,
)
    requires
        spec_collected(listings, records),
        0 <= i <= j < records.len(),
    ensures
        recency_key(records[i].time) >= recency_key(records[j].time),
        records[j].time.is_some() ==> records[i].time.is_some() || records[j].time == Some(
            i64::MIN,
        ),
{
}

/// A repository whose branches could not be enumerated gives no records:
/// where enumeration failed for every repository at `path`, a collected
/// list holds no record with that path.
pub proof fn lemma_failed_enumeration_gives_no_records(
    listings: Seq<DirListing>,
    records: Seq<BranchRecord>,
    path: Seq<char>,
)
    requires
        spec_collected(listings, records),
        forall|k: int|
            0 <= k < spec_locate(listings).len() ==> (#[trigger] spec_locate(listings)[k]
                matches Located::Repo(repo) ==> repo.path@ == path ==> repo.branches.is_none()),
    ensures
        forall|i: int| 0 <= i < records.len() ==> (#[trigger] records[i]).repo != path,
{
    let stream = spec_locate(listings);
    assert forall|i: int| 0 <= i < records.len() implies (#[trigger] records[i]).repo != path by {
        let record = records[i];
        lemma_collected_record_is_scanned(listings, records, i);
        lemma_record_stems_from_stream(stream, record);
        let (k, b) = choose|k: int, b: int| spec_is_origin(stream, k, b, record);
        assert(stream[k] matches Located::Repo(repo) && repo.branches.is_some() && repo.path@
            == record.repo);
    }
}

/// A stream without the fault of an entry has no first fault.
pub proof fn lemma_stream_of_repositories_has_no_fault(stream: Seq<Located>)
    requires
        forall|k: int| 0 <= k < stream.len() ==> #[trigger] stream[k] is Repo,
    ensures
        spec_first_fault(stream).is_none(),
    decreases stream.len(),
{
    if stream.len() > 0 {
        assert forall|k: int| 0 <= k < stream.drop_last().len() implies #[trigger] stream.drop_last()[k] is Repo by {
            assert(stream.drop_last()[k] == stream[k]);
        }
        lemma_stream_of_repositories_has_no_fault(stream.drop_last());
        assert(stream.last() == stream[stream.len() - 1]);
    }
}

/// Whether a configured directory was listed and every entry of it read.
pub open spec fn spec_listing_readable(listing: DirListing) -> bool {
    match listing.entries {
        Ok(entries) => forall|j: int|
            0 <= j < entries@.len() ==> !(#[trigger] entries@[j] is Unreadable),
        Err(_) => false,
    }
}

/// Whether every configured directory was listed and every entry read.
pub open spec fn spec_all_readable(listings: Seq<DirListing>) -> bool {
    forall|i: int| 0 <= i < listings.len() ==> spec_listing_readable(#[trigger] listings[i])
}

/// The entries of a directory that were all read give repositories only.
pub proof fn lemma_readable_entries_give_repositories(entries: Seq<EntryProbe>)
    requires
        forall|j: int| 0 <= j < entries.len() ==> !(#[trigger] entries[j] is Unreadable),
    ensures
        forall|k: int|
            0 <= k < spec_locate_entries(entries).len() ==> #[trigger] spec_locate_entries(
                entries,
            )[k] is Repo,
    decreases entries.len(),
{
    if entries.len() > 0 {
        assert forall|j: int| 0 <= j < entries.drop_last().len() implies !(
        #[trigger] entries.drop_last()[j] is Unreadable) by {
            assert(entries.drop_last()[j] == entries[j]);
        }
        lemma_readable_entries_give_repositories(entries.drop_last());
        assert(entries.last() == entries[entries.len() - 1]);
        assert(!(entries[entries.len() - 1] is Unreadable));
    }
}

/// A scan succeeds where every configured directory was listed and every
/// entry read, whatever the repositories then showed: neither a repository
/// whose branches could not be enumerated, nor a branch without a name, nor
/// a tip that could not be resolved makes it fail.
pub proof fn lemma_readable_scan_succeeds(listings: Seq<DirListing>)
    requires
        spec_all_readable(listings),
    ensures
        spec_scan_fault(listings).is_none(),
        forall|k: int|
            0 <= k < spec_locate(listings).len() ==> #[trigger] spec_locate(listings)[k] is Repo,
    decreases listings.len(),
{
    if listings.len() > 0 {
        assert forall|i: int| 0 <= i < listings.drop_last().len() implies spec_listing_readable(
            #[trigger] listings.drop_last()[i],
        ) by {
            assert(listings.drop_last()[i] == listings[i]);
        }
        lemma_readable_scan_succeeds(listings.drop_last());
        assert(listings.last() == listings[listings.len() - 1]);
        assert(spec_listing_readable(listings[listings.len() - 1]));
        match listings.last().entries {
            Ok(entries) => {
                lemma_readable_entries_give_repositories(entries@);
            },
            Err(_) => {},
        }
    }
    lemma_stream_of_repositories_has_no_fault(spec_locate(listings));
}

/// A stream that holds a fault has a first fault.
pub proof fn lemma_fault_is_found(stream: Seq<Located>, k: int)
    requires
        0 <= k < stream.len(),
        stream[k] is Fault,
    ensures
        spec_first_fault(stream).is_some(),
    decreases stream.len(),
{
    if k < stream.len() - 1 {
        assert(stream.drop_last()[k] == stream[k]);
        lemma_fault_is_found(stream.drop_last(), k);
    }
}

/// An entry that could not be read leaves its fault in the stream of its
/// directory.
pub proof fn lemma_unreadable_entry_is_located(entries: Seq<EntryProbe>, j: int)
    requires
        0 <= j < entries.len(),
        entries[j] is Unreadable,
    ensures
        exists|k: int|
            0 <= k < spec_locate_entries(entries).len() && #[trigger] spec_locate_entries(
                entries,
            )[k] is Fault,
    decreases entries.len(),
{
    let all = spec_locate_entries(entries);
    let before = spec_locate_entries(entries.drop_last());
    if j == entries.len() - 1 {
        assert(all[before.len() as int] is Fault);
    } else {
        assert(entries.drop_last()[j] == entries[j]);
        lemma_unreadable_entry_is_located(entries.drop_last(), j);
        let k = choose|k: int| 0 <= k < before.len() && #[trigger] before[k] is Fault;
        assert(all[k] == before[k]);
    }
}

/// A directory that could not be listed makes the scan fail, and so does
/// an entry that could not be read.
pub proof fn lemma_unreadable_scan_fails(listings: Seq<DirListing>, i: int)
    requires
        0 <= i < listings.len(),
        !spec_listing_readable(listings[i]),
    ensures
        spec_scan_fault(listings).is_some(),
        spec_first_unreadable_dir(listings).is_some() || exists|k: int|
            0 <= k < spec_locate(listings).len() && #[trigger] spec_locate(listings)[k] is Fault,
    decreases listings.len(),
{
    let all = spec_locate(listings);
    let before = spec_locate(listings.drop_last());
    if i == listings.len() - 1 {
        match listings.last().entries {
            Ok(entries) => {
                let j = choose|j: int| 0 <= j < entries@.len() && entries@[j] is Unreadable;
                lemma_unreadable_entry_is_located(entries@, j);
                let own = spec_locate_entries(entries@);
                let k = choose|k: int| 0 <= k < own.len() && #[trigger] own[k] is Fault;
                assert(all[before.len() + k] == own[k]);
            },
            Err(_) => {},
        }
    } else {
        assert(listings.drop_last()[i] == listings[i]);
        lemma_unreadable_scan_fails(listings.drop_last(), i);
        if spec_first_unreadable_dir(listings.drop_last()).is_none() {
            let k = choose|k: int| 0 <= k < before.len() && #[trigger] before[k] is Fault;
            assert(all[k] == before[k]);
        }
    }
    if spec_first_unreadable_dir(listings).is_none() {
        let k = choose|k: int| 0 <= k < all.len() && #[trigger] all[k] is Fault;
        lemma_fault_is_found(all, k);
    }
}

/// A scan succeeds exactly where every configured directory was listed
/// and every entry read.
pub proof fn lemma_scan_succeeds_iff_readable(listings: Seq<DirListing>)
    ensures
        spec_scan_fault(listings).is_none() <==> spec_all_readable(listings),
{
    if spec_all_readable(listings) {
        lemma_readable_scan_succeeds(listings);
    } else {
        let i = choose|i: int|
            0 <= i < listings.len() && !spec_listing_readable(#[trigger] listings[i]);
        lemma_unreadable_scan_fails(listings, i);
    }
}

/// A branch with a name is never left out: a collected list holds a
/// record of its repository and name. That record is the branch's own,
/// with the time of its tip, unless the scan holds the branch a second time
/// and earlier. In particular a branch whose tip could not be resolved has
/// its record, without a time.
pub proof fn lemma_named_branch_is_recorded(
    listings: Seq<DirListing>,
    records: Seq<BranchRecord>,
    repo: RepoHandle,
    k: int,
    b: int,
)
    requires
        spec_collected(listings, records),
        0 <= k < spec_locate(listings).len(),
        spec_locate(listings)[k] == Located::Repo(repo),
        repo.branches.is_some(),
        0 <= b < repo.branches.unwrap()@.len(),
        repo.branches.unwrap()@[b].name.is_some(),
    ensures
        spec_has_branch(
            records,
            spec_branch_record(repo.path@, repo.branches.unwrap()@[b]).unwrap(),
        ),
        spec_is_first_of_branch(
            spec_scan_records(listings),
            spec_branch_record(repo.path@, repo.branches.unwrap()@[b]).unwrap(),
        ) ==> records.contains(
            BranchRecord {
                repo: repo.path@,
                branch: repo.branches.unwrap()@[b].name.unwrap()@,
                time: repo.branches.unwrap()@[b].tip_commit_sec,
            },
        ),
{
    let scan = spec_scan_records(listings);
    let record = spec_branch_record(repo.path@, repo.branches.unwrap()@[b]).unwrap();
    assert(spec_is_origin(spec_locate(listings), k, b, record));
    lemma_origin_has_record(spec_locate(listings), k, b, record);
    let at = choose|at: int| 0 <= at < scan.len() && scan[at] == record;
    assert(spec_has_branch(records, scan[at]));
    if spec_is_first_of_branch(scan, record) {
        let i = choose|i: int|
            0 <= i < records.len() && spec_same_branch(#[trigger] records[i], record);
        lemma_same_branch_same_place(scan, records[i], record);
        assert(spec_is_first_of_branch(scan, records[i]));
        assert(records[i] == record);
    }
}

/// Every record of a collected list stems from a branch with a name, of a
/// repository whose branches were enumerated: a branch without a name has
/// no record.
pub proof fn lemma_record_has_named_branch(
    listings: Seq<DirListing>,
    records: Seq<BranchRecord>,
    i: int,
)
    requires
        spec_collected(listings, records),
        0 <= i < records.len(),
    ensures
        exists|k: int, b: int| spec_is_origin(spec_locate(listings), k, b, records[i]),
{
    lemma_collected_record_is_scanned(listings, records, i);
    lemma_record_stems_from_stream(spec_locate(listings), records[i]);
}

/// A branch without a name leaves no trace: the repository gives the same
/// records with it as without it.
pub proof fn lemma_unnamed_branch_is_skipped(
    repo_path: Seq<char>,
    branches: Seq<BranchProbe>,
    b: int,
)
    requires
        0 <= b < branches.len(),
        branches[b].name.is_none(),
    ensures
        spec_records_of_branches(repo_path, branches) == spec_records_of_branches(
            repo_path,
            branches.remove(b),
        ),
    decreases branches.len(),
{
    if b == branches.len() - 1 {
        assert(branches.remove(b) =~= branches.drop_last());
    } else {
        assert(branches.drop_last()[b] == branches[b]);
        lemma_unnamed_branch_is_skipped(repo_path, branches.drop_last(), b);
        assert(branches.remove(b).drop_last() =~= branches.drop_last().remove(b));
        assert(branches.remove(b).last() == branches.last());
    }
}

/// Two lists that are ordered alike and hold the same records are the
/// same list.
pub proof fn lemma_ordered_lists_agree(
    scan: Seq<BranchRecord>,
    first: Seq<BranchRecord>,
    second: Seq<BranchRecord>,
)
    requires
        forall|i: int, j: int|
            0 <= i < j < first.len() ==> spec_stands_before(
                scan,
                #[trigger] first[i],
                #[trigger] first[j],
            ),
        forall|i: int, j: int|
            0 <= i < j < second.len() ==> spec_stands_before(
                scan,
                #[trigger] second[i],
                #[trigger] second[j],
            ),
        forall|i: int| 0 <= i < first.len() ==> second.contains(#[trigger] first[i]),
        forall|i: int| 0 <= i < second.len() ==> first.contains(#[trigger] second[i]),
    ensures
        first == second,
    decreases first.len(),
{
    if first.len() == 0 {
        if second.len() > 0 {
            assert(first.contains(second[0]));
        }
        assert(first =~= second);
    } else {
        assert(second.contains(first[0]));
        let j = choose|j: int| 0 <= j < second.len() && second[j] == first[0];
        if j > 0 {
            assert(spec_stands_before(scan, second[0], second[j]));
            assert(first.contains(second[0]));
            let k = choose|k: int| 0 <= k < first.len() && first[k] == second[0];
            if k > 0 {
                assert(spec_stands_before(scan, first[0], first[k]));
            }
        }
        assert(second[0] == first[0]);
        let first_rest = first.drop_first();
        let second_rest = second.drop_first();
        assert forall|i: int| 0 <= i < first_rest.len() implies second_rest.contains(
            #[trigger] first_rest[i],
        ) by {
            assert(first_rest[i] == first[i + 1]);
            assert(spec_stands_before(scan, first[0], first[i + 1]));
            assert(second.contains(first[i + 1]));
            let q = choose|q: int| 0 <= q < second.len() && second[q] == first[i + 1];
            assert(second_rest[q - 1] == second[q]);
        }
        assert forall|i: int| 0 <= i < second_rest.len() implies first_rest.contains(
            #[trigger] second_rest[i],
        ) by {
            assert(second_rest[i] == second[i + 1]);
            assert(spec_stands_before(scan, second[0], second[i + 1]));
            assert(first.contains(second[i + 1]));
            let q = choose|q: int| 0 <= q < first.len() && first[q] == second[i + 1];
            assert(first_rest[q - 1] == first[q]);
        }
        assert forall|i: int, j: int| 0 <= i < j < first_rest.len() implies spec_stands_before(
            scan,
            #[trigger] first_rest[i],
            #[trigger] first_rest[j],
        ) by {
            assert(first_rest[i] == first[i + 1] && first_rest[j] == first[j + 1]);
        }
        assert forall|i: int, j: int| 0 <= i < j < second_rest.len() implies spec_stands_before(
            scan,
            #[trigger] second_rest[i],
            #[trigger] second_rest[j],
        ) by {
            assert(second_rest[i] == second[i + 1] && second_rest[j] == second[j + 1]);
        }
        lemma_ordered_lists_agree(scan, first_rest, second_rest);
        assert(first =~= seq![first[0]] + first_rest);
        assert(second =~= seq![second[0]] + second_rest);
    }
}

/// Collecting twice from the same scan gives the same list: the same
/// records in the same places, those that bear a time and those that do
/// not.
pub proof fn lemma_collecting_again_agrees(
    listings: Seq<DirListing>,
    first: Seq<BranchRecord>,
    second: Seq<BranchRecord>,
)
    requires
        spec_collected(listings, first),
        spec_collected(listings, second),
    ensures
        first == second,
{
    let scan = spec_scan_records(listings);
    assert forall|i: int| 0 <= i < first.len() implies second.contains(#[trigger] first[i]) by {
        lemma_collected_holds_record_of(scan, first, second, i);
    }
    assert forall|i: int| 0 <= i < second.len() implies first.contains(#[trigger] second[i]) by {
        lemma_collected_holds_record_of(scan, second, first, i);
    }
    lemma_ordered_lists_agree(scan, first, second);
}

/// Each record of one collected list is a record of every other list
/// collected from the same scan.
pub proof fn lemma_collected_holds_record_of(
    scan: Seq<BranchRecord>,
    first: Seq<BranchRecord>,
    second: Seq<BranchRecord>,
    i: int,
)
    requires
        spec_collected_of(scan, first),
        spec_collected_of(scan, second),
        0 <= i < first.len(),
    ensures
        second.contains(first[i]),
{
    let record = first[i];
    assert(spec_is_first_of_branch(scan, record));
    let p = spec_place(scan, record);
    assert(spec_has_branch(second, scan[p]));
    let j = choose|j: int| 0 <= j < second.len() && spec_same_branch(#[trigger] second[j], record);
    lemma_same_branch_same_place(scan, second[j], record);
    assert(spec_is_first_of_branch(scan, second[j]));
    assert(second[j] == record);
}

} // verus!
