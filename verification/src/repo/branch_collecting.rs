//! Collecting the branches of the located repositories into one list,
//! most recent tip first.

use crate::repo::guarantees::lemma_sorted_first_records_are_collected;
use crate::repo::recency::{recency_key, sort_by_recency};
use crate::repo::repo_scanning::{
    get_repo_receiver, spec_first_unreadable_dir, spec_locate, spec_located_stream,
    BranchProbe, DirListing, DiscoveryError, DiscoveryFault, Located, RepoHandle,
};
use vstd::prelude::*;

verus! {

/// One local branch of one repository.
#[derive(Debug, Clone)]
pub struct RepoBranch {
    /// Path of the repository that holds the branch.
    pub repo_name: String,
    /// Short name of the branch.
    pub branch_name: String,
    /// Time of the commit at the tip, in seconds since the epoch; `None`
    /// where the tip could not be resolved.
    pub latest_commit_sec: Option<i64>,
}

/// A [`RepoBranch`] as a mathematical value.
pub struct BranchRecord {
    pub repo: Seq<char>,
    pub branch: Seq<char>,
    pub time: Option<i64>,
}

impl View for RepoBranch {
    type V = BranchRecord;

    open spec fn view(&self) -> BranchRecord {
        BranchRecord {
            repo: self.repo_name@,
            branch: self.branch_name@,
            time: self.latest_commit_sec,
        }
    }
}

/// How `Debug` writes a text: in quotes, with its special characters
/// escaped.
pub uninterp spec fn spec_quoted(text: Seq<char>) -> Seq<char>;

/// Writes the text as `Debug` of `str` does, through `format!`. Believed:
/// what is written depends on the text alone; it is given a name and
/// nothing more is said of it.
#[verifier::external_body]
fn quoted(text: &str) -> (r: String)
    ensures
        r@ == spec_quoted(text@),
{
    format!("{:?}", text)
}

impl RepoBranch {
    /// The branch as it is shown in a list of choices: its name, then the
    /// repository's path, quoted, in round brackets.
    pub fn label(&self) -> (text: String)
        ensures
            text@ == self.branch_name@ + " ("@ + spec_quoted(self.repo_name@) + ")"@,
    {
        let path = quoted(self.repo_name.as_str());
        self.branch_name.clone().concat(" (").concat(path.as_str()).concat(")")
    }
}

/// A list of branches as a sequence of mathematical values.
pub open spec fn spec_records(branches: Seq<RepoBranch>) -> Seq<BranchRecord> {
    branches.map_values(|b: RepoBranch| b@)
}

/// The record of one branch: none where the branch has no name, and one
/// without a time where its tip could not be resolved.
pub open spec fn spec_branch_record(repo_path: Seq<char>, branch: BranchProbe) -> Option<
    BranchRecord,
> {
    match branch.name {
        Some(name) => Some(
            BranchRecord { repo: repo_path, branch: name@, time: branch.tip_commit_sec },
        ),
        None => None,
    }
}

/// The records of the branches of one repository, in their order.
pub open spec fn spec_records_of_branches(
    repo_path: Seq<char>,
    branches: Seq<BranchProbe>,
) -> Seq<BranchRecord>
    decreases branches.len(),
{
    if branches.len() == 0 {
        Seq::empty()
    } else {
        let before = spec_records_of_branches(repo_path, branches.drop_last());
        match spec_branch_record(repo_path, branches.last()) {
            Some(record) => before.push(record),
            None => before,
        }
    }
}

/// What one repository contributes: nothing where its branches could not be
/// enumerated.
pub open spec fn spec_records_of_repo(repo: RepoHandle) -> Seq<BranchRecord> {
    match repo.branches {
        Some(branches) => spec_records_of_branches(repo.path@, branches@),
        None => Seq::empty(),
    }
}

/// The first fault in a stream of located items.
pub open spec fn spec_first_fault(stream: Seq<Located>) -> Option<DiscoveryFault>
    decreases stream.len(),
{
    if stream.len() == 0 {
        None
    } else {
        match spec_first_fault(stream.drop_last()) {
            Some(f) => Some(f),
            None => match stream.last() {
                Located::Fault(f) => Some(f),
                Located::Repo(_) => None,
            },
        }
    }
}

/// The records of all repositories of a stream, repository after
/// repository.
pub open spec fn spec_records_of_stream(stream: Seq<Located>) -> Seq<BranchRecord>
    decreases stream.len(),
{
    if stream.len() == 0 {
        Seq::empty()
    } else {
        let before = spec_records_of_stream(stream.drop_last());
        match stream.last() {
            Located::Repo(repo) => before + spec_records_of_repo(repo),
            Located::Fault(_) => before,
        }
    }
}

/// The fault that makes a scan fail: the first configured directory that
/// could not be listed or, where all were listed, the first entry that
/// could not be read.
pub open spec fn spec_scan_fault(listings: Seq<DirListing>) -> Option<DiscoveryFault> {
    match spec_first_unreadable_dir(listings) {
        Some(f) => Some(f),
        None => spec_first_fault(spec_locate(listings)),
    }
}

/// The records that a scan holds, before they are ordered.
pub open spec fn spec_scan_records(listings: Seq<DirListing>) -> Seq<BranchRecord> {
    spec_records_of_stream(spec_locate(listings))
}

/// Whether two records are of the same branch: of one repository and one
/// name.
pub open spec fn spec_same_branch(a: BranchRecord, b: BranchRecord) -> bool {
    a.repo == b.repo && a.branch == b.branch
}

/// Whether one of the records is of the branch of `record`.
pub open spec fn spec_has_branch(records: Seq<BranchRecord>, record: BranchRecord) -> bool {
    exists|i: int| 0 <= i < records.len() && spec_same_branch(#[trigger] records[i], record)
}

/// The records without repeats: of each branch the record that comes
/// first, in the order of the records.
pub open spec fn spec_first_records(records: Seq<BranchRecord>) -> Seq<BranchRecord>
    decreases records.len(),
{
    if records.len() == 0 {
        Seq::empty()
    } else {
        let before = spec_first_records(records.drop_last());
        if spec_has_branch(before, records.last()) {
            before
        } else {
            before.push(records.last())
        }
    }
}

/// The place in `scan` of the first record of the branch of `record`.
pub open spec fn spec_place(scan: Seq<BranchRecord>, record: BranchRecord) -> int
    decreases scan.len(),
{
    if scan.len() == 0 {
        0
    } else if spec_has_branch(scan.drop_last(), record) {
        spec_place(scan.drop_last(), record)
    } else {
        scan.len() - 1
    }
}

/// Whether `record` is a record of the scan, and of the records of its
/// branch the one that comes first.
pub open spec fn spec_is_first_of_branch(scan: Seq<BranchRecord>, record: BranchRecord) -> bool {
    0 <= spec_place(scan, record) < scan.len() && scan[spec_place(scan, record)] == record
}

/// Whether `a` is to stand before `b`: its tip is more recent or, where
/// both are equally recent, its branch comes first in the scan. A record
/// without a time counts as the oldest there can be.
pub open spec fn spec_stands_before(
    scan: Seq<BranchRecord>,
    a: BranchRecord,
    b: BranchRecord,
) -> bool {
    recency_key(a.time) > recency_key(b.time) || (recency_key(a.time) == recency_key(b.time)
        && spec_place(scan, a) < spec_place(scan, b))
}

/// Whether `records` is what collecting gives for the records of a scan:
/// no two of them are of the same branch, each is the first record that
/// the scan holds of its branch, every branch of the scan has its record,
/// and they stand most recent first, equally recent ones in the order of
/// the scan.
pub open spec fn spec_collected_of(scan: Seq<BranchRecord>, records: Seq<BranchRecord>) -> bool {
    &&& forall|i: int, j: int|
        0 <= i < j < records.len() ==> !spec_same_branch(
            #[trigger] records[i],
            #[trigger] records[j],
        )
    &&& forall|i: int|
        0 <= i < records.len() ==> spec_is_first_of_branch(scan, #[trigger] records[i])
    &&& forall|k: int| 0 <= k < scan.len() ==> spec_has_branch(records, #[trigger] scan[k])
    &&& forall|i: int, j: int|
        0 <= i < j < records.len() ==> spec_stands_before(
            scan,
            #[trigger] records[i],
            #[trigger] records[j],
        )
}

/// Whether `records` is what collecting gives for `listings`.
pub open spec fn spec_collected(listings: Seq<DirListing>, records: Seq<BranchRecord>) -> bool {
    spec_collected_of(spec_scan_records(listings), records)
}

/// The time of the commit at the branch's tip, where the tip was resolved.
pub fn get_latest_commit_epoch_sec(branch: &BranchProbe) -> (t: Option<i64>)
    ensures
        t == branch.tip_commit_sec,
{
    branch.tip_commit_sec
}

/// The record of one branch of `repo`.
pub fn branch_record(repo: &RepoHandle, branch: &BranchProbe) -> (r: Option<RepoBranch>)
    ensures
        match r {
            Some(record) => spec_branch_record(repo.path@, *branch) == Some(record@),
            None => spec_branch_record(repo.path@, *branch).is_none(),
        },
{
    match &branch.name {
        Some(name) => Some(
            RepoBranch {
                repo_name: repo.path.clone(),
                branch_name: name.clone(),
                latest_commit_sec: get_latest_commit_epoch_sec(branch),
            },
        ),
        None => None,
    }
}

/// Whether two records are of the same branch.
pub fn same_branch(a: &RepoBranch, b: &RepoBranch) -> (r: bool)
    ensures
        r == spec_same_branch(a@, b@),
{
    a.repo_name == b.repo_name && a.branch_name == b.branch_name
}

/// Whether one of the records is of the branch of `record`.
pub fn has_branch(records: &Vec<RepoBranch>, record: &RepoBranch) -> (r: bool)
    ensures
        r == spec_has_branch(spec_records(records@), record@),
{
    let mut i: usize = 0;
    while i < records.len()
        invariant
            i <= records.len(),
            forall|k: int|
                0 <= k < i ==> !spec_same_branch(#[trigger] spec_records(records@)[k], record@),
        decreases records.len() - i,
    {
        if same_branch(&records[i], record) {
            proof {
                assert(spec_same_branch(spec_records(records@)[i as int], record@));
            }
            return true;
        }
        i += 1;
    }
    false
}

/// The records without repeats: of each branch the record that comes
/// first, in the order of the records.
pub fn first_of_each_branch(records: &Vec<RepoBranch>) -> (kept: Vec<RepoBranch>)
    ensures
        spec_records(kept@) == spec_first_records(spec_records(records@)),
{
    let ghost all = spec_records(records@);
    let mut kept: Vec<RepoBranch> = Vec::new();
    let mut i: usize = 0;
    proof {
        assert(all.subrange(0, 0) =~= Seq::<BranchRecord>::empty());
        assert(spec_records(kept@) =~= Seq::<BranchRecord>::empty());
    }
    while i < records.len()
        invariant
            i <= records.len(),
            all == spec_records(records@),
            spec_records(kept@) == spec_first_records(all.subrange(0, i as int)),
        decreases records.len() - i,
    {
        let record = &records[i];
        let ghost seen = kept@;
        proof {
            assert(all.subrange(0, i + 1).drop_last() =~= all.subrange(0, i as int));
            assert(all.subrange(0, i + 1).last() == record@);
        }
        if !has_branch(&kept, record) {
            kept.push(
                RepoBranch {
                    repo_name: record.repo_name.clone(),
                    branch_name: record.branch_name.clone(),
                    latest_commit_sec: record.latest_commit_sec,
                },
            );
            proof {
                assert(spec_records(kept@) =~= spec_records(seen).push(record@));
            }
        }
        i += 1;
    }
    proof {
        assert(all.subrange(0, records.len() as int) =~= all);
    }
    kept
}

/// The branches of one repository.
///
/// Fails where the branches could not be enumerated. Otherwise every named
/// branch gives one record, in the order of enumeration; a branch without a
/// name gives none, and one whose tip could not be resolved gives a record
/// without a time.
pub fn get_branches_of_repo(repo: &RepoHandle) -> (r: Result<Vec<RepoBranch>, DiscoveryError>)
    ensures
        match r {
            Ok(records) => repo.branches.is_some() && spec_records(records@)
                == spec_records_of_repo(*repo),
            Err(e) => repo.branches.is_none() && e@ == (DiscoveryFault::BranchesUnreadable {
                path: repo.path@,
            }),
        },
{
    match &repo.branches {
        None => Err(DiscoveryError::BranchesUnreadable { path: repo.path.clone() }),
        Some(branches) => {
            let mut result: Vec<RepoBranch> = Vec::new();
            let mut i: usize = 0;
            proof {
                assert(spec_records(result@) =~= Seq::<BranchRecord>::empty());
            }
            while i < branches.len()
                invariant
                    i <= branches.len(),
                    spec_records(result@) == spec_records_of_branches(
                        repo.path@,
                        branches@.subrange(0, i as int),
                    ),
                decreases branches.len() - i,
            {
                let ghost seen = result@;
                proof {
                    assert(branches@.subrange(0, i + 1).drop_last() =~= branches@.subrange(
                        0,
                        i as int,
                    ));
                }
                match branch_record(repo, &branches[i]) {
                    Some(record) => {
                        let ghost added = record@;
                        result.push(record);
                        proof {
                            assert(spec_records(result@) =~= spec_records(seen).push(added));
                        }
                    },
                    None => {},
                }
                i += 1;
            }
            proof {
                assert(branches@.subrange(0, branches.len() as int) =~= branches@);
            }
            Ok(result)
        },
    }
}

/// A fault among the first `n` items is the first fault of the whole
/// stream too.
pub proof fn lemma_first_fault_prefix(stream: Seq<Located>, n: int)
    requires
        0 <= n <= stream.len(),
        spec_first_fault(stream.subrange(0, n)).is_some(),
    ensures
        spec_first_fault(stream) == spec_first_fault(stream.subrange(0, n)),
    decreases stream.len(),
{
    if n == stream.len() {
        assert(stream.subrange(0, n) =~= stream);
    } else {
        assert(stream.drop_last().subrange(0, n) =~= stream.subrange(0, n));
        lemma_first_fault_prefix(stream.drop_last(), n);
    }
}

/// Collects the branches of every repository beneath the configured
/// directories, each branch once, most recent tip first.
///
/// Fails where a configured directory could not be listed, and otherwise
/// where an entry could not be read: with the first such directory, or else
/// the first such entry. Failing to enumerate a repository's branches is no
/// failure of the scan: that repository gives no records.
///
/// Where the scan holds a repository more than once, as it does where a
/// directory is configured twice, each of its branches still gives one
/// record: the first that the scan holds of it.
pub fn collect_branches(listings: &Vec<DirListing>) -> (r: Result<Vec<RepoBranch>, DiscoveryError>)
    ensures
        match r {
            Ok(records) => spec_scan_fault(listings@).is_none() && spec_collected(
                listings@,
                spec_records(records@),
            ),
            Err(e) => spec_scan_fault(listings@) == Some(e@),
        },
{
    let stream = match get_repo_receiver(listings) {
        Ok(stream) => stream,
        Err(e) => {
            return Err(e);
        },
    };
    let ghost located = spec_located_stream(stream@);
    let mut result: Vec<RepoBranch> = Vec::new();
    let mut i: usize = 0;
    proof {
        assert(spec_records(result@) =~= Seq::<BranchRecord>::empty());
    }
    while i < stream.len()
        invariant
            i <= stream.len(),
            located == spec_located_stream(stream@),
            located == spec_locate(listings@),
            spec_first_unreadable_dir(listings@).is_none(),
            spec_first_fault(located.subrange(0, i as int)).is_none(),
            spec_records(result@) == spec_records_of_stream(located.subrange(0, i as int)),
        decreases stream.len() - i,
    {
        proof {
            assert(located.subrange(0, i + 1).drop_last() =~= located.subrange(0, i as int));
        }
        match &stream[i] {
            Err(e) => {
                proof {
                    assert(located.subrange(0, i + 1).last() == Located::Fault(e@));
                    lemma_first_fault_prefix(located, i + 1);
                }
                return Err(e.duplicate());
            },
            Ok(repo) => {
                match get_branches_of_repo(repo) {
                    Ok(mut records) => {
                        let ghost seen = result@;
                        let ghost added = records@;
                        result.append(&mut records);
                        proof {
                            assert(spec_records(result@) =~= spec_records(seen) + spec_records(
                                added,
                            ));
                        }
                    },
                    Err(_) => {
                        proof {
                            assert(spec_records(result@) + Seq::<BranchRecord>::empty()
                                =~= spec_records(result@));
                        }
                    },
                }
            },
        }
        i += 1;
    }
    proof {
        assert(located.subrange(0, stream.len() as int) =~= located);
    }
    let distinct = first_of_each_branch(&result);
    proof {
        lemma_sorted_first_records_are_collected(spec_scan_records(listings@));
    }
    Ok(sort_by_recency(distinct))
}

} // verus!
