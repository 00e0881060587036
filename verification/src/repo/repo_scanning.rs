//! Locating repositories: which entries of the configured directories are
//! repositories, which are passed over, and which make the scan fail.
//!
//! The disk is read by the caller. What it found arrives here as plain
//! values, one [`DirListing`] per configured directory, and every decision
//! about those findings is taken in this module.

use vstd::prelude::*;

verus! {

/// What was read of one local branch.
#[derive(Debug, Clone)]
pub struct BranchProbe {
    /// The branch's short name; `None` where it has none or where the name
    /// is not text.
    pub name: Option<String>,
    /// Time of the commit at the tip, in seconds since the epoch; `None`
    /// where the tip could not be resolved to a commit.
    pub tip_commit_sec: Option<i64>,
}

/// A directory that opened as a repository.
#[derive(Debug, Clone)]
pub struct RepoHandle {
    /// Path of the repository.
    pub path: String,
    /// Its local branches in the order they were enumerated; `None` where
    /// the enumeration failed.
    pub branches: Option<Vec<BranchProbe>>,
}

/// What was found of one entry of a configured directory.
#[derive(Debug, Clone)]
pub enum EntryProbe {
    /// The entry, or its type, could not be read.
    Unreadable { path: String, reason: String },
    /// The entry is not a directory.
    NotDirectory,
    /// The entry is a directory that did not open as a repository.
    NotRepository,
    /// The entry is a repository.
    Repository(RepoHandle),
}

/// The listing of one configured directory.
#[derive(Debug)]
pub struct DirListing {
    /// The directory as it was configured.
    pub base_dir: String,
    /// Its entries in the order the directory gave them, or the reason why
    /// it could not be listed.
    pub entries: Result<Vec<EntryProbe>, String>,
}

/// Whether enumerating gave every branch: it began, and no item of it
/// failed.
pub open spec fn spec_enumerated(items: Option<Vec<Option<BranchProbe>>>) -> bool {
    match items {
        Some(items) => forall|i: int| 0 <= i < items@.len() ==> (#[trigger] items@[i]).is_some(),
        None => false,
    }
}

/// The branches of a repository from what enumerating them gave, item by
/// item: `None` where the enumeration could not begin or where one of its
/// items failed, else the branches in their order.
pub fn enumerated_branches(items: &Option<Vec<Option<BranchProbe>>>) -> (r: Option<
    Vec<BranchProbe>,
>)
    ensures
        r.is_some() == spec_enumerated(*items),
        r.is_some() ==> r.unwrap()@.len() == items.unwrap()@.len() && forall|i: int|
            0 <= i < r.unwrap()@.len() ==> Some(#[trigger] r.unwrap()@[i]) == items.unwrap()@[i],
{
    match items {
        None => None,
        Some(list) => {
            let mut branches: Vec<BranchProbe> = Vec::new();
            let mut i: usize = 0;
            while i < list.len()
                invariant
                    i <= list.len(),
                    *items == Some(*list),
                    branches.len() == i,
                    forall|k: int| 0 <= k < i ==> (#[trigger] list@[k]).is_some(),
                    forall|k: int| 0 <= k < i ==> Some(#[trigger] branches@[k]) == list@[k],
                decreases list.len() - i,
            {
                match &list[i] {
                    None => {
                        proof {
                            assert(list@[i as int].is_none());
                        }
                        return None;
                    },
                    Some(branch) => {
                        let name = match &branch.name {
                            Some(name) => Some(name.clone()),
                            None => None,
                        };
                        branches.push(BranchProbe { name, tip_commit_sec: branch.tip_commit_sec });
                    },
                }
                i += 1;
            }
            Some(branches)
        },
    }
}

/// Why a directory, an entry or a repository could not be read.
#[derive(Debug)]
pub enum DiscoveryError {
    /// A configured directory could not be listed.
    BaseDirUnreadable { path: String, reason: String },
    /// An entry of a configured directory could not be classified.
    EntryUnreadable { path: String, reason: String },
    /// The branches of a repository could not be enumerated.
    BranchesUnreadable { path: String },
}

/// A [`DiscoveryError`] as a mathematical value.
pub enum DiscoveryFault {
    BaseDirUnreadable { path: Seq<char>, reason: Seq<char> },
    EntryUnreadable { path: Seq<char>, reason: Seq<char> },
    BranchesUnreadable { path: Seq<char> },
}

impl View for DiscoveryError {
    type V = DiscoveryFault;

    open spec fn view(&self) -> DiscoveryFault {
        match *self {
            DiscoveryError::BaseDirUnreadable { path, reason } => DiscoveryFault::BaseDirUnreadable {
                path: path@,
                reason: reason@,
            },
            DiscoveryError::EntryUnreadable { path, reason } => DiscoveryFault::EntryUnreadable {
                path: path@,
                reason: reason@,
            },
            DiscoveryError::BranchesUnreadable { path } => DiscoveryFault::BranchesUnreadable {
                path: path@,
            },
        }
    }
}

impl DiscoveryError {
    /// The path of what could not be read.
    pub fn path(&self) -> (p: &String)
        ensures
            p@ == spec_fault_path(self@),
    {
        match self {
            DiscoveryError::BaseDirUnreadable { path, .. } => path,
            DiscoveryError::EntryUnreadable { path, .. } => path,
            DiscoveryError::BranchesUnreadable { path } => path,
        }
    }

    /// The error in words: what could not be read, its path, and the
    /// reason where one is known.
    pub fn message(&self) -> (text: String)
        ensures
            text@ == spec_fault_text(self@),
    {
        match self {
            DiscoveryError::BaseDirUnreadable { path, reason } => {
                let what: String = "cannot list directory ".to_owned();
                what.concat(path.as_str()).concat(": ").concat(reason.as_str())
            },
            DiscoveryError::EntryUnreadable { path, reason } => {
                let what: String = "cannot read entry ".to_owned();
                what.concat(path.as_str()).concat(": ").concat(reason.as_str())
            },
            DiscoveryError::BranchesUnreadable { path } => {
                let what: String = "cannot enumerate branches of ".to_owned();
                what.concat(path.as_str())
            },
        }
    }

    /// An independent copy of the error.
    pub fn duplicate(&self) -> (e: DiscoveryError)
        ensures
            e@ == self@,
    {
        match self {
            DiscoveryError::BaseDirUnreadable { path, reason } => DiscoveryError::BaseDirUnreadable {
                path: path.clone(),
                reason: reason.clone(),
            },
            DiscoveryError::EntryUnreadable { path, reason } => DiscoveryError::EntryUnreadable {
                path: path.clone(),
                reason: reason.clone(),
            },
            DiscoveryError::BranchesUnreadable { path } => DiscoveryError::BranchesUnreadable {
                path: path.clone(),
            },
        }
    }
}

/// The path that a fault names.
pub open spec fn spec_fault_path(f: DiscoveryFault) -> Seq<char> {
    match f {
        DiscoveryFault::BaseDirUnreadable { path, .. } => path,
        DiscoveryFault::EntryUnreadable { path, .. } => path,
        DiscoveryFault::BranchesUnreadable { path } => path,
    }
}

/// A fault in words.
pub open spec fn spec_fault_text(f: DiscoveryFault) -> Seq<char> {
    match f {
        DiscoveryFault::BaseDirUnreadable { path, reason } => "cannot list directory "@ + path
            + ": "@ + reason,
        DiscoveryFault::EntryUnreadable { path, reason } => "cannot read entry "@ + path + ": "@
            + reason,
        DiscoveryFault::BranchesUnreadable { path } => "cannot enumerate branches of "@ + path,
    }
}

/// One item of the stream that locating produces: a repository, or the
/// fault of one entry.
pub enum Located {
    Repo(RepoHandle),
    Fault(DiscoveryFault),
}

/// What one entry contributes to the stream: nothing where it is no
/// repository, its fault where it could not be read.
pub open spec fn spec_find_repo(entry: EntryProbe) -> Option<Located> {
    match entry {
        EntryProbe::Unreadable { path, reason } => Some(
            Located::Fault(DiscoveryFault::EntryUnreadable { path: path@, reason: reason@ }),
        ),
        EntryProbe::NotDirectory => None,
        EntryProbe::NotRepository => None,
        EntryProbe::Repository(repo) => Some(Located::Repo(repo)),
    }
}

/// The stream that the entries of one directory give, in their order.
pub open spec fn spec_locate_entries(entries: Seq<EntryProbe>) -> Seq<Located>
    decreases entries.len(),
{
    if entries.len() == 0 {
        Seq::empty()
    } else {
        let before = spec_locate_entries(entries.drop_last());
        match spec_find_repo(entries.last()) {
            Some(item) => before.push(item),
            None => before,
        }
    }
}

/// The fault of the first configured directory that could not be listed.
pub open spec fn spec_first_unreadable_dir(listings: Seq<DirListing>) -> Option<DiscoveryFault>
    decreases listings.len(),
{
    if listings.len() == 0 {
        None
    } else {
        match spec_first_unreadable_dir(listings.drop_last()) {
            Some(f) => Some(f),
            None => match listings.last().entries {
                Ok(_) => None,
                Err(reason) => Some(
                    DiscoveryFault::BaseDirUnreadable {
                        path: listings.last().base_dir@,
                        reason: reason@,
                    },
                ),
            },
        }
    }
}

/// The stream that all listings give: directory after directory, each in
/// its own order. A directory that could not be listed gives nothing.
pub open spec fn spec_locate(listings: Seq<DirListing>) -> Seq<Located>
    decreases listings.len(),
{
    if listings.len() == 0 {
        Seq::empty()
    } else {
        let before = spec_locate(listings.drop_last());
        match listings.last().entries {
            Ok(entries) => before + spec_locate_entries(entries@),
            Err(_) => before,
        }
    }
}

/// One item of the exec stream as a mathematical value.
pub open spec fn spec_located_item(item: Result<&RepoHandle, DiscoveryError>) -> Located {
    match item {
        Ok(repo) => Located::Repo(*repo),
        Err(e) => Located::Fault(e@),
    }
}

/// The exec stream as a sequence of mathematical values.
pub open spec fn spec_located_stream(stream: Seq<Result<&RepoHandle, DiscoveryError>>) -> Seq<
    Located,
> {
    stream.map_values(|item: Result<&RepoHandle, DiscoveryError>| spec_located_item(item))
}

/// Classifies one entry: a repository is handed on, an entry that is no
/// directory or no repository is passed over, and one that could not be read
/// is an error.
pub fn find_repo(entry: &EntryProbe) -> (r: Result<Option<&RepoHandle>, DiscoveryError>)
    ensures
        match r {
            Ok(Some(repo)) => spec_find_repo(*entry) == Some(Located::Repo(*repo)),
            Ok(None) => spec_find_repo(*entry).is_none(),
            Err(e) => spec_find_repo(*entry) == Some(Located::Fault(e@)),
        },
{
    match entry {
        EntryProbe::Unreadable { path, reason } => Err(
            DiscoveryError::EntryUnreadable { path: path.clone(), reason: reason.clone() },
        ),
        EntryProbe::NotDirectory => Ok(None),
        EntryProbe::NotRepository => Ok(None),
        EntryProbe::Repository(repo) => Ok(Some(repo)),
    }
}

/// Adds to `stream` what the entries of one directory give, in their order.
fn locate_entries<'a>(
    entries: &'a Vec<EntryProbe>,
    stream: &mut Vec<Result<&'a RepoHandle, DiscoveryError>>,
)
    ensures
        spec_located_stream(final(stream)@) == spec_located_stream(old(stream)@)
            + spec_locate_entries(entries@),
{
    let ghost before = spec_located_stream(stream@);
    let mut j: usize = 0;
    while j < entries.len()
        invariant
            j <= entries.len(),
            spec_located_stream(stream@) == before + spec_locate_entries(
                entries@.subrange(0, j as int),
            ),
        decreases entries.len() - j,
    {
        let ghost seen = stream@;
        proof {
            assert(entries@.subrange(0, j + 1).drop_last() =~= entries@.subrange(0, j as int));
        }
        match find_repo(&entries[j]) {
            Ok(Some(repo)) => {
                stream.push(Ok(repo));
                proof {
                    assert(spec_located_stream(stream@) =~= spec_located_stream(seen).push(
                        Located::Repo(*repo),
                    ));
                }
            },
            Ok(None) => {},
            Err(e) => {
                let ghost fault = e@;
                stream.push(Err(e));
                proof {
                    assert(spec_located_stream(stream@) =~= spec_located_stream(seen).push(
                        Located::Fault(fault),
                    ));
                }
            },
        }
        proof {
            assert(spec_located_stream(stream@) =~= before + spec_locate_entries(
                entries@.subrange(0, j + 1),
            ));
        }
        j += 1;
    }
    proof {
        assert(entries@.subrange(0, entries.len() as int) =~= entries@);
    }
}

/// Locates the repositories beneath the configured directories.
///
/// Fails with the first configured directory that could not be listed.
/// Otherwise the stream holds, directory after directory and entry after
/// entry, each repository and the fault of each entry that could not be
/// read; entries that are no repositories leave no trace.
pub fn get_repo_receiver<'a>(listings: &'a Vec<DirListing>) -> (r: Result<
    Vec<Result<&'a RepoHandle, DiscoveryError>>,
    DiscoveryError,
>)
    ensures
        match r {
            Ok(stream) => spec_first_unreadable_dir(listings@).is_none() && spec_located_stream(
                stream@,
            ) == spec_locate(listings@),
            Err(e) => spec_first_unreadable_dir(listings@) == Some(e@),
        },
{
    let mut stream: Vec<Result<&'a RepoHandle, DiscoveryError>> = Vec::new();
    let mut i: usize = 0;
    proof {
        assert(spec_located_stream(stream@) =~= Seq::<Located>::empty());
    }
    while i < listings.len()
        invariant
            i <= listings.len(),
            spec_first_unreadable_dir(listings@.subrange(0, i as int)).is_none(),
            spec_located_stream(stream@) == spec_locate(listings@.subrange(0, i as int)),
        decreases listings.len() - i,
    {
        proof {
            assert(listings@.subrange(0, i + 1).drop_last() =~= listings@.subrange(0, i as int));
        }
        let listing = &listings[i];
        match &listing.entries {
            Ok(entries) => {
                locate_entries(entries, &mut stream);
            },
            Err(reason) => {
                proof {
                    lemma_first_unreadable_dir_prefix(listings@, i + 1);
                }
                return Err(
                    DiscoveryError::BaseDirUnreadable {
                        path: listing.base_dir.clone(),
                        reason: reason.clone(),
                    },
                );
            },
        }
        i += 1;
    }
    proof {
        assert(listings@.subrange(0, listings.len() as int) =~= listings@);
    }
    Ok(stream)
}

/// A directory that could not be listed among the first `n` is the first
/// such directory of the whole sequence too.
pub proof fn lemma_first_unreadable_dir_prefix(listings: Seq<DirListing>, n: int)
    requires
        0 <= n <= listings.len(),
        spec_first_unreadable_dir(listings.subrange(0, n)).is_some(),
    ensures
        spec_first_unreadable_dir(listings) == spec_first_unreadable_dir(listings.subrange(0, n)),
    decreases listings.len(),
{
    if n == listings.len() {
        assert(listings.subrange(0, n) =~= listings);
    } else {
        assert(listings.drop_last().subrange(0, n) =~= listings.subrange(0, n));
        lemma_first_unreadable_dir_prefix(listings.drop_last(), n);
    }
}

} // verus!
