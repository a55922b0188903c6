//! The search for manifests, as a sequence of decisions. The caller reads
//! the directories; what is read decides where the search goes next.

use crate::prags::Project;
use crate::text::{str_eq, string_views};
use vstd::prelude::*;
use vstd::string::StringExecFns;

verus! {

/// What kind of thing a directory entry is.
#[derive(Debug, Clone, Copy, PartialEq, Eq, Structural)]
pub enum EntryKind {
    File,
    Dir,
    Other,
}

/// One entry of a directory: its full path, its name, and its kind.
#[derive(Debug, Clone)]
pub struct Entry {
    pub path: String,
    pub file_name: String,
    pub kind: EntryKind,
}

/// A directory entry as a value.
pub struct EntryView {
    pub path: Seq<char>,
    pub file_name: Seq<char>,
    pub kind: EntryKind,
}

impl View for Entry {
    type V = EntryView;

    open spec fn view(&self) -> EntryView {
        EntryView { path: self.path@, file_name: self.file_name@, kind: self.kind }
    }
}

/// A directory as it was read: its entries in the order of reading, with
/// nothing in the place of an entry that could not be read.
pub type ListingView = Seq<Option<EntryView>>;

/// The value of a listing.
pub open spec fn listing_view(entries: Seq<Option<Entry>>) -> ListingView {
    Seq::new(
        entries.len(),
        |i: int|
            match entries[i] {
                Some(entry) => Some(entry@),
                None => None,
            },
    )
}

/// The entry is a manifest: a file by the name of `Cargo.toml`.
pub open spec fn is_manifest(entry: EntryView) -> bool {
    entry.kind == EntryKind::File && entry.file_name == "Cargo.toml"@
}

/// Reading stops at this entry: it is a manifest, or it could not be read.
pub open spec fn stops(entry: Option<EntryView>) -> bool {
    match entry {
        Some(entry) => is_manifest(entry),
        None => true,
    }
}

/// The number of entries before the first at which reading stops, or the
/// length of the listing where there is none.
pub open spec fn stop_index(listing: ListingView) -> int
    decreases listing.len(),
{
    if listing.len() == 0 || stops(listing[0]) {
        0
    } else {
        1 + stop_index(listing.drop_first())
    }
}

/// The paths of the directories among the entries, in order.
pub open spec fn directories(listing: ListingView) -> Seq<Seq<char>>
    decreases listing.len(),
{
    if listing.len() == 0 {
        Seq::empty()
    } else {
        let front = directories(listing.drop_last());
        match listing.last() {
            Some(entry) => if entry.kind == EntryKind::Dir {
                front.push(entry.path)
            } else {
                front
            },
            None => front,
        }
    }
}

/// Reading stops after `m` entries, at an entry that stops it or at the
/// end of the listing.
pub proof fn lemma_stop_index(listing: ListingView, m: int)
    requires
        0 <= m <= listing.len(),
        forall|k: int| 0 <= k < m ==> !stops(listing[k]),
        m < listing.len() ==> stops(listing[m]),
    ensures
        stop_index(listing) == m,
    decreases m,
{
    if m > 0 {
        lemma_stop_index(listing.drop_first(), m - 1);
    }
}

/// What one directory adds to the search. `found` is the manifest's path
/// if the directory is a project; `folders` are the directories to search
/// next; `complete` tells whether the directory was read without a fault.
pub struct Scan {
    pub found: Option<Seq<char>>,
    pub folders: Seq<Seq<char>>,
    pub complete: bool,
}

/// What a directory adds to the search, given its listing. A directory with
/// a manifest is a project: the manifest is found and nothing below is
/// searched. A directory that cannot be read to the end, or to its
/// manifest, adds nothing. Any other directory adds its subdirectories.
pub open spec fn scan_of(listing: ListingView) -> Scan {
    let k = stop_index(listing);
    if 0 <= k < listing.len() {
        match listing[k] {
            Some(entry) => Scan { found: Some(entry.path), folders: Seq::empty(), complete: true },
            None => Scan { found: None, folders: Seq::empty(), complete: false },
        }
    } else {
        Scan { found: None, folders: directories(listing), complete: true }
    }
}

/// The state of a search: the directories known so far, how many of them
/// have been read, and the manifests found.
pub struct CrawlView {
    pub folders: Seq<Seq<char>>,
    pub next: nat,
    pub manifests: Seq<Seq<char>>,
}

impl CrawlView {
    /// The directory to read next, if the search is not over.
    pub open spec fn current(self) -> Option<Seq<char>> {
        if self.next < self.folders.len() {
            Some(self.folders[self.next as int])
        } else {
            None
        }
    }

    /// The search after the current directory was read, or could not be
    /// opened at all.
    pub open spec fn visit(self, listing: Option<ListingView>) -> CrawlView {
        if self.next >= self.folders.len() {
            self
        } else {
            match listing {
                Some(listing) => CrawlView {
                    folders: self.folders + scan_of(listing).folders,
                    next: self.next + 1,
                    manifests: match scan_of(listing).found {
                        Some(path) => self.manifests.push(path),
                        None => self.manifests,
                    },
                },
                None => CrawlView { next: self.next + 1, ..self },
            }
        }
    }
}

/// The path at which the search starts: the one asked for if there is one
/// and it exists, else the current directory.
pub open spec fn starting_path(path: Option<Seq<char>>, exists: bool) -> Seq<char> {
    match path {
        Some(path) => if exists {
            path
        } else {
            "./"@
        },
        None => "./"@,
    }
}

/// A search for manifests, directory by directory and breadth first.
#[derive(Debug)]
pub struct Crawl {
    folders: Vec<String>,
    toml: Vec<String>,
    i: usize,
}

impl View for Crawl {
    type V = CrawlView;

    closed spec fn view(&self) -> CrawlView {
        CrawlView {
            folders: string_views(self.folders@),
            next: self.i as nat,
            manifests: string_views(self.toml@),
        }
    }
}

impl Project {
    /// Starts the search for manifests at `path`, or at the current
    /// directory where no path is given or `exists` tells that the given
    /// one does not exist.
    pub fn get_toml(&self, path: Option<String>, exists: bool) -> (crawl: Crawl)
        ensures
            crawl@ == (CrawlView {
                folders: seq![
                    starting_path(
                        match path {
                            Some(path) => Some(path@),
                            None => None,
                        },
                        exists,
                    ),
                ],
                next: 0,
                manifests: Seq::empty(),
            }),
    {
        let start = match path {
            Some(path) => if exists {
                path
            } else {
                String::from_str("./")
            },
            None => String::from_str("./"),
        };
        let mut folders: Vec<String> = Vec::new();
        folders.push(start);
        let crawl = Crawl { folders, toml: Vec::new(), i: 0 };
        assert(string_views(crawl.folders@) =~= seq![crawl.folders@[0]@]);
        assert(string_views(crawl.toml@) =~= Seq::<Seq<char>>::empty());
        crawl
    }
}

/// Takes in one directory as it was read. If it holds a manifest, the
/// manifest's path goes to `tomls` and its subdirectories are left
/// alone; if an entry could not be read before a manifest was seen,
/// nothing is added and the result is `false`; otherwise its
/// subdirectories go to `folders`.
pub fn go_through_folder(
    entries: &Vec<Option<Entry>>,
    folders: &mut Vec<String>,
    tomls: &mut Vec<String>,
) -> (complete: bool)
    ensures
        complete == scan_of(listing_view(entries@)).complete,
        string_views(final(folders)@) == string_views(old(folders)@) + scan_of(
            listing_view(entries@),
        ).folders,
        string_views(final(tomls)@) == match scan_of(listing_view(entries@)).found {
            Some(path) => string_views(old(tomls)@).push(path),
            None => string_views(old(tomls)@),
        },
{
    let ghost listing = listing_view(entries@);
    let mut temp_folders: Vec<String> = Vec::new();
    let mut i: usize = 0;
    proof {
        assert(listing.take(0) =~= Seq::<Option<EntryView>>::empty());
        assert(string_views(temp_folders@) =~= Seq::<Seq<char>>::empty());
        assert(string_views(folders@) + Seq::<Seq<char>>::empty() =~= string_views(folders@));
    }
    while i < entries.len()
        invariant
            i <= entries.len(),
            listing == listing_view(entries@),
            forall|k: int| 0 <= k < i ==> !stops(listing[k]),
            string_views(temp_folders@) == directories(listing.take(i as int)),
            *folders == *old(folders),
            *tomls == *old(tomls),
        decreases entries.len() - i,
    {
        match &entries[i] {
            None => {
                proof {
                    lemma_stop_index(listing, i as int);
                    assert(string_views(folders@) + Seq::<Seq<char>>::empty() =~= string_views(
                        folders@,
                    ));
                }
                return false;
            },
            Some(entry) => {
                assert(listing[i as int] == Some(entry@));
                let is_file = match entry.kind {
                    EntryKind::File => true,
                    _ => false,
                };
                let is_dir = match entry.kind {
                    EntryKind::Dir => true,
                    _ => false,
                };
                proof {
                    assert(listing.take(i + 1).drop_last() =~= listing.take(i as int));
                }
                if is_file && str_eq(entry.file_name.as_str(), "Cargo.toml") {
                    let ghost before = string_views(tomls@);
                    tomls.push(entry.path.clone());
                    proof {
                        lemma_stop_index(listing, i as int);
                        assert(string_views(tomls@) =~= before.push(entry@.path));
                        assert(string_views(folders@) + Seq::<Seq<char>>::empty()
                            =~= string_views(folders@));
                    }
                    return true;
                } else if is_dir {
                    let ghost before = string_views(temp_folders@);
                    temp_folders.push(entry.path.clone());
                    assert(string_views(temp_folders@) =~= before.push(entry@.path));
                }
            },
        }
        i += 1;
    }
    proof {
        lemma_stop_index(listing, listing.len() as int);
        assert(listing.take(i as int) =~= listing);
    }
    let ghost known = string_views(folders@);
    let mut k: usize = 0;
    while k < temp_folders.len()
        invariant
            k <= temp_folders.len(),
            string_views(folders@) == known + string_views(temp_folders@).take(k as int),
            *tomls == *old(tomls),
        decreases temp_folders.len() - k,
    {
        let ghost before = string_views(folders@);
        folders.push(temp_folders[k].clone());
        proof {
            assert(string_views(folders@) =~= before.push(temp_folders@[k as int]@));
            assert(string_views(temp_folders@).take(k + 1) =~= string_views(
                temp_folders@,
            ).take(k as int).push(temp_folders@[k as int]@));
        }
        k += 1;
    }
    assert(string_views(temp_folders@).take(k as int) =~= string_views(temp_folders@));
    true
}

impl Crawl {
    /// The directory to read next; none when the search is over.
    pub fn current(&self) -> (folder: Option<&String>)
        ensures
            match folder {
                Some(folder) => self@.current() == Some(folder@),
                None => self@.current() is None,
            },
    {
        if self.i < self.folders.len() {
            Some(&self.folders[self.i])
        } else {
            None
        }
    }

    /// Takes in the current directory as it was read, or `None` where it
    /// could not be opened, and moves on to the next. After the search is
    /// over nothing happens.
    pub fn visit(&mut self, entries: Option<Vec<Option<Entry>>>)
        ensures
            final(self)@ == old(self)@.visit(
                match entries {
                    Some(entries) => Some(listing_view(entries@)),
                    None => None,
                },
            ),
    {
        if self.i < self.folders.len() {
            if let Some(entries) = entries {
                let _ = go_through_folder(&entries, &mut self.folders, &mut self.toml);
            }
            self.i += 1;
        }
    }

    /// The paths of the manifests found, in the order of finding.
    pub fn into_manifests(self) -> (manifests: Vec<String>)
        ensures
            string_views(manifests@) == self@.manifests,
    {
        self.toml
    }
}

} // verus!
