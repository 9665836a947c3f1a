//! An index of files and directories with the change dates they had when indexed.
//!
//! What the library knows of the disk comes from observations made by the caller:
//! a `FsProbe` of one path, a `DirSnapshot` of a directory tree, and `ChangeDates`,
//! the change dates of paths as they are now.
use vstd::prelude::*;

use crate::path::{is_below, lemma_below_not_same, lemma_below_transitive, same_path, same_path_spec};

verus! {

/// What was observed of one path: whether it exists, is a regular file, is a
/// directory, and its change date (the milliseconds elapsed since its last
/// modification) where its metadata could be read.
#[derive(Debug, Clone, Copy)]
pub struct FsProbe {
    pub exists: bool,
    pub is_file: bool,
    pub is_dir: bool,
    pub change_date: Option<u128>,
}

/// A directory as it was read: its path, what was observed of it, and its entries
/// in the order they were listed (`None` where it could not be listed).
#[derive(Debug)]
pub struct DirSnapshot {
    pub path: String,
    pub probe: FsProbe,
    pub entries: Option<Vec<EntrySnapshot>>,
}

/// One entry of a listed directory: a directory, read in turn, or anything else
/// with its path and what was observed of it.
#[derive(Debug)]
pub enum EntrySnapshot {
    Dir(DirSnapshot),
    Other(String, FsProbe),
}

/// The change dates of paths as they are now, each path with its date or with
/// `None` where its metadata cannot be read. A path that is not listed has none.
#[derive(Debug, Clone)]
pub struct ChangeDates {
    pub dates: Vec<(String, Option<u128>)>,
}

/// The date recorded for the first listed path equal to `path`.
pub open spec fn date_of(dates: Seq<(String, Option<u128>)>, path: Seq<char>) -> Option<u128>
    decreases dates.len(),
{
    if dates.len() == 0 {
        None
    } else if same_path_spec(dates[0].0@, path) {
        dates[0].1
    } else {
        date_of(dates.drop_first(), path)
    }
}

/// An element of the index: it has a path and the change date it had when indexed.
pub trait FsElement {
    fn get_saved_change_date(&self) -> u128;

    fn get_current_change_date(&self, now: &ChangeDates) -> Option<u128>;

    fn get_path(&self) -> &str;

    fn recheck_needed(&self, now: &ChangeDates) -> bool;
}

/// An indexed file.
#[derive(Debug, Clone)]
pub struct IndexedFile {
    path: String,
    saved_change_date: u128,
}

/// An indexed file as plain values.
pub struct IndexedFileView {
    pub path: Seq<char>,
    pub saved_change_date: u128,
}

impl View for IndexedFile {
    type V = IndexedFileView;

    closed spec fn view(&self) -> IndexedFileView {
        IndexedFileView { path: self.path@, saved_change_date: self.saved_change_date }
    }
}

/// An indexed directory: its files, the paths of its subdirectories, and its change date.
#[derive(Debug, Clone)]
pub struct IndexedDirectory {
    path: String,
    children: Vec<IndexedFile>,
    children_directories: Vec<String>,
    saved_change_date: u128,
}

/// An indexed directory as plain values.
pub struct IndexedDirectoryView {
    pub path: Seq<char>,
    pub children: Seq<IndexedFileView>,
    pub children_directories: Seq<Seq<char>>,
    pub saved_change_date: u128,
}

pub open spec fn files_view(v: Seq<IndexedFile>) -> Seq<IndexedFileView> {
    Seq::new(v.len(), |i: int| v[i]@)
}

pub open spec fn strings_view(v: Seq<String>) -> Seq<Seq<char>> {
    Seq::new(v.len(), |i: int| v[i]@)
}

pub open spec fn dirs_view(v: Seq<IndexedDirectory>) -> Seq<IndexedDirectoryView> {
    Seq::new(v.len(), |i: int| v[i]@)
}

pub open spec fn dir_view_opt(o: Option<IndexedDirectory>) -> Option<IndexedDirectoryView> {
    match o {
        Some(d) => Some(d@),
        None => None,
    }
}

impl View for IndexedDirectory {
    type V = IndexedDirectoryView;

    closed spec fn view(&self) -> IndexedDirectoryView {
        IndexedDirectoryView {
            path: self.path@,
            children: files_view(self.children@),
            children_directories: strings_view(self.children_directories@),
            saved_change_date: self.saved_change_date,
        }
    }
}

/// The file indexed at `path`: only an existing regular file whose change date was read.
pub open spec fn index_file(path: Seq<char>, probe: FsProbe) -> Option<IndexedFileView> {
    if probe.exists && probe.is_file && probe.change_date is Some {
        Some(IndexedFileView { path, saved_change_date: probe.change_date->0 })
    } else {
        None
    }
}

/// Indexing the entries of a directory in order: the files indexed, the paths of
/// the subdirectories, and the directories indexed on the way (each subdirectory
/// after those below it).
pub open spec fn index_entries(es: Seq<EntrySnapshot>) -> (Seq<IndexedFileView>, Seq<Seq<char>>, Seq<
    IndexedDirectoryView,
>)
    decreases es,
{
    if es.len() == 0 {
        (Seq::empty(), Seq::empty(), Seq::empty())
    } else {
        let prev = index_entries(es.drop_last());
        match es.last() {
            EntrySnapshot::Dir(sub) => {
                let below = index_dir(sub);
                let pushed = prev.2 + below.1;
                (
                    prev.0,
                    prev.1.push(sub.path@),
                    match below.0 {
                        Some(v) => pushed.push(v),
                        None => pushed,
                    },
                )
            },
            EntrySnapshot::Other(p, probe) => (
                match index_file(p@, probe) {
                    Some(f) => prev.0.push(f),
                    None => prev.0,
                },
                prev.1,
                prev.2,
            ),
        }
    }
}

/// Indexing a directory tree: the directory, if it exists, is a directory, has a
/// readable change date and could be listed; and the directories indexed below it.
pub open spec fn index_dir(d: DirSnapshot) -> (Option<IndexedDirectoryView>, Seq<IndexedDirectoryView>)
    decreases d,
{
    match d.entries {
        Some(es) => if d.probe.exists && d.probe.is_dir && d.probe.change_date is Some {
            let r = index_entries(es@);
            (
                Some(
                    IndexedDirectoryView {
                        path: d.path@,
                        children: r.0,
                        children_directories: r.1,
                        saved_change_date: d.probe.change_date->0,
                    },
                ),
                r.2,
            )
        } else {
            (None, Seq::empty())
        },
        None => (None, Seq::empty()),
    }
}

/// The index element needs a recheck when its current change date cannot be read
/// or differs from the saved one.
pub open spec fn date_changed(saved: u128, current: Option<u128>) -> bool {
    match current {
        None => true,
        Some(d) => saved != d,
    }
}

/// Whether an indexed file needs a recheck, given the change dates of now.
pub open spec fn file_recheck_needed(f: IndexedFileView, now: Seq<(String, Option<u128>)>) -> bool {
    date_changed(f.saved_change_date, date_of(now, f.path))
}

/// Whether an indexed directory needs a recheck, given the change dates of now:
/// its own date changed, or every one of its files needs a recheck.
pub open spec fn dir_recheck_needed(d: IndexedDirectoryView, now: Seq<(String, Option<u128>)>) -> bool {
    date_changed(d.saved_change_date, date_of(now, d.path)) || forall|i: int|
        0 <= i < d.children.len() ==> #[trigger] file_recheck_needed(d.children[i], now)
}

fn copy_string(s: &String) -> (r: String)
    ensures
        r@ == s@,
{
    s.clone()
}

/// The date the change dates of now hold for `path`.
fn lookup_date(now: &ChangeDates, path: &str) -> (r: Option<u128>)
    ensures
        r == date_of(now.dates@, path@),
{
    let mut i: usize = 0;
    assert(now.dates@.skip(0) =~= now.dates@);
    while i < now.dates.len()
        invariant
            i <= now.dates@.len(),
            date_of(now.dates@.skip(i as int), path@) == date_of(now.dates@, path@),
        decreases now.dates@.len() - i,
    {
        let ghost rest = now.dates@.skip(i as int);
        assert(rest[0] == now.dates@[i as int]);
        assert(rest.drop_first() =~= now.dates@.skip(i + 1));
        if same_path(now.dates[i].0.as_str(), path) {
            return now.dates[i].1;
        }
        i = i + 1;
    }
    assert(now.dates@.skip(i as int).len() == 0);
    None
}

impl IndexedFile {
    /// Indexes the file at `path`, given what was observed of it: only an existing
    /// regular file whose change date could be read is indexed.
    pub fn new(path: String, probe: &FsProbe) -> (r: Option<IndexedFile>)
        ensures
            match r {
                Some(f) => index_file(path@, *probe) == Some(f@),
                None => index_file(path@, *probe) is None,
            },
    {
        if probe.exists && probe.is_file {
            match probe.change_date {
                Some(d) => Some(IndexedFile { path, saved_change_date: d }),
                None => None,
            }
        } else {
            None
        }
    }
}

impl FsElement for IndexedFile {
    fn get_saved_change_date(&self) -> (r: u128)
        ensures
            r == self@.saved_change_date,
    {
        self.saved_change_date
    }

    fn get_current_change_date(&self, now: &ChangeDates) -> (r: Option<u128>)
        ensures
            r == date_of(now.dates@, self@.path),
    {
        lookup_date(now, self.path.as_str())
    }

    fn get_path(&self) -> (r: &str)
        ensures
            r@ == self@.path,
    {
        self.path.as_str()
    }

    fn recheck_needed(&self, now: &ChangeDates) -> (r: bool)
        ensures
            r == file_recheck_needed(self@, now.dates@),
    {
        let res = self.get_current_change_date(now);
        if res.is_none() {
            return true;
        }
        if self.saved_change_date != res.unwrap() {
            return true;
        }
        return false;
    }
}

impl IndexedDirectory {
    /// Indexes the directory tree read into `snapshot`. Every subdirectory indexed on
    /// the way is appended to `indexed_directories`, each after those below it; the
    /// directory itself is returned, if it could be indexed.
    pub fn new(snapshot: &DirSnapshot, indexed_directories: &mut Vec<IndexedDirectory>) -> (r: Option<
        IndexedDirectory,
    >)
        ensures
            dir_view_opt(r) == index_dir(*snapshot).0,
            dirs_view(final(indexed_directories)@) == dirs_view(old(indexed_directories)@) + index_dir(
                *snapshot,
            ).1,
        decreases snapshot,
    {
        let ghost old_dirs = dirs_view(indexed_directories@);
        if !(snapshot.probe.exists && snapshot.probe.is_dir) {
            assert(dirs_view(indexed_directories@) =~= old_dirs + Seq::empty());
            return None;
        }
        let date = match snapshot.probe.change_date {
            Some(d) => d,
            None => {
                assert(dirs_view(indexed_directories@) =~= old_dirs + Seq::empty());
                return None;
            },
        };
        let es = match &snapshot.entries {
            Some(es) => es,
            None => {
                assert(dirs_view(indexed_directories@) =~= old_dirs + Seq::empty());
                return None;
            },
        };
        let mut children: Vec<IndexedFile> = Vec::new();
        let mut children_dirs: Vec<String> = Vec::new();
        let mut i: usize = 0;
        assert(es@.take(0) =~= Seq::<EntrySnapshot>::empty());
        assert(files_view(children@) =~= Seq::empty());
        assert(strings_view(children_dirs@) =~= Seq::empty());
        assert(dirs_view(indexed_directories@) =~= old_dirs + Seq::empty());
        while i < es.len()
            invariant
                snapshot.entries == Some(*es),
                i <= es@.len(),
                files_view(children@) == index_entries(es@.take(i as int)).0,
                strings_view(children_dirs@) == index_entries(es@.take(i as int)).1,
                dirs_view(indexed_directories@) == old_dirs + index_entries(es@.take(i as int)).2,
            decreases es@.len() - i,
        {
            let ghost prefix = es@.take(i as int);
            let ghost prev = index_entries(prefix);
            assert(es@.take(i + 1).drop_last() =~= prefix);
            assert(es@.take(i + 1).last() == es@[i as int]);
            match &es[i] {
                EntrySnapshot::Dir(sub) => {
                    let ghost before = dirs_view(indexed_directories@);
                    let ghost before_dirs = strings_view(children_dirs@);
                    children_dirs.push(copy_string(&sub.path));
                    assert(strings_view(children_dirs@) =~= before_dirs.push(sub.path@));
                    proof {
                        assert(decreases_to!(*snapshot => snapshot.entries));
                        assert(snapshot.entries->0 == *es);
                        assert(decreases_to!(snapshot.entries => snapshot.entries->0));
                        assert(decreases_to!(*es => es@));
                        assert(decreases_to!(es@ => es@[i as int]));
                        assert(decreases_to!(es@[i as int] => *sub));
                        assert(decreases_to!(*snapshot => *sub));
                    }
                    let res = IndexedDirectory::new(sub, indexed_directories);
                    let ghost mid = dirs_view(indexed_directories@);
                    match res {
                        Some(d) => {
                            indexed_directories.push(d);
                            assert(dirs_view(indexed_directories@) =~= mid.push(d@));
                        },
                        None => {},
                    }
                    assert(dirs_view(indexed_directories@) =~= old_dirs + index_entries(
                        es@.take(i + 1),
                    ).2);
                },
                EntrySnapshot::Other(p, probe) => {
                    let ghost before = files_view(children@);
                    match IndexedFile::new(copy_string(p), probe) {
                        Some(f) => {
                            children.push(f);
                            assert(files_view(children@) =~= before.push(f@));
                        },
                        None => {},
                    }
                },
            }
            i = i + 1;
        }
        assert(es@.take(es@.len() as int) =~= es@);
        Some(
            IndexedDirectory {
                path: copy_string(&snapshot.path),
                children,
                children_directories: children_dirs,
                saved_change_date: date,
            },
        )
    }
}

impl IndexedDirectory {
    /// The files indexed in this directory, in listing order.
    pub fn children(&self) -> (r: &Vec<IndexedFile>)
        ensures
            files_view(r@) == self@.children,
    {
        &self.children
    }

    /// The paths of the subdirectories of this directory, in listing order.
    pub fn children_directories(&self) -> (r: &Vec<String>)
        ensures
            strings_view(r@) == self@.children_directories,
    {
        &self.children_directories
    }
}

impl FsElement for IndexedDirectory {
    fn get_saved_change_date(&self) -> (r: u128)
        ensures
            r == self@.saved_change_date,
    {
        self.saved_change_date
    }

    fn get_current_change_date(&self, now: &ChangeDates) -> (r: Option<u128>)
        ensures
            r == date_of(now.dates@, self@.path),
    {
        lookup_date(now, self.path.as_str())
    }

    fn get_path(&self) -> (r: &str)
        ensures
            r@ == self@.path,
    {
        self.path.as_str()
    }

    fn recheck_needed(&self, now: &ChangeDates) -> (r: bool)
        ensures
            r == dir_recheck_needed(self@, now.dates@),
    {
        let res = self.get_current_change_date(now);
        if res.is_none() {
            return true;
        }
        if self.saved_change_date != res.unwrap() {
            return true;
        }
        let mut i: usize = 0;
        while i < self.children.len()
            invariant
                i <= self.children@.len(),
                !date_changed(self@.saved_change_date, date_of(now.dates@, self@.path)),
                forall|j: int| 0 <= j < i ==> #[trigger] file_recheck_needed(self@.children[j], now.dates@),
            decreases self.children@.len() - i,
        {
            if !self.children[i].recheck_needed(now) {
                assert(!file_recheck_needed(self@.children[i as int], now.dates@));
                return false;
            }
            i = i + 1;
        }
        true
    }
}

/// A file indexed from a probe needs no recheck while its change date is still the
/// one that was observed when it was indexed.
pub proof fn law_fresh_file_needs_no_recheck(path: Seq<char>, probe: FsProbe, now: Seq<(String, Option<u128>)>)
    requires
        index_file(path, probe) is Some,
        date_of(now, path) == probe.change_date,
    ensures
        !file_recheck_needed(index_file(path, probe)->0, now),
{
}

/// An indexed directory with at least one file needs no recheck while its own
/// change date and those of all its files are the ones saved in the index.
pub proof fn law_unchanged_directory_needs_no_recheck(d: IndexedDirectoryView, now: Seq<(String, Option<u128>)>)
    requires
        d.children.len() > 0,
        date_of(now, d.path) == Some(d.saved_change_date),
        forall|i: int|
            0 <= i < d.children.len() ==> date_of(now, #[trigger] d.children[i].path) == Some(
                d.children[i].saved_change_date,
            ),
    ensures
        !dir_recheck_needed(d, now),
{
    assert(!file_recheck_needed(d.children[0], now));
}

/// An indexed directory without files always needs a recheck: its files are
/// rechecked "all of them", which holds of none.
pub proof fn law_directory_without_files_needs_recheck(d: IndexedDirectoryView, now: Seq<(String, Option<u128>)>)
    requires
        d.children.len() == 0,
    ensures
        dir_recheck_needed(d, now),
{
}

/// A directory indexed from a snapshot has the snapshot's path, change date, and
/// one subdirectory path per directory entry, in order.
pub proof fn law_indexed_directory_matches_snapshot(d: DirSnapshot)
    requires
        index_dir(d).0 is Some,
    ensures
        index_dir(d).0->0.path == d.path@,
        Some(index_dir(d).0->0.saved_change_date) == d.probe.change_date,
        index_dir(d).0->0.children_directories == dir_entry_paths(d.entries->0@),
{
    lemma_entries_dir_paths(d.entries->0@);
}

/// The paths of the directory entries, in order.
pub open spec fn dir_entry_paths(es: Seq<EntrySnapshot>) -> Seq<Seq<char>>
    decreases es.len(),
{
    if es.len() == 0 {
        Seq::empty()
    } else {
        let prev = dir_entry_paths(es.drop_last());
        match es.last() {
            EntrySnapshot::Dir(sub) => prev.push(sub.path@),
            EntrySnapshot::Other(_, _) => prev,
        }
    }
}

proof fn lemma_entries_dir_paths(es: Seq<EntrySnapshot>)
    ensures
        index_entries(es).1 == dir_entry_paths(es),
    decreases es.len(),
{
    if es.len() > 0 {
        lemma_entries_dir_paths(es.drop_last());
    }
}

/// Every entry of a listed directory lies below it, all the way down the tree
/// (as the paths that listing a directory gives do).
pub open spec fn snapshot_wf(d: DirSnapshot) -> bool
    decreases d,
{
    match d.entries {
        Some(es) => entries_wf(es@, d.path@),
        None => true,
    }
}

/// Every entry lies below `parent`, and every directory entry is well formed.
pub open spec fn entries_wf(es: Seq<EntrySnapshot>, parent: Seq<char>) -> bool
    decreases es,
{
    if es.len() == 0 {
        true
    } else {
        entries_wf(es.drop_last(), parent) && match es.last() {
            EntrySnapshot::Dir(sub) => is_below(sub.path@, parent) && snapshot_wf(sub),
            EntrySnapshot::Other(p, _) => is_below(p@, parent),
        }
    }
}

/// Every directory in the list lies below `parent`.
pub open spec fn all_below(v: Seq<IndexedDirectoryView>, parent: Seq<char>) -> bool {
    forall|i: int| 0 <= i < v.len() ==> is_below(#[trigger] v[i].path, parent)
}

proof fn lemma_index_dir_below(d: DirSnapshot)
    requires
        snapshot_wf(d),
    ensures
        all_below(index_dir(d).1, d.path@),
    decreases d,
{
    match d.entries {
        Some(es) => {
            if d.probe.exists && d.probe.is_dir && d.probe.change_date is Some {
                lemma_index_entries_below(es@, d.path@);
            }
        },
        None => {},
    }
}

proof fn lemma_index_entries_below(es: Seq<EntrySnapshot>, parent: Seq<char>)
    requires
        entries_wf(es, parent),
    ensures
        all_below(index_entries(es).2, parent),
    decreases es,
{
    if es.len() > 0 {
        lemma_index_entries_below(es.drop_last(), parent);
        let prev = index_entries(es.drop_last());
        match es.last() {
            EntrySnapshot::Dir(sub) => {
                lemma_index_dir_below(sub);
                let below = index_dir(sub);
                assert forall|i: int| 0 <= i < below.1.len() implies is_below(
                    #[trigger] below.1[i].path,
                    parent,
                ) by {
                    lemma_below_transitive(below.1[i].path, sub.path@, parent);
                }
                let pushed = prev.2 + below.1;
                assert(all_below(pushed, parent)) by {
                    assert forall|i: int| 0 <= i < pushed.len() implies is_below(
                        #[trigger] pushed[i].path,
                        parent,
                    ) by {
                        if i < prev.2.len() {
                            assert(pushed[i] == prev.2[i]);
                        } else {
                            assert(pushed[i] == below.1[i - prev.2.len()]);
                        }
                    }
                }
                match below.0 {
                    Some(v) => {
                        assert(v.path == sub.path@);
                        let all = pushed.push(v);
                        assert forall|i: int| 0 <= i < all.len() implies is_below(
                            #[trigger] all[i].path,
                            parent,
                        ) by {
                            if i < pushed.len() {
                                assert(all[i] == pushed[i]);
                            }
                        }
                    },
                    None => {},
                }
            },
            EntrySnapshot::Other(_, _) => {},
        }
    }
}

/// Indexing a well-formed snapshot appends only directories that lie strictly
/// below its root: each path starts with the root's path and is not the root's
/// path (the root itself is returned, not appended).
pub proof fn law_indexed_directories_lie_below_root(d: DirSnapshot)
    requires
        snapshot_wf(d),
    ensures
        forall|i: int|
            0 <= i < index_dir(d).1.len() ==> is_below(#[trigger] index_dir(d).1[i].path, d.path@)
                && !same_path_spec(index_dir(d).1[i].path, d.path@),
{
    lemma_index_dir_below(d);
    assert forall|i: int| 0 <= i < index_dir(d).1.len() implies is_below(
        #[trigger] index_dir(d).1[i].path,
        d.path@,
    ) && !same_path_spec(index_dir(d).1[i].path, d.path@) by {
        lemma_below_not_same(index_dir(d).1[i].path, d.path@);
    }
}

/// A file needs a recheck exactly when its current change date is not the saved
/// one: a date that differs in either direction, or one that cannot be read.
pub proof fn law_file_recheck_iff_date_differs(f: IndexedFileView, now: Seq<(String, Option<u128>)>)
    ensures
        file_recheck_needed(f, now) <==> date_of(now, f.path) != Some(f.saved_change_date),
        date_of(now, f.path) matches Some(d) && d != f.saved_change_date ==> file_recheck_needed(f, now),
{
}

/// A directory whose own current change date is not the saved one (differing in
/// either direction, or unreadable) needs a recheck; one whose date is the saved one
/// needs it exactly when every one of its files does.
pub proof fn law_directory_recheck(d: IndexedDirectoryView, now: Seq<(String, Option<u128>)>)
    ensures
        date_of(now, d.path) != Some(d.saved_change_date) ==> dir_recheck_needed(d, now),
        date_of(now, d.path) == Some(d.saved_change_date) ==> (dir_recheck_needed(d, now) <==> forall|i: int|
            0 <= i < d.children.len() ==> date_of(now, #[trigger] d.children[i].path) != Some(
                d.children[i].saved_change_date,
            )),
{
    if date_of(now, d.path) == Some(d.saved_change_date) {
        let all_files = forall|i: int| 0 <= i < d.children.len() ==> #[trigger] file_recheck_needed(d.children[i], now);
        let all_dates = forall|i: int|
            0 <= i < d.children.len() ==> date_of(now, #[trigger] d.children[i].path) != Some(
                d.children[i].saved_change_date,
            );
        if all_files {
            assert forall|i: int| 0 <= i < d.children.len() implies date_of(
                now,
                #[trigger] d.children[i].path,
            ) != Some(d.children[i].saved_change_date) by {
                assert(file_recheck_needed(d.children[i], now));
            }
        }
        if all_dates {
            assert forall|i: int| 0 <= i < d.children.len() implies #[trigger] file_recheck_needed(
                d.children[i],
                now,
            ) by {
                assert(date_of(now, d.children[i].path) != Some(d.children[i].saved_change_date));
            }
        }
        assert(all_files == all_dates);
    }
}

/// The file an entry is indexed as, if it is a file entry that can be indexed.
pub open spec fn entry_file(e: EntrySnapshot) -> Option<IndexedFileView> {
    match e {
        EntrySnapshot::Other(p, probe) => index_file(p@, probe),
        EntrySnapshot::Dir(_) => None,
    }
}

/// The files that the entries of a directory are indexed as, in listing order.
pub open spec fn indexable_files(es: Seq<EntrySnapshot>) -> Seq<IndexedFileView> {
    es.filter_map(|e: EntrySnapshot| entry_file(e))
}

/// How many entries of a directory are files that can be indexed.
pub open spec fn indexable_count(es: Seq<EntrySnapshot>) -> nat {
    es.filter(|e: EntrySnapshot| entry_file(e) is Some).len()
}

proof fn lemma_entries_files(es: Seq<EntrySnapshot>)
    ensures
        index_entries(es).0 == indexable_files(es),
        index_entries(es).0.len() == indexable_count(es),
    decreases es.len(),
{
    reveal(Seq::filter);
    if es.len() > 0 {
        lemma_entries_files(es.drop_last());
        match entry_file(es.last()) {
            Some(f) => {
                assert(indexable_files(es) == indexable_files(es.drop_last()) + seq![f]);
                assert(index_entries(es).0 =~= indexable_files(es));
            },
            None => {},
        }
    }
}

/// The files of a directory indexed from a snapshot are exactly the file entries
/// of its listing that can be indexed (existing regular files with a readable
/// change date), each as it was observed, in listing order: none is dropped and
/// none is added, so there are as many as there are such entries.
pub proof fn law_indexed_files_are_the_indexable_entries(d: DirSnapshot)
    requires
        index_dir(d).0 is Some,
    ensures
        index_dir(d).0->0.children == indexable_files(d.entries->0@),
        index_dir(d).0->0.children.len() == indexable_count(d.entries->0@),
        forall|k: int|
            0 <= k < d.entries->0@.len() ==> (#[trigger] entry_file(d.entries->0@[k]) matches Some(f)
                ==> index_dir(d).0->0.children.contains(f)),
{
    let es = d.entries->0@;
    lemma_entries_files(es);
    lemma_indexable_entries_kept(es);
}

proof fn lemma_indexable_entries_kept(es: Seq<EntrySnapshot>)
    ensures
        forall|k: int|
            0 <= k < es.len() ==> (#[trigger] entry_file(es[k]) matches Some(f) ==> index_entries(
                es,
            ).0.contains(f)),
    decreases es.len(),
{
    if es.len() > 0 {
        let init = es.drop_last();
        lemma_indexable_entries_kept(init);
        let prev = index_entries(init).0;
        let cur = index_entries(es).0;
        assert forall|k: int| 0 <= k < es.len() implies (#[trigger] entry_file(es[k]) matches Some(
            f,
        ) ==> cur.contains(f)) by {
            if k < es.len() - 1 {
                assert(es[k] == init[k]);
                if let Some(f) = entry_file(es[k]) {
                    assert(entry_file(init[k]) == Some(f));
                    let w = choose|w: int| 0 <= w < prev.len() && prev[w] == f;
                    assert(cur[w] == f);
                }
            } else {
                if let Some(f) = entry_file(es[k]) {
                    assert(cur[cur.len() - 1] == f);
                }
            }
        }
    }
}

/// What indexing a subdirectory appends: the directories indexed below it, then
/// the subdirectory itself where it could be indexed.
pub open spec fn dir_block(sub: DirSnapshot) -> Seq<IndexedDirectoryView> {
    match index_dir(sub).0 {
        Some(v) => index_dir(sub).1.push(v),
        None => index_dir(sub).1,
    }
}

/// `b` stands in `v` as a run of consecutive elements.
pub open spec fn contains_block(v: Seq<IndexedDirectoryView>, b: Seq<IndexedDirectoryView>) -> bool {
    exists|i: int| 0 <= i && i + b.len() <= v.len() && #[trigger] v.subrange(i, i + b.len()) == b
}

proof fn lemma_entries_blocks(es: Seq<EntrySnapshot>)
    ensures
        forall|k: int|
            0 <= k < es.len() ==> (#[trigger] es[k] matches EntrySnapshot::Dir(sub) ==> contains_block(
                index_entries(es).2,
                dir_block(sub),
            )),
    decreases es.len(),
{
    if es.len() > 0 {
        let init = es.drop_last();
        lemma_entries_blocks(init);
        let prev = index_entries(init).2;
        let cur = index_entries(es).2;
        assert(cur.subrange(0, prev.len() as int) =~= prev);
        if let EntrySnapshot::Dir(last) = es.last() {
            assert(cur =~= prev + dir_block(last));
        }
        assert forall|k: int| 0 <= k < es.len() implies (#[trigger] es[k] matches EntrySnapshot::Dir(
            sub,
        ) ==> contains_block(cur, dir_block(sub))) by {
            if let EntrySnapshot::Dir(sub) = es[k] {
                let b = dir_block(sub);
                if k < es.len() - 1 {
                    assert(es[k] == init[k]);
                    assert(contains_block(prev, b));
                    let i = choose|i: int| 0 <= i && i + b.len() <= prev.len() && #[trigger] prev.subrange(i, i + b.len()) == b;
                    assert(cur.subrange(i, i + b.len()) =~= prev.subrange(i, i + b.len()));
                } else {
                    let i = prev.len() as int;
                    assert(cur.subrange(i, i + b.len()) =~= b);
                }
            }
        }
    }
}

/// Every subdirectory entry of a listed directory is indexed in one piece into the
/// directories that indexing the tree appends: the directories indexed below the
/// subdirectory, each after those below it, then the subdirectory itself where it
/// could be indexed.
pub proof fn law_subdirectories_are_indexed_in_place(d: DirSnapshot)
    requires
        index_dir(d).0 is Some,
    ensures
        forall|k: int|
            0 <= k < d.entries->0@.len() ==> (#[trigger] d.entries->0@[k] matches EntrySnapshot::Dir(sub)
                ==> contains_block(index_dir(d).1, dir_block(sub))),
{
    lemma_entries_blocks(d.entries->0@);
}

} // verus!
