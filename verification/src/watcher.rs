//! The watched directories, and what is known of the files in them.
use vstd::prelude::*;

use crate::clock::{earlier_or_same, moments_are_ordered_in_time, Moment, Timestamp};
use crate::models::{entry_rank, EntryView, FileEntry, FileMetadata};
use crate::order::{
    before, in_order, lemma_sorted_map, sorted, sorting_orders_and_keeps_all, stable_sort, Ranked,
};
use crate::paths::{
    all_different, extension, find_dir, is_same_path, lists, path_extension, same_path,
};
use crate::text::{
    ascii, ascii_lower, copy_texts, lemma_texts_push, lowercase, opt_text, same_text, texts,
};

verus! {

/// How much of a file without an extension tells whether it is text.
pub const SNIFFED_BYTES: usize = 512;

/// The extensions of text files.
pub open spec fn text_extensions() -> Seq<Seq<char>> {
    seq![
        "txt"@,
        "md"@,
        "json"@,
        "yaml"@,
        "yml"@,
        "toml"@,
        "xml"@,
        "csv"@,
        "sh"@,
        "bash"@,
        "zsh"@,
        "py"@,
        "rs"@,
        "js"@,
        "ts"@,
        "css"@,
        "html"@,
        "log"@,
        "cfg"@,
        "conf"@,
        "ini"@,
        "env"@,
    ]
}

/// An extension of text files, in any case.
pub open spec fn names_text(ext: Seq<char>) -> bool {
    text_extensions().contains(lowercase(ext))
}

/// A file is text when its extension says so; without one, when its first bytes could be read and
/// none of them is zero.
pub open spec fn reads_as_text(path: Seq<char>, head: Option<Seq<u8>>) -> bool {
    match path_extension(path) {
        Some(ext) => names_text(ext),
        None => match head {
            Some(bytes) => !bytes.contains(0u8),
            None => false,
        },
    }
}

fn extension_list() -> (v: Vec<&'static str>)
    ensures
        v@.len() == text_extensions().len(),
        forall|i: int| 0 <= i < v@.len() ==> (#[trigger] v@[i])@ == text_extensions()[i],
{
    vec![
        "txt", "md", "json", "yaml", "yml", "toml", "xml", "csv", "sh", "bash", "zsh", "py", "rs",
        "js", "ts", "css", "html", "log", "cfg", "conf", "ini", "env",
    ]
}

fn is_text_extension(ext: &str) -> (b: bool)
    ensures
        b == names_text(ext@),
        ascii(ext@) ==> b == text_extensions().contains(
            ext@.map_values(|c: char| ascii_lower(c)),
        ),
{
    let lower = ext.to_lowercase();
    let known = extension_list();
    for i in 0..known.len()
        invariant
            known@.len() == text_extensions().len(),
            forall|j: int|
                0 <= j < known@.len() ==> (#[trigger] known@[j])@ == text_extensions()[j],
            lower@ == lowercase(ext@),
            ascii(ext@) ==> lower@ == ext@.map_values(|c: char| ascii_lower(c)),
            forall|j: int| 0 <= j < i ==> #[trigger] text_extensions()[j] != lower@,
    {
        assert(known@[i as int]@ == text_extensions()[i as int]);
        if same_text(known[i], lower.as_str()) {
            return true;
        }
    }
    false
}

/// Whether the first bytes of a file have to be read to tell whether it is text.
pub fn needs_sniffing(path: &str) -> (b: bool)
    ensures
        b == (path_extension(path@) is None),
{
    extension(path).is_none()
}

/// Whether a file is text, given its first bytes where they could be read.
pub fn is_text_file_path(path: &str, head: &Option<Vec<u8>>) -> (b: bool)
    ensures
        b == reads_as_text(
            path@,
            match *head {
                Some(bytes) => Some(bytes@),
                None => None,
            },
        ),
        path_extension(path@) matches Some(ext) ==> (ascii(ext) ==> b == text_extensions().contains(
            ext.map_values(|c: char| ascii_lower(c)),
        )),
{
    match extension(path) {
        Some(ext) => is_text_extension(ext.as_str()),
        None => match head {
            Some(bytes) => has_no_zero(bytes),
            None => false,
        },
    }
}

fn has_no_zero(bytes: &Vec<u8>) -> (b: bool)
    ensures
        b == !bytes@.contains(0u8),
{
    for i in 0..bytes.len()
        invariant
            forall|j: int| 0 <= j < i ==> #[trigger] bytes@[j] != 0u8,
    {
        if bytes[i] == 0 {
            assert(bytes@[i as int] == 0u8);
            return false;
        }
    }
    true
}

/// What is known of a file.
pub open spec fn entry_of(
    path: Seq<char>,
    created_at: Moment,
    is_text: bool,
    content: Option<Seq<char>>,
    size: int,
    is_file: bool,
) -> EntryView {
    EntryView {
        path,
        created_at,
        is_text,
        content: if is_text {
            content
        } else {
            None
        },
        size,
        extension: match path_extension(path) {
            Some(ext) => ext,
            None => Seq::empty(),
        },
        is_file,
    }
}

impl FileEntry {
    /// What is known of a file; only a text has content.
    pub fn new(
        path: String,
        created_at: Timestamp,
        is_text: bool,
        content: Option<String>,
        size: u64,
        is_file: bool,
    ) -> (e: FileEntry)
        ensures
            e@ == entry_of(path@, created_at@, is_text, opt_text(content), size as int, is_file),
    {
        let ext = match extension(path.as_str()) {
            Some(ext) => ext,
            None => String::new(),
        };
        FileEntry {
            path,
            created_at,
            is_text,
            content: if is_text {
                content
            } else {
                None
            },
            metadata: FileMetadata { size, extension: ext, is_file },
        }
    }
}

/// The watched directories, and the files in them.
pub struct FsWatcher {
    watchers: Vec<String>,
    file_entries: Vec<FileEntry>,
}

/// What a watcher holds.
#[verifier::ext_equal]
pub struct WatcherView {
    pub watchers: Seq<Seq<char>>,
    pub file_entries: Seq<EntryView>,
}

/// The views of some entries.
pub open spec fn entry_views(v: Seq<FileEntry>) -> Seq<EntryView> {
    v.map_values(|e: FileEntry| e@)
}

impl View for FsWatcher {
    type V = WatcherView;

    closed spec fn view(&self) -> WatcherView {
        WatcherView {
            watchers: texts(self.watchers@),
            file_entries: entry_views(self.file_entries@),
        }
    }
}

/// The paths of some entries.
pub open spec fn entry_paths(es: Seq<EntryView>) -> Seq<Seq<char>> {
    es.map_values(|e: EntryView| e.path)
}

/// No directory and no file is listed twice.
pub open spec fn watcher_wf(w: WatcherView) -> bool {
    &&& all_different(w.watchers)
    &&& all_different(entry_paths(w.file_entries))
}

/// The directory is watched, too.
pub open spec fn watching(w: WatcherView, dir: Seq<char>) -> WatcherView {
    if lists(w.watchers, dir) {
        w
    } else {
        WatcherView { watchers: w.watchers.push(dir), ..w }
    }
}

/// `i` is the place of the entry with the path.
pub open spec fn has_entry_at(es: Seq<EntryView>, path: Seq<char>, i: int) -> bool {
    0 <= i < es.len() && same_path(es[i].path, path)
}

/// What is known of a file takes the place of what was known of it before.
pub open spec fn recorded(es: Seq<EntryView>, e: EntryView) -> Seq<EntryView> {
    if exists|i: int| has_entry_at(es, e.path, i) {
        es.update(choose|i: int| has_entry_at(es, e.path, i), e)
    } else {
        es.push(e)
    }
}

/// The rank of a file by its creation.
pub open spec fn entries_by_creation() -> spec_fn(EntryView) -> Seq<int> {
    |e: EntryView| entry_rank(e)
}

/// All that is known of the files, by the time of their creation.
pub open spec fn snapshot_of(w: WatcherView) -> Seq<EntryView> {
    sorted(w.file_entries, entries_by_creation())
}

impl FsWatcher {
    /// A watcher of nothing yet.
    pub fn new() -> (w: FsWatcher)
        ensures
            w@ == (WatcherView { watchers: Seq::empty(), file_entries: Seq::empty() }),
            watcher_wf(w@),
    {
        let w = FsWatcher { watchers: Vec::new(), file_entries: Vec::new() };
        assert(w@ =~= (WatcherView { watchers: Seq::empty(), file_entries: Seq::empty() }));
        w
    }

    /// Watches a directory, unless it is watched already.
    pub fn add_directory(&mut self, dir: String)
        requires
            watcher_wf(old(self)@),
        ensures
            final(self)@ == watching(old(self)@, dir@),
            watcher_wf(final(self)@),
    {
        match find_dir(&self.watchers, dir.as_str()) {
            Some(_) => {},
            None => {
                proof {
                    lemma_texts_push(self.watchers@, dir);
                    lemma_push_different(texts(self.watchers@), dir@);
                }
                self.watchers.push(dir);
            },
        }
    }

    /// The watched directories.
    pub fn directories(&self) -> (r: Vec<String>)
        ensures
            texts(r@) == self@.watchers,
    {
        copy_texts(&self.watchers)
    }

    /// Starts a scan of all watched directories.
    pub fn scan_all(&self) -> (s: Scan)
        ensures
            s@ == scan_started(self@.watchers),
    {
        Scan::new(&self.watchers)
    }

    /// Remembers what is known of a file, in place of what was known of it before.
    pub fn record(&mut self, entry: FileEntry)
        requires
            watcher_wf(old(self)@),
        ensures
            final(self)@ == (WatcherView {
                file_entries: recorded(old(self)@.file_entries, entry@),
                ..old(self)@
            }),
            watcher_wf(final(self)@),
    {
        let ghost es = self@.file_entries;
        let count = self.file_entries.len();
        for i in 0..count
            invariant
                count == self.file_entries@.len(),
                self@ == old(self)@,
                es == self@.file_entries,
                es == entry_views(self.file_entries@),
                watcher_wf(self@),
                forall|j: int| 0 <= j < i ==> !has_entry_at(es, entry@.path, j),
        {
            assert(es[i as int] == self.file_entries@[i as int]@);
            if is_same_path(self.file_entries[i].path.as_str(), entry.path.as_str()) {
                proof {
                    assert(has_entry_at(es, entry@.path, i as int));
                    lemma_one_entry(es, entry@.path, i as int);
                    lemma_update_different(es, i as int, entry@);
                    assert(entry_views(self.file_entries@.update(i as int, entry)) =~= es.update(
                        i as int,
                        entry@,
                    ));
                }
                self.file_entries.set(i, entry);
                return;
            }
        }
        proof {
            assert(entry_views(self.file_entries@.push(entry)) =~= es.push(entry@));
            assert(entry_paths(es.push(entry@)) =~= entry_paths(es).push(entry@.path));
            assert(!lists(entry_paths(es), entry@.path)) by {
                if lists(entry_paths(es), entry@.path) {
                    let k = choose|k: int|
                        0 <= k < entry_paths(es).len() && same_path(
                            #[trigger] entry_paths(es)[k],
                            entry@.path,
                        );
                    assert(has_entry_at(es, entry@.path, k));
                }
            }
            lemma_push_different(entry_paths(es), entry@.path);
        }
        self.file_entries.push(entry);
    }

    /// All that is known of the files, by the time of their creation.
    pub fn snapshot(&self) -> (r: Vec<FileEntry>)
        ensures
            entry_views(r@) == snapshot_of(self@),
    {
        let mut all: Vec<FileEntry> = Vec::new();
        let ghost es = self@.file_entries;
        for i in 0..self.file_entries.len()
            invariant
                es == entry_views(self.file_entries@),
                entry_views(all@) == es.take(i as int),
        {
            let e = self.file_entries[i].copy();
            proof {
                assert(entry_views(all@.push(e)) =~= entry_views(all@).push(e@));
                assert(es.take(i + 1) =~= es.take(i as int).push(es[i as int]));
            }
            all.push(e);
        }
        assert(es.take(es.len() as int) =~= es);
        let ghost rank = |e: FileEntry| e.rank();
        let ghost shown = |e: FileEntry| e@;
        proof {
            lemma_sorted_map(all@, rank, shown, entries_by_creation());
        }
        stable_sort(all)
    }
}

proof fn lemma_push_different(dirs: Seq<Seq<char>>, dir: Seq<char>)
    requires
        all_different(dirs),
        !lists(dirs, dir),
    ensures
        all_different(dirs.push(dir)),
{
    let all = dirs.push(dir);
    assert forall|i: int, j: int| 0 <= i < j < all.len() implies !same_path(
        #[trigger] all[i],
        #[trigger] all[j],
    ) by {
        assert(all[i] == dirs[i]);
        if j < dirs.len() {
            assert(all[j] == dirs[j]);
        }
    }
}

proof fn lemma_one_entry(es: Seq<EntryView>, path: Seq<char>, i: int)
    requires
        all_different(entry_paths(es)),
        has_entry_at(es, path, i),
    ensures
        (choose|k: int| has_entry_at(es, path, k)) == i,
{
    let k = choose|k: int| has_entry_at(es, path, k);
    assert(has_entry_at(es, path, k));
    let paths = entry_paths(es);
    assert(paths[k] == es[k].path && paths[i] == es[i].path);
    if k < i {
        assert(!same_path(paths[k], paths[i]));
    } else if i < k {
        assert(!same_path(paths[i], paths[k]));
    }
}

proof fn lemma_update_different(es: Seq<EntryView>, at: int, e: EntryView)
    requires
        all_different(entry_paths(es)),
        has_entry_at(es, e.path, at),
    ensures
        all_different(entry_paths(es.update(at, e))),
{
    let old_paths = entry_paths(es);
    let paths = entry_paths(es.update(at, e));
    assert forall|i: int, j: int| 0 <= i < j < paths.len() implies !same_path(
        #[trigger] paths[i],
        #[trigger] paths[j],
    ) by {
        assert(!same_path(old_paths[i], old_paths[j]));
    }
}

/// What a scan has to do.
#[derive(Debug, Clone, PartialEq)]
pub enum ScanTask {
    /// List the directory, if it exists.
    List(String),
    /// Look at the file.
    Process(String),
}

pub enum TaskView {
    List(Seq<char>),
    Process(Seq<char>),
}

impl View for ScanTask {
    type V = TaskView;

    open spec fn view(&self) -> TaskView {
        match self {
            ScanTask::List(path) => TaskView::List(path@),
            ScanTask::Process(path) => TaskView::Process(path@),
        }
    }
}

/// What a path in a directory is.
#[derive(Debug, Clone, Copy, PartialEq, Eq, Structural)]
pub enum PathKind {
    File,
    Directory,
    Other,
}

/// A path that was found in a directory.
#[derive(Debug, Clone, PartialEq)]
pub struct FoundPath {
    pub path: String,
    pub kind: PathKind,
}

/// A scan of directories and all that is below them, depth first.
pub struct Scan {
    /// The tasks ahead, the next one last.
    stack: Vec<ScanTask>,
}

impl View for Scan {
    type V = Seq<TaskView>;

    /// The tasks ahead, the next one first.
    closed spec fn view(&self) -> Seq<TaskView> {
        self.stack@.map_values(|t: ScanTask| t@).reverse()
    }
}

/// The tasks of a scan of some directories.
pub open spec fn scan_started(dirs: Seq<Seq<char>>) -> Seq<TaskView> {
    dirs.map_values(|d: Seq<char>| TaskView::List(d))
}

/// The tasks that what was found in a directory leads to: files are looked at, directories are
/// listed, in the order in which they were found.
pub open spec fn tasks_for(found: Seq<FoundPath>) -> Seq<TaskView>
    decreases found.len(),
{
    if found.len() == 0 {
        Seq::empty()
    } else {
        let rest = tasks_for(found.drop_first());
        match found[0].kind {
            PathKind::File => seq![TaskView::Process(found[0].path@)] + rest,
            PathKind::Directory => seq![TaskView::List(found[0].path@)] + rest,
            PathKind::Other => rest,
        }
    }
}

impl Scan {
    /// A scan of some directories.
    pub fn new(dirs: &Vec<String>) -> (s: Scan)
        ensures
            s@ == scan_started(texts(dirs@)),
    {
        let mut stack: Vec<ScanTask> = Vec::new();
        let ghost all = scan_started(texts(dirs@));
        let count = dirs.len();
        let mut i: usize = count;
        assert(stack@.map_values(|t: ScanTask| t@) =~= all.skip(count as int).reverse());
        while i > 0
            invariant
                i <= count,
                count == dirs@.len(),
                all == scan_started(texts(dirs@)),
                stack@.map_values(|t: ScanTask| t@) == all.skip(i as int).reverse(),
            decreases i,
        {
            i -= 1;
            let task = ScanTask::List(dirs[i].clone());
            proof {
                assert(texts(dirs@)[i as int] == dirs@[i as int]@);
                assert(stack@.push(task).map_values(|t: ScanTask| t@) =~= stack@.map_values(
                    |t: ScanTask| t@,
                ).push(task@));
                assert(all.skip(i as int).reverse() =~= all.skip(i + 1).reverse().push(
                    all[i as int],
                ));
            }
            stack.push(task);
        }
        let s = Scan { stack };
        assert(all.skip(0) =~= all);
        assert(s@ =~= all);
        s
    }

    /// The next task, which is then done.
    pub fn next_task(&mut self) -> (r: Option<ScanTask>)
        ensures
            match r {
                Some(t) => old(self)@.len() > 0 && t@ == old(self)@[0] && final(self)@ == old(
                    self,
                )@.drop_first(),
                None => old(self)@.len() == 0 && final(self)@ == old(self)@,
            },
    {
        let ghost before = self.stack@.map_values(|t: ScanTask| t@);
        let r = self.stack.pop();
        proof {
            let after = self.stack@.map_values(|t: ScanTask| t@);
            if before.len() > 0 {
                assert(after =~= before.drop_last());
                assert(after.reverse() =~= before.reverse().drop_first());
            }
        }
        r
    }

    /// Takes what was found in the directory that was listed: it comes before all else.
    pub fn listed(&mut self, found: Vec<FoundPath>)
        ensures
            final(self)@ == tasks_for(found@) + old(self)@,
    {
        let ghost rest = self@;
        let count = found.len();
        let mut i: usize = count;
        assert(found@.skip(count as int) =~= Seq::<FoundPath>::empty());
        assert(tasks_for(found@.skip(count as int)) + rest =~= rest);
        while i > 0
            invariant
                i <= count,
                count == found@.len(),
                self@ == tasks_for(found@.skip(i as int)) + rest,
            decreases i,
        {
            i -= 1;
            let ghost behind = tasks_for(found@.skip(i + 1));
            let ghost before = self.stack@.map_values(|t: ScanTask| t@);
            assert(found@.skip(i as int).drop_first() =~= found@.skip(i + 1));
            let path = found[i].path.clone();
            match found[i].kind {
                PathKind::File => {
                    let task = ScanTask::Process(path);
                    self.stack.push(task);
                    proof {
                        assert(self.stack@.map_values(|t: ScanTask| t@) =~= before.push(task@));
                        assert(before.push(task@).reverse() =~= seq![task@] + before.reverse());
                        assert(seq![task@] + (behind + rest) =~= (seq![task@] + behind) + rest);
                    }
                },
                PathKind::Directory => {
                    let task = ScanTask::List(path);
                    self.stack.push(task);
                    proof {
                        assert(self.stack@.map_values(|t: ScanTask| t@) =~= before.push(task@));
                        assert(before.push(task@).reverse() =~= seq![task@] + before.reverse());
                        assert(seq![task@] + (behind + rest) =~= (seq![task@] + behind) + rest);
                    }
                },
                PathKind::Other => {},
            }
        }
        assert(found@.skip(0) =~= found@);
    }
}

/// What happened to some paths.
#[derive(Debug, Clone, Copy, PartialEq, Eq, Structural)]
pub enum ChangeKind {
    Created,
    Modified,
    /// A file was closed that had been open for writing.
    ClosedAfterWriting,
    Other,
}

/// The paths among these that are files.
pub open spec fn files_among(found: Seq<FoundPath>) -> Seq<Seq<char>>
    decreases found.len(),
{
    if found.len() == 0 {
        Seq::empty()
    } else if found.last().kind == PathKind::File {
        files_among(found.drop_last()).push(found.last().path@)
    } else {
        files_among(found.drop_last())
    }
}

/// The files to look at again after a change.
pub open spec fn shown_after(kind: ChangeKind, paths: Seq<FoundPath>) -> Seq<Seq<char>> {
    match kind {
        ChangeKind::Created => files_among(paths),
        ChangeKind::Modified => files_among(paths),
        _ => Seq::empty(),
    }
}

/// The files that are complete after a change.
pub open spec fn complete_after(kind: ChangeKind, paths: Seq<FoundPath>) -> Seq<Seq<char>> {
    match kind {
        ChangeKind::ClosedAfterWriting => files_among(paths),
        _ => Seq::empty(),
    }
}

fn files_in(found: &Vec<FoundPath>) -> (r: Vec<String>)
    ensures
        texts(r@) == files_among(found@),
{
    let mut r: Vec<String> = Vec::new();
    for i in 0..found.len()
        invariant
            texts(r@) == files_among(found@.take(i as int)),
    {
        assert(found@.take(i + 1).drop_last() =~= found@.take(i as int));
        if let PathKind::File = found[i].kind {
            let path = found[i].path.clone();
            proof {
                lemma_texts_push(r@, path);
            }
            r.push(path);
        }
    }
    assert(found@.take(found@.len() as int) =~= found@);
    r
}

/// The files to look at again after a change: those that were created or modified.
pub fn files_to_show(kind: ChangeKind, paths: &Vec<FoundPath>) -> (r: Vec<String>)
    ensures
        texts(r@) == shown_after(kind, paths@),
{
    match kind {
        ChangeKind::Created => files_in(paths),
        ChangeKind::Modified => files_in(paths),
        _ => Vec::new(),
    }
}

/// The files that are complete after a change: those that were closed after writing.
pub fn files_completed(kind: ChangeKind, paths: &Vec<FoundPath>) -> (r: Vec<String>)
    ensures
        texts(r@) == complete_after(kind, paths@),
{
    match kind {
        ChangeKind::ClosedAfterWriting => files_in(paths),
        _ => Vec::new(),
    }
}

/// Watching a directory once more changes nothing, however it is written.
pub proof fn watching_twice_is_watching_once(w: WatcherView, dir: Seq<char>, again: Seq<char>)
    requires
        same_path(dir, again),
    ensures
        lists(watching(w, dir).watchers, dir),
        watching(watching(w, dir), again) == watching(w, dir),
{
    let b = watching(w, dir);
    if lists(w.watchers, dir) {
        let k = choose|k: int|
            0 <= k < w.watchers.len() && same_path(#[trigger] w.watchers[k], dir);
        assert(same_path(w.watchers[k], again));
    } else {
        assert(b.watchers[b.watchers.len() - 1] == dir);
    }
}

/// What was recorded of a file last is what is known of it; of the other files nothing changes.
pub proof fn record_replaces_and_keeps(es: Seq<EntryView>, e: EntryView)
    requires
        all_different(entry_paths(es)),
    ensures
        recorded(es, e).contains(e),
        all_different(entry_paths(recorded(es, e))),
        forall|f: EntryView|
            !same_path(f.path, e.path) ==> (recorded(es, e).contains(f) <==> es.contains(f)),
{
    let r = recorded(es, e);
    if exists|i: int| has_entry_at(es, e.path, i) {
        let at = choose|i: int| has_entry_at(es, e.path, i);
        assert(r[at] == e);
        lemma_update_different(es, at, e);
        assert forall|f: EntryView| !same_path(f.path, e.path) implies (r.contains(f)
            <==> es.contains(f)) by {
            if r.contains(f) {
                let k = choose|k: int| 0 <= k < r.len() && r[k] == f;
                assert(k != at);
                assert(es[k] == f);
            }
            if es.contains(f) {
                let k = choose|k: int| 0 <= k < es.len() && es[k] == f;
                assert(k != at);
                assert(r[k] == f);
            }
        }
    } else {
        assert(r[es.len() as int] == e);
        assert(entry_paths(r) =~= entry_paths(es).push(e.path));
        assert(!lists(entry_paths(es), e.path)) by {
            if lists(entry_paths(es), e.path) {
                let k = choose|k: int|
                    0 <= k < entry_paths(es).len() && same_path(
                        #[trigger] entry_paths(es)[k],
                        e.path,
                    );
                assert(has_entry_at(es, e.path, k));
            }
        }
        lemma_push_different(entry_paths(es), e.path);
        assert forall|f: EntryView| !same_path(f.path, e.path) implies (r.contains(f)
            <==> es.contains(f)) by {
            if r.contains(f) {
                let k = choose|k: int| 0 <= k < r.len() && r[k] == f;
                if k < es.len() {
                    assert(es[k] == f);
                } else {
                    assert(f == e);
                }
            }
            if es.contains(f) {
                let k = choose|k: int| 0 <= k < es.len() && es[k] == f;
                assert(r[k] == f);
            }
        }
    }
}

/// A snapshot shows every file once, by the time of creation.
pub proof fn snapshot_is_in_order_of_creation(w: WatcherView)
    ensures
        in_order(snapshot_of(w), entries_by_creation()),
        snapshot_of(w).to_multiset() == w.file_entries.to_multiset(),
{
    sorting_orders_and_keeps_all(w.file_entries, entries_by_creation());
}

/// A scan misses nothing that was found: every file is looked at and every directory listed, and
/// what was ahead already stays ahead.
pub proof fn scan_misses_nothing(found: Seq<FoundPath>, ahead: Seq<TaskView>, i: int)
    requires
        0 <= i < found.len(),
    ensures
        found[i].kind == PathKind::File ==> (tasks_for(found) + ahead).contains(
            TaskView::Process(found[i].path@),
        ),
        found[i].kind == PathKind::Directory ==> (tasks_for(found) + ahead).contains(
            TaskView::List(found[i].path@),
        ),
        (tasks_for(found) + ahead).skip(tasks_for(found).len() as int) == ahead,
    decreases found.len(),
{
    let all = tasks_for(found) + ahead;
    assert(all.skip(tasks_for(found).len() as int) =~= ahead);
    if i == 0 {
        assert(found[0].kind != PathKind::Other ==> all[0] == tasks_for(found)[0]);
    } else {
        let rest = found.drop_first();
        scan_misses_nothing(rest, ahead, i - 1);
        let tail = tasks_for(rest) + ahead;
        assert(rest[i - 1] == found[i]);
        let shift: int = if found[0].kind == PathKind::Other {
            0
        } else {
            1
        };
        assert forall|t: TaskView| tail.contains(t) implies all.contains(t) by {
            let k = choose|k: int| 0 <= k < tail.len() && tail[k] == t;
            assert(all[k + shift] == t);
        }
    }
}

/// The files among some paths are those of each part of them, in their order: of one path alone it
/// is the path where that is a file, and nothing where it is not.
pub proof fn files_are_found_one_by_one(a: Seq<FoundPath>, b: Seq<FoundPath>, f: FoundPath)
    ensures
        files_among(a + b) == files_among(a) + files_among(b),
        f.kind == PathKind::File ==> files_among(seq![f]) == seq![f.path@],
        f.kind != PathKind::File ==> files_among(seq![f]).len() == 0,
        files_among(Seq::empty()).len() == 0,
    decreases b.len(),
{
    assert(seq![f].drop_last() =~= Seq::<FoundPath>::empty());
    reveal_with_fuel(files_among, 2);
    if f.kind == PathKind::File {
        assert(files_among(seq![f]) =~= seq![f.path@]);
    }
    if b.len() == 0 {
        assert(a + b =~= a);
        assert(files_among(a) + files_among(b) =~= files_among(a));
    } else {
        files_are_found_one_by_one(a, b.drop_last(), f);
        assert((a + b).drop_last() =~= a + b.drop_last());
        assert((a + b).last() == b.last());
        assert(files_among(a + b) =~= files_among(a) + files_among(b));
    }
}

/// Every file that was created or modified is looked at again, and no path that is no file; every
/// file that was closed after writing is complete, and only those are: a file that is still being
/// written is not.
pub proof fn changes_concern_every_file(kind: ChangeKind, paths: Seq<FoundPath>, i: int)
    requires
        0 <= i < paths.len(),
    ensures
        (kind == ChangeKind::Created || kind == ChangeKind::Modified) && paths[i].kind
            == PathKind::File ==> shown_after(kind, paths).contains(paths[i].path@),
        kind == ChangeKind::ClosedAfterWriting && paths[i].kind == PathKind::File
            ==> complete_after(kind, paths).contains(paths[i].path@),
        kind != ChangeKind::Created && kind != ChangeKind::Modified ==> shown_after(
            kind,
            paths,
        ).len() == 0,
        kind != ChangeKind::ClosedAfterWriting ==> complete_after(kind, paths).len() == 0,
{
    let head = paths.take(i);
    let tail = paths.skip(i + 1);
    let all = files_among(paths);
    assert(paths =~= (head + seq![paths[i]]) + tail);
    files_are_found_one_by_one(head + seq![paths[i]], tail, paths[i]);
    files_are_found_one_by_one(head, seq![paths[i]], paths[i]);
    if paths[i].kind == PathKind::File {
        assert(all[files_among(head).len() as int] == paths[i].path@);
    }
}

/// What a scan has to do goes by what was found, part by part and in order: a file is looked at, a
/// directory is listed, and anything else is passed over.
pub proof fn scans_go_by_what_was_found(a: Seq<FoundPath>, b: Seq<FoundPath>, f: FoundPath)
    ensures
        tasks_for(a + b) == tasks_for(a) + tasks_for(b),
        f.kind == PathKind::File ==> tasks_for(seq![f]) == seq![TaskView::Process(f.path@)],
        f.kind == PathKind::Directory ==> tasks_for(seq![f]) == seq![TaskView::List(f.path@)],
        f.kind == PathKind::Other ==> tasks_for(seq![f]).len() == 0,
        tasks_for(Seq::empty()).len() == 0,
    decreases a.len(),
{
    assert(seq![f].drop_first() =~= Seq::<FoundPath>::empty());
    reveal_with_fuel(tasks_for, 2);
    if f.kind == PathKind::File {
        assert(tasks_for(seq![f]) =~= seq![TaskView::Process(f.path@)]);
    }
    if f.kind == PathKind::Directory {
        assert(tasks_for(seq![f]) =~= seq![TaskView::List(f.path@)]);
    }
    if a.len() == 0 {
        assert(a + b =~= b);
        assert(tasks_for(a) + tasks_for(b) =~= tasks_for(b));
    } else {
        scans_go_by_what_was_found(a.drop_first(), b, f);
        assert((a + b).drop_first() =~= a.drop_first() + b);
        assert((a + b)[0] == a[0]);
        assert(tasks_for(a + b) =~= tasks_for(a) + tasks_for(b));
    }
}

/// A scan begins with a task for each watched directory, in their order.
pub proof fn scans_begin_with_every_directory(dirs: Seq<Seq<char>>, i: int)
    requires
        0 <= i < dirs.len(),
    ensures
        scan_started(dirs).len() == dirs.len(),
        scan_started(dirs)[i] == TaskView::List(dirs[i]),
{
}

/// A directory that is not watched yet is watched from then on, behind those that are; what is
/// known of files stays.
pub proof fn directories_are_watched_in_their_order(w: WatcherView, dir: Seq<char>)
    ensures
        ({
            let b = watching(w, dir);
            let new = forall|i: int|
                0 <= i < w.watchers.len() ==> !same_path(#[trigger] w.watchers[i], dir);
            &&& new ==> b.watchers == w.watchers.push(dir)
            &&& !new ==> b.watchers == w.watchers
            &&& b.file_entries == w.file_entries
        }),
{
}

/// What is known of a file stands in the place of what was known of it before, and at the end
/// where nothing was; all other entries keep their places.
pub proof fn records_keep_their_places(es: Seq<EntryView>, e: EntryView, i: int)
    requires
        all_different(entry_paths(es)),
        0 <= i < es.len(),
    ensures
        same_path(es[i].path, e.path) ==> recorded(es, e) == es.update(i, e),
        (forall|j: int| 0 <= j < es.len() ==> !same_path((#[trigger] es[j]).path, e.path))
            ==> recorded(es, e) == es.push(e),
        !same_path(es[i].path, e.path) ==> recorded(es, e)[i] == es[i],
{
    if has_entry_at(es, e.path, i) {
        lemma_one_entry(es, e.path, i);
    }
    if exists|j: int| has_entry_at(es, e.path, j) {
        let j = choose|j: int| has_entry_at(es, e.path, j);
        assert(has_entry_at(es, e.path, j));
        assert(same_path(es[j].path, e.path));
    }
}

/// A snapshot has as many entries as files are known, each of them, by the second and within it by
/// the nanosecond of their creation.
pub proof fn snapshots_stand_in_the_order_of_time(w: WatcherView, i: int, j: int)
    requires
        0 <= i <= j < w.file_entries.len(),
    ensures
        snapshot_of(w).len() == w.file_entries.len(),
        snapshot_of(w).contains(w.file_entries[i]),
        earlier_or_same(snapshot_of(w)[i].created_at, snapshot_of(w)[j].created_at),
{
    broadcast use vstd::seq_lib::group_to_multiset_ensures;

    let es = w.file_entries;
    let s = snapshot_of(w);
    sorting_orders_and_keeps_all(es, entries_by_creation());
    assert(es.to_multiset().count(es[i]) > 0) by {
        assert(es.contains(es[i]));
    }
    assert(s.to_multiset().count(es[i]) > 0);
    if i < j {
        assert(!before(entries_by_creation()(s[j]), entries_by_creation()(s[i])));
    }
    moments_are_ordered_in_time(s[j].created_at, s[i].created_at);
}

/// An entry says of a file what was found out: its path, its time, its size and its extension, and
/// its content where it is text.
pub proof fn entries_say_what_was_found(
    path: Seq<char>,
    created_at: Moment,
    is_text: bool,
    content: Option<Seq<char>>,
    size: int,
    is_file: bool,
)
    ensures
        ({
            let e = entry_of(path, created_at, is_text, content, size, is_file);
            &&& e.path == path
            &&& e.created_at == created_at
            &&& e.is_text == is_text
            &&& e.size == size
            &&& e.is_file == is_file
            &&& is_text ==> e.content == content
            &&& !is_text ==> e.content is None
            &&& path_extension(path) matches Some(ext) ==> e.extension == ext
            &&& path_extension(path) is None ==> e.extension.len() == 0
        }),
{
}

/// Where a file has an extension, that alone tells whether it is text; without one its first bytes
/// do, if they could be read: it is text unless one of them is zero.
pub proof fn text_is_told_by_extension_or_bytes(
    path: Seq<char>,
    head: Option<Seq<u8>>,
    other: Option<Seq<u8>>,
)
    ensures
        path_extension(path) is Some ==> reads_as_text(path, head) == reads_as_text(path, other),
        path_extension(path) matches Some(ext) ==> reads_as_text(path, head) == names_text(ext),
        path_extension(path) is None && head is None ==> !reads_as_text(path, head),
        path_extension(path) is None && head is Some ==> (reads_as_text(path, head) <==> forall|
            i: int,
        |
            0 <= i < head->0.len() ==> #[trigger] head->0[i] != 0),
{
    if path_extension(path) is None && head is Some {
        let bytes = head->0;
        if exists|i: int| 0 <= i < bytes.len() && #[trigger] bytes[i] == 0 {
            let i = choose|i: int| 0 <= i < bytes.len() && #[trigger] bytes[i] == 0;
            assert(bytes[i] == 0u8);
            assert(bytes.contains(0u8));
        }
    }
}

/// The extensions of text files are these twenty-two, and no others, in any case of their letters.
pub proof fn text_files_have_these_extensions(ext: Seq<char>)
    ensures
        names_text(ext) <==> {
            let e = lowercase(ext);
            ||| e == "txt"@ || e == "md"@ || e == "log"@
            ||| e == "json"@ || e == "yaml"@ || e == "yml"@ || e == "toml"@ || e == "xml"@
            ||| e == "csv"@ || e == "css"@ || e == "html"@
            ||| e == "sh"@ || e == "bash"@ || e == "zsh"@
            ||| e == "py"@ || e == "rs"@ || e == "js"@ || e == "ts"@
            ||| e == "cfg"@ || e == "conf"@ || e == "ini"@ || e == "env"@
        },
{
    let all = text_extensions();
    assert(all.len() == 22);
    assert(all[0] == "txt"@ && all[1] == "md"@ && all[2] == "json"@ && all[3] == "yaml"@);
    assert(all[4] == "yml"@ && all[5] == "toml"@ && all[6] == "xml"@ && all[7] == "csv"@);
    assert(all[8] == "sh"@ && all[9] == "bash"@ && all[10] == "zsh"@ && all[11] == "py"@);
    assert(all[12] == "rs"@ && all[13] == "js"@ && all[14] == "ts"@ && all[15] == "css"@);
    assert(all[16] == "html"@ && all[17] == "log"@ && all[18] == "cfg"@ && all[19] == "conf"@);
    assert(all[20] == "ini"@ && all[21] == "env"@);
}

} // verus!
