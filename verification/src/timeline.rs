//! The timeline: every watched file as a message, by the time of its creation.
use vstd::prelude::*;

use crate::clock::{earlier_or_same, moments_are_ordered_in_time, Moment};
use crate::models::{message_rank, ChatMessage, EntryView, FileEntry, MessageRole, MessageView};
use crate::order::{
    before, in_order, lemma_sorted_map, of_rank, sorted, sorting_is_stable,
    sorting_orders_and_keeps_all, stable_sort, Ranked,
};
use crate::paths::{is_inside, name_or_empty, path_file_name, resides_in, shown_name};
use crate::size::{kb_text, kilobytes};
use crate::state::{message_views, wf, App, AppView};
use crate::submit::{with_messages, within_limit};
use crate::text::{ascii, ascii_upper, texts, uppercase};

verus! {

/// A watched file, with its path as the file system resolves it.
pub struct ResolvedEntry {
    pub entry: FileEntry,
    pub real_path: String,
}

/// The watched directories that tell a role, as the file system resolves them.
pub struct ResolvedDirs {
    pub input_dirs: Vec<String>,
    pub system_dirs: Vec<String>,
}

#[verifier::ext_equal]
pub struct ResolvedView {
    pub entry: EntryView,
    pub real_path: Seq<char>,
}

impl View for ResolvedEntry {
    type V = ResolvedView;

    open spec fn view(&self) -> ResolvedView {
        ResolvedView { entry: self.entry@, real_path: self.real_path@ }
    }
}

#[verifier::ext_equal]
pub struct DirsView {
    pub input_dirs: Seq<Seq<char>>,
    pub system_dirs: Seq<Seq<char>>,
}

impl View for ResolvedDirs {
    type V = DirsView;

    open spec fn view(&self) -> DirsView {
        DirsView { input_dirs: texts(self.input_dirs@), system_dirs: texts(self.system_dirs@) }
    }
}

/// The views of a list of entries.
pub open spec fn resolved_views(v: Seq<ResolvedEntry>) -> Seq<ResolvedView> {
    v.map_values(|e: ResolvedEntry| e@)
}

/// The file resides in one of the directories.
pub open spec fn resides_in_any(path: Seq<char>, dirs: Seq<Seq<char>>) -> bool {
    exists|i: int| 0 <= i < dirs.len() && resides_in(path, #[trigger] dirs[i])
}

/// The role of a file: that of the directory where it resides, and input where it resides in
/// directories of several roles.
pub open spec fn role_of(path: Seq<char>, dirs: DirsView) -> MessageRole {
    if resides_in_any(path, dirs.input_dirs) {
        MessageRole::Input
    } else if resides_in_any(path, dirs.system_dirs) {
        MessageRole::System
    } else {
        MessageRole::Output
    }
}

/// A file by its type, its name and its size.
pub open spec fn described_as(file_type: Seq<char>, e: EntryView) -> Seq<char> {
    "["@ + file_type + "] "@ + shown_name(e.path) + " ("@ + kb_text(e.size as nat) + " KB)"@
}

/// What stands for a file that is no text: its extension in capitals, its name and its size.
pub open spec fn described(e: EntryView) -> Seq<char> {
    described_as(uppercase(e.extension), e)
}

/// What the timeline shows of a file: a text as it reads, as far as it could be read.
pub open spec fn shown_content(e: EntryView) -> Seq<char> {
    if e.is_text {
        match e.content {
            Some(text) => text,
            None => Seq::empty(),
        }
    } else {
        described(e)
    }
}

/// The message that a file becomes.
pub open spec fn message_of(r: ResolvedView, dirs: DirsView) -> MessageView {
    MessageView {
        role: role_of(r.real_path, dirs),
        content: shown_content(r.entry),
        filepath: r.entry.path,
        created_at: r.entry.created_at,
        filename: shown_name(r.entry.path),
    }
}

/// The messages that files become.
pub open spec fn messages_of(files: Seq<ResolvedView>, dirs: DirsView) -> Seq<MessageView> {
    files.map_values(|r: ResolvedView| message_of(r, dirs))
}

/// The rank of a message in the timeline.
pub open spec fn by_creation() -> spec_fn(MessageView) -> Seq<int> {
    |m: MessageView| message_rank(m)
}

/// The timeline of some files: by the time of creation, and in the order given where that is the
/// same.
pub open spec fn timeline(files: Seq<ResolvedView>, dirs: DirsView) -> Seq<MessageView> {
    sorted(messages_of(files, dirs), by_creation())
}

/// The state with the timeline of other files; the chat log goes to its end.
pub open spec fn updated(a: AppView, files: Seq<ResolvedView>, dirs: DirsView) -> AppView {
    AppView { scroll_to_bottom: true, ..with_messages(a, timeline(files, dirs)) }
}

fn in_any(path: &str, dirs: &Vec<String>) -> (b: bool)
    ensures
        b == resides_in_any(path@, texts(dirs@)),
{
    for i in 0..dirs.len()
        invariant
            forall|j: int| 0 <= j < i ==> !resides_in(path@, #[trigger] texts(dirs@)[j]),
    {
        assert(texts(dirs@)[i as int] == dirs@[i as int]@);
        if is_inside(path, dirs[i].as_str()) {
            return true;
        }
    }
    false
}

/// The role of a file, given its path and the directories as the file system resolves them.
pub fn determine_role(real_path: &str, dirs: &ResolvedDirs) -> (role: MessageRole)
    ensures
        role == role_of(real_path@, dirs@),
{
    if in_any(real_path, &dirs.input_dirs) {
        MessageRole::Input
    } else if in_any(real_path, &dirs.system_dirs) {
        MessageRole::System
    } else {
        MessageRole::Output
    }
}

fn describe(e: &FileEntry) -> (r: String)
    ensures
        r@ == described(e@),
        ascii(e@.extension) ==> r@ == described_as(
            e@.extension.map_values(|c: char| ascii_upper(c)),
            e@,
        ),
{
    let mut r = "[".to_owned();
    r.append(e.metadata.extension.as_str().to_uppercase().as_str());
    r.append("] ");
    r.append(name_or_empty(e.path.as_str()).as_str());
    r.append(" (");
    r.append(kilobytes(e.metadata.size).as_str());
    r.append(" KB)");
    r
}

/// Makes the message of a file.
pub fn message_from(r: ResolvedEntry, dirs: &ResolvedDirs) -> (m: ChatMessage)
    ensures
        m@ == message_of(r@, dirs@),
        !r@.entry.is_text && ascii(r@.entry.extension) ==> m@.content == described_as(
            r@.entry.extension.map_values(|c: char| ascii_upper(c)),
            r@.entry,
        ),
{
    let role = determine_role(r.real_path.as_str(), dirs);
    let content = if r.entry.is_text {
        match &r.entry.content {
            Some(text) => text.clone(),
            None => String::new(),
        }
    } else {
        describe(&r.entry)
    };
    let filename = name_or_empty(r.entry.path.as_str());
    ChatMessage {
        role,
        content,
        filepath: r.entry.path,
        created_at: r.entry.created_at,
        filename,
    }
}

impl App {
    /// Shows these files as the timeline.
    pub fn update_messages(&mut self, entries: Vec<ResolvedEntry>, dirs: &ResolvedDirs)
        requires
            wf(old(self)@),
        ensures
            final(self)@ == updated(old(self)@, resolved_views(entries@), dirs@),
            wf(final(self)@),
    {
        let mut messages: Vec<ChatMessage> = Vec::new();
        let ghost all = messages_of(resolved_views(entries@), dirs@);
        for e in it: entries
            invariant
                it.seq() == entries@,
                all == messages_of(resolved_views(entries@), dirs@),
                message_views(messages@) == all.take(it.index() as int),
        {
            let ghost i = it.index() as int;
            let m = message_from(e, dirs);
            proof {
                assert(all[i] == m@);
                assert(all.take(i + 1) =~= all.take(i).push(m@));
                assert(message_views(messages@.push(m)) =~= message_views(messages@).push(m@));
            }
            messages.push(m);
        }
        assert(all.take(all.len() as int) =~= all);
        let ghost rank = |m: ChatMessage| m.rank();
        let ghost shown = |m: ChatMessage| m@;
        proof {
            lemma_sorted_map(messages@, rank, shown, by_creation());
        }
        self.messages = stable_sort(messages);
        self.settle_messages();
        self.scroll_to_bottom = true;
    }
}

/// The timeline is in the order of creation, and without a limit it shows every file once, and
/// nothing else.
pub proof fn timeline_is_in_order_of_creation(
    a: AppView,
    files: Seq<ResolvedView>,
    dirs: DirsView,
)
    requires
        a.history_limit >= 0,
    ensures
        ({
            let b = updated(a, files, dirs);
            &&& in_order(b.messages, by_creation())
            &&& a.history_limit == 0 ==> b.messages.to_multiset() == messages_of(
                files,
                dirs,
            ).to_multiset()
            &&& a.history_limit > 0 ==> b.messages.len() <= a.history_limit
            &&& a.history_limit > 0 && files.len() >= a.history_limit ==> b.messages.len()
                == a.history_limit
        }),
{
    let all = timeline(files, dirs);
    sorting_orders_and_keeps_all(messages_of(files, dirs), by_creation());
    let kept = within_limit(all, a.history_limit);
    assert forall|i: int, j: int| 0 <= i < j < kept.len() implies !before(
        by_creation()(#[trigger] kept[j]),
        by_creation()(#[trigger] kept[i]),
    ) by {
        let d = all.len() - kept.len();
        assert(kept[i] == all[i + d] && kept[j] == all[j + d]);
    }
}

/// With a limit, the messages that are left out are not younger than those that stay.
pub proof fn limit_leaves_the_latest(
    a: AppView,
    files: Seq<ResolvedView>,
    dirs: DirsView,
    out: int,
    kept: int,
)
    requires
        a.history_limit > 0,
        0 <= out < files.len() - a.history_limit,
        0 <= kept < a.history_limit,
    ensures
        updated(a, files, dirs).messages.len() == a.history_limit,
        !before(
            message_rank(updated(a, files, dirs).messages[kept]),
            message_rank(timeline(files, dirs)[out]),
        ),
{
    let all = timeline(files, dirs);
    sorting_orders_and_keeps_all(messages_of(files, dirs), by_creation());
    let d = files.len() - a.history_limit;
    assert(updated(a, files, dirs).messages[kept] == all[kept + d]);
    assert(!before(by_creation()(all[kept + d]), by_creation()(all[out])));
}

/// A file has the role of the directory where it resides: it is input exactly in an input
/// directory, system exactly in a system directory that is in no input directory, and output
/// anywhere else.
pub proof fn role_follows_the_directory(path: Seq<char>, dirs: DirsView)
    ensures
        role_of(path, dirs) == MessageRole::Input <==> resides_in_any(path, dirs.input_dirs),
        role_of(path, dirs) == MessageRole::System <==> resides_in_any(path, dirs.system_dirs)
            && !resides_in_any(path, dirs.input_dirs),
        role_of(path, dirs) == MessageRole::Output <==> !resides_in_any(path, dirs.system_dirs)
            && !resides_in_any(path, dirs.input_dirs),
{
}

/// A path is that of the directory, or goes on behind it with a slash.
spec fn goes_on_from(path: Seq<char>, dir: Seq<char>) -> bool {
    path == dir || exists|rest: Seq<char>| path == #[trigger] (dir + seq!['/'] + rest)
}

proof fn lemma_goes_on(path: Seq<char>, dir: Seq<char>)
    requires
        goes_on_from(path, dir),
    ensures
        resides_in(path, dir),
{
    if path != dir {
        let rest = choose|rest: Seq<char>| path == #[trigger] (dir + seq!['/'] + rest);
        assert(path.subrange(0, dir.len() as int) =~= dir);
        assert(path[dir.len() as int] == '/');
    } else {
        assert(path.subrange(0, dir.len() as int) =~= dir);
    }
}

/// Every input directory counts, wherever it stands in the list: its own path, and all that goes
/// on behind it with a slash, is input, whatever the other directories are.
pub proof fn every_input_directory_counts(
    dirs: DirsView,
    i: int,
    path: Seq<char>,
    rest: Seq<char>,
)
    requires
        0 <= i < dirs.input_dirs.len(),
    ensures
        role_of(dirs.input_dirs[i], dirs) == MessageRole::Input,
        role_of(dirs.input_dirs[i] + seq!['/'] + rest, dirs) == MessageRole::Input,
        resides_in(path, dirs.input_dirs[i]) ==> role_of(path, dirs) == MessageRole::Input,
{
    let dir = dirs.input_dirs[i];
    lemma_goes_on(dir, dir);
    assert(goes_on_from(dir + seq!['/'] + rest, dir));
    lemma_goes_on(dir + seq!['/'] + rest, dir);
}

/// Every system directory counts as well: what resides in it is system, as long as none of the
/// input directories holds it too.
pub proof fn every_system_directory_counts(
    dirs: DirsView,
    i: int,
    path: Seq<char>,
    rest: Seq<char>,
)
    requires
        0 <= i < dirs.system_dirs.len(),
    ensures
        resides_in(path, dirs.system_dirs[i]) && (forall|j: int|
            0 <= j < dirs.input_dirs.len() ==> !resides_in(path, #[trigger] dirs.input_dirs[j]))
            ==> role_of(path, dirs) == MessageRole::System,
        ({
            let file = dirs.system_dirs[i] + seq!['/'] + rest;
            (forall|j: int|
                0 <= j < dirs.input_dirs.len() ==> !resides_in(
                    file,
                    #[trigger] dirs.input_dirs[j],
                )) ==> role_of(file, dirs) == MessageRole::System
        }),
{
    let dir = dirs.system_dirs[i];
    assert(goes_on_from(dir + seq!['/'] + rest, dir));
    lemma_goes_on(dir + seq!['/'] + rest, dir);
}

/// A file that none of the input and system directories holds is output, and a file that is not
/// output is held by one of them.
pub proof fn files_elsewhere_are_output(dirs: DirsView, path: Seq<char>)
    ensures
        (forall|j: int|
            0 <= j < dirs.input_dirs.len() ==> !resides_in(path, #[trigger] dirs.input_dirs[j]))
            && (forall|j: int|
            0 <= j < dirs.system_dirs.len() ==> !resides_in(path, #[trigger] dirs.system_dirs[j]))
            ==> role_of(path, dirs) == MessageRole::Output,
        role_of(path, dirs) == MessageRole::Input ==> exists|j: int|
            0 <= j < dirs.input_dirs.len() && resides_in(path, #[trigger] dirs.input_dirs[j]),
        role_of(path, dirs) == MessageRole::System ==> exists|j: int|
            0 <= j < dirs.system_dirs.len() && resides_in(path, #[trigger] dirs.system_dirs[j]),
{
}

/// One directory more takes a file only into its own role, and never out of input.
pub proof fn one_more_directory_changes_no_other_role(
    dirs: DirsView,
    dir: Seq<char>,
    path: Seq<char>,
)
    ensures
        ({
            let more = DirsView { input_dirs: dirs.input_dirs.push(dir), ..dirs };
            role_of(path, more) == if resides_in(path, dir) {
                MessageRole::Input
            } else {
                role_of(path, dirs)
            }
        }),
        ({
            let more = DirsView { system_dirs: dirs.system_dirs.push(dir), ..dirs };
            role_of(path, more) == if resides_in(path, dir) && role_of(path, dirs)
                != MessageRole::Input {
                MessageRole::System
            } else {
                role_of(path, dirs)
            }
        }),
{
    lemma_one_more_directory(path, dirs.input_dirs, dir);
    lemma_one_more_directory(path, dirs.system_dirs, dir);
}

proof fn lemma_one_more_directory(path: Seq<char>, dirs: Seq<Seq<char>>, dir: Seq<char>)
    ensures
        resides_in_any(path, dirs.push(dir)) == (resides_in_any(path, dirs) || resides_in(
            path,
            dir,
        )),
{
    let all = dirs.push(dir);
    if resides_in_any(path, dirs) {
        let i = choose|i: int| 0 <= i < dirs.len() && resides_in(path, #[trigger] dirs[i]);
        assert(all[i] == dirs[i]);
    }
    if resides_in(path, dir) {
        assert(all[dirs.len() as int] == dir);
    }
    if resides_in_any(path, all) {
        let i = choose|i: int| 0 <= i < all.len() && resides_in(path, #[trigger] all[i]);
        if i < dirs.len() {
            assert(dirs[i] == all[i]);
        }
    }
}

/// A text file is shown by its whole content, whatever its size, its name and its place; one that
/// could not be read shows nothing.
pub proof fn text_files_show_their_content(r: ResolvedView, dirs: DirsView, text: Seq<char>)
    requires
        r.entry.is_text,
    ensures
        r.entry.content == Some(text) ==> message_of(r, dirs).content == text,
        r.entry.content is None ==> message_of(r, dirs).content.len() == 0,
{
}

/// Any other file is shown by its type, its name and its size alone: whatever its content, its
/// place and its time are, it is described the same.
pub proof fn other_files_are_described(r: ResolvedView, s: ResolvedView, dirs: DirsView, to: DirsView)
    requires
        !r.entry.is_text,
        r.entry.size >= 0,
    ensures
        message_of(r, dirs).content == "["@ + uppercase(r.entry.extension) + "] "@ + shown_name(
            r.entry.path,
        ) + " ("@ + kb_text(r.entry.size as nat) + " KB)"@,
        !s.entry.is_text && s.entry.path == r.entry.path && s.entry.extension == r.entry.extension
            && s.entry.size == r.entry.size ==> message_of(s, to).content == message_of(
            r,
            dirs,
        ).content,
{
}

/// A message keeps the path, the time and the name of its file, and its role is that of the place
/// where the file resides; what the file says has no part in it.
pub proof fn messages_keep_what_files_are(r: ResolvedView, dirs: DirsView)
    ensures
        message_of(r, dirs).filepath == r.entry.path,
        message_of(r, dirs).created_at == r.entry.created_at,
        path_file_name(r.entry.path) matches Some(name) ==> message_of(r, dirs).filename == name,
        path_file_name(r.entry.path) is None ==> message_of(r, dirs).filename.len() == 0,
        message_of(r, dirs).role == role_of(r.real_path, dirs),
{
}

/// Showing other files changes the messages, with the lines they take, and goes to the end of the
/// log; all else stays.
pub proof fn new_files_change_the_messages_alone(
    a: AppView,
    files: Seq<ResolvedView>,
    dirs: DirsView,
)
    ensures
        ({
            let b = updated(a, files, dirs);
            &&& b.scroll_to_bottom
            &&& b == AppView {
                messages: b.messages,
                message_line_offsets: b.message_line_offsets,
                scroll_to_bottom: true,
                ..a
            }
        }),
{
}

/// The timeline has a message for each file, as far as the limit leaves room, and the latest are
/// kept; without a limit none is left out.
pub proof fn every_file_is_in_the_timeline(
    a: AppView,
    files: Seq<ResolvedView>,
    dirs: DirsView,
    i: int,
)
    requires
        0 <= i < files.len(),
        a.history_limit >= 0,
    ensures
        ({
            let ms = updated(a, files, dirs).messages;
            &&& a.history_limit == 0 || files.len() <= a.history_limit ==> ms.len() == files.len()
                && ms.contains(message_of(files[i], dirs))
            &&& a.history_limit > 0 && files.len() > a.history_limit ==> ms.len()
                == a.history_limit
            &&& ms.contains(message_of(files[i], dirs)) || forall|k: int|
                0 <= k < ms.len() ==> earlier_or_same(
                    files[i].entry.created_at,
                    (#[trigger] ms[k]).created_at,
                )
        }),
{
    broadcast use vstd::seq_lib::group_to_multiset_ensures;

    let ms = updated(a, files, dirs).messages;
    let unsorted = messages_of(files, dirs);
    let all = timeline(files, dirs);
    let m = message_of(files[i], dirs);
    sorting_orders_and_keeps_all(unsorted, by_creation());
    assert(unsorted[i] == m);
    assert(unsorted.to_multiset().count(m) > 0) by {
        assert(unsorted.contains(m));
    }
    assert(all.to_multiset().count(m) > 0);
    assert(all.contains(m));
    let at = choose|k: int| 0 <= k < all.len() && all[k] == m;
    let d = all.len() - ms.len();
    if at >= d {
        assert(ms[at - d] == m);
    } else {
        assert forall|k: int| 0 <= k < ms.len() implies earlier_or_same(
            files[i].entry.created_at,
            (#[trigger] ms[k]).created_at,
        ) by {
            assert(ms[k] == all[k + d]);
            assert(!before(by_creation()(all[k + d]), by_creation()(all[at])));
            moments_are_ordered_in_time(ms[k].created_at, m.created_at);
        }
    }
}

/// The messages stand in the order of their times: by the second, and within it by the
/// nanosecond.
pub proof fn messages_stand_in_the_order_of_time(
    a: AppView,
    files: Seq<ResolvedView>,
    dirs: DirsView,
    i: int,
    j: int,
)
    requires
        a.history_limit >= 0,
        0 <= i < j < updated(a, files, dirs).messages.len(),
    ensures
        earlier_or_same(
            updated(a, files, dirs).messages[i].created_at,
            updated(a, files, dirs).messages[j].created_at,
        ),
{
    timeline_is_in_order_of_creation(a, files, dirs);
    let ms = updated(a, files, dirs).messages;
    assert(!before(by_creation()(ms[j]), by_creation()(ms[i])));
    moments_are_ordered_in_time(ms[j].created_at, ms[i].created_at);
}

/// Files of one time stand in the order in which they were given.
pub proof fn files_of_one_time_keep_their_order(
    files: Seq<ResolvedView>,
    dirs: DirsView,
    time: Moment,
)
    ensures
        of_rank(timeline(files, dirs), by_creation(), seq![time.secs, time.nanos]) == of_rank(
            messages_of(files, dirs),
            by_creation(),
            seq![time.secs, time.nanos],
        ),
{
    sorting_is_stable(messages_of(files, dirs), by_creation(), seq![time.secs, time.nanos]);
}

} // verus!
