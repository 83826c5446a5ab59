//! Setting up a session, and what its scriptlets are told.
use vstd::prelude::*;

use crate::cli::{Cli, CliView};
use crate::clock::{Moment, Timestamp};
use crate::events::{ActionView, InputAction};
use crate::models::{ContextView, MessageRole, MessageView, ScriptletContext};
use crate::paths::{is_same_path, join_path, lists, path_join, same_path};
use crate::scriptlet::{environment, sets, VarView};
use crate::select::typed_inline;
use crate::state::{message_views, wf, App, AppView};
use crate::submit::{
    pending, stored_messages_join_the_timeline, submit_action, submitted, submitting,
};
use crate::text::{blank, copy_opt, copy_texts, lemma_texts_push, opt_text, texts};
use crate::watcher::{
    watcher_wf, watching, watching_twice_is_watching_once, FsWatcher, WatcherView,
};

verus! {

/// The first of some directories.
pub open spec fn first_of(dirs: Seq<Seq<char>>) -> Option<Seq<char>> {
    if dirs.len() > 0 {
        Some(dirs[0])
    } else {
        None
    }
}

/// The state as the command line sets it up: the first directories are active, unless another
/// output directory is asked for.
pub open spec fn configured(a: AppView, cli: CliView) -> AppView {
    AppView {
        input_dirs: cli.input_dirs,
        output_dirs: cli.output_dirs,
        system_dirs: cli.system_dirs,
        active_input_dir: first_of(cli.input_dirs),
        active_output_dir: match cli.active_output {
            Some(dir) => Some(dir),
            None => first_of(cli.output_dirs),
        },
        on_submit_script: cli.on_submit,
        on_output_script: cli.on_output,
        history_limit: cli.history_limit,
        ..a
    }
}

/// The directories of an agent.
#[derive(Debug, Clone, PartialEq)]
pub struct AgentDirs {
    pub input: String,
    pub output: String,
    pub system: String,
}

/// Which directories of an agent there are.
#[derive(Debug, Clone, Copy, PartialEq, Eq, Structural)]
pub struct AgentDirsFound {
    pub input: bool,
    pub output: bool,
    pub system: bool,
}

/// The state with the directories of an agent, as far as there are any; its input and output
/// become the active ones.
pub open spec fn with_agent(a: AppView, dir: Seq<char>, found: AgentDirsFound) -> AppView {
    let input = path_join(dir, "input"@);
    let output = path_join(dir, "output"@);
    let system = path_join(dir, "system"@);
    AppView {
        input_dirs: if found.input {
            a.input_dirs.push(input)
        } else {
            a.input_dirs
        },
        active_input_dir: if found.input {
            Some(input)
        } else {
            a.active_input_dir
        },
        output_dirs: if found.output {
            a.output_dirs.push(output)
        } else {
            a.output_dirs
        },
        active_output_dir: if found.output {
            Some(output)
        } else {
            a.active_output_dir
        },
        system_dirs: if found.system {
            a.system_dirs.push(system)
        } else {
            a.system_dirs
        },
        ..a
    }
}

/// The directories that were set up to be watched.
#[derive(Debug, Clone, PartialEq)]
pub struct WatchedDirs {
    pub input_dirs: Vec<String>,
    pub output_dirs: Vec<String>,
    pub system_dirs: Vec<String>,
}

#[verifier::ext_equal]
pub struct WatchedView {
    pub input_dirs: Seq<Seq<char>>,
    pub output_dirs: Seq<Seq<char>>,
    pub system_dirs: Seq<Seq<char>>,
}

impl View for WatchedDirs {
    type V = WatchedView;

    open spec fn view(&self) -> WatchedView {
        WatchedView {
            input_dirs: texts(self.input_dirs@),
            output_dirs: texts(self.output_dirs@),
            system_dirs: texts(self.system_dirs@),
        }
    }
}

/// The directories of the interface, as they are to be watched.
pub open spec fn watched_of(a: AppView) -> WatchedView {
    WatchedView {
        input_dirs: a.input_dirs,
        output_dirs: a.output_dirs,
        system_dirs: a.system_dirs,
    }
}

/// A watcher of some more directories.
pub open spec fn watching_all(w: WatcherView, dirs: Seq<Seq<char>>) -> WatcherView
    decreases dirs.len(),
{
    if dirs.len() == 0 {
        w
    } else {
        watching(watching_all(w, dirs.drop_last()), dirs.last())
    }
}

/// A watcher of nothing.
pub open spec fn watching_nothing() -> WatcherView {
    WatcherView { watchers: Seq::empty(), file_entries: Seq::empty() }
}

/// The watcher of all directories, for the timeline.
pub open spec fn display_watcher(d: WatchedView) -> WatcherView {
    watching_all(
        watching_all(watching_all(watching_nothing(), d.input_dirs), d.output_dirs),
        d.system_dirs,
    )
}

/// The watcher of the output directories, for files that are complete.
pub open spec fn output_watcher(d: WatchedView) -> WatcherView {
    watching_all(watching_nothing(), d.output_dirs)
}

/// The last message that is output.
pub open spec fn latest_output(ms: Seq<MessageView>) -> Option<Seq<char>>
    decreases ms.len(),
{
    if ms.len() == 0 {
        None
    } else if ms.last().role == MessageRole::Output {
        Some(ms.last().filepath)
    } else {
        latest_output(ms.drop_last())
    }
}

/// The last message that is input and has a file.
pub open spec fn latest_input(ms: Seq<MessageView>) -> Option<Seq<char>>
    decreases ms.len(),
{
    if ms.len() == 0 {
        None
    } else if ms.last().role == MessageRole::Input && !typed_inline(ms.last().filepath) {
        Some(ms.last().filepath)
    } else {
        latest_input(ms.drop_last())
    }
}

/// What every scriptlet is told: the watched directories, and the active ones at the time.
pub open spec fn startup_context(a: AppView, d: WatchedView, at: Moment) -> ContextView {
    ContextView {
        latest_input_file: None,
        latest_output_file: None,
        active_input_dir: a.active_input_dir,
        active_output_dir: a.active_output_dir,
        input_dirs: d.input_dirs,
        output_dirs: d.output_dirs,
        system_dirs: d.system_dirs,
        timestamp: at,
        user_message: None,
        agent_response: None,
    }
}

/// What the scriptlet of a submitted message is told.
pub open spec fn submit_context(
    a: AppView,
    d: WatchedView,
    message: Seq<char>,
    input_file: Option<Seq<char>>,
    at: Moment,
) -> ContextView {
    ContextView {
        latest_input_file: input_file,
        latest_output_file: latest_output(a.messages),
        user_message: Some(message),
        ..startup_context(a, d, at)
    }
}

/// What the scriptlet of a complete output file is told; `text` is what the file says, where it
/// could be read.
pub open spec fn output_context(
    a: AppView,
    d: WatchedView,
    file: Seq<char>,
    text: Option<Seq<char>>,
    at: Moment,
) -> ContextView {
    ContextView {
        latest_input_file: latest_input(a.messages),
        latest_output_file: Some(file),
        agent_response: text,
        ..startup_context(a, d, at)
    }
}

/// A script to run, and what it is told.
#[derive(Debug, Clone)]
pub struct ScriptletRun {
    pub script: String,
    pub context: ScriptletContext,
}

#[verifier::ext_equal]
pub struct RunView {
    pub script: Seq<char>,
    pub context: ContextView,
}

impl View for ScriptletRun {
    type V = RunView;

    open spec fn view(&self) -> RunView {
        RunView { script: self.script@, context: self.context@ }
    }
}

/// The view of a run that may be missing.
pub open spec fn opt_run(r: Option<ScriptletRun>) -> Option<RunView> {
    match r {
        Some(run) => Some(run@),
        None => None,
    }
}

/// The scriptlet that what came of a key calls for: only a submitted message does, and only where
/// a script is set for it.
pub open spec fn run_after(
    a: AppView,
    d: WatchedView,
    action: ActionView,
    at: Moment,
) -> Option<RunView> {
    match (action, a.on_submit_script) {
        (ActionView::Submit { message, input_file }, Some(script)) => Some(
            RunView { script, context: submit_context(a, d, message, input_file, at) },
        ),
        _ => None,
    }
}

/// The scriptlet that a complete output file calls for, where a script is set for it.
pub open spec fn run_for_output(
    a: AppView,
    d: WatchedView,
    file: Seq<char>,
    text: Option<Seq<char>>,
    at: Moment,
) -> Option<RunView> {
    match a.on_output_script {
        Some(script) => Some(RunView { script, context: output_context(a, d, file, text, at) }),
        None => None,
    }
}

/// The directories of an agent, as its layout has them.
pub fn agent_dirs(agent_dir: &str) -> (r: AgentDirs)
    ensures
        r.input@ == path_join(agent_dir@, "input"@),
        r.output@ == path_join(agent_dir@, "output"@),
        r.system@ == path_join(agent_dir@, "system"@),
{
    AgentDirs {
        input: join_path(agent_dir, "input"),
        output: join_path(agent_dir, "output"),
        system: join_path(agent_dir, "system"),
    }
}

fn first_dir(dirs: &Vec<String>) -> (r: Option<String>)
    ensures
        opt_text(r) == first_of(texts(dirs@)),
{
    if dirs.len() > 0 {
        Some(dirs[0].clone())
    } else {
        None
    }
}

fn watch_all(w: &mut FsWatcher, dirs: &Vec<String>)
    requires
        watcher_wf(old(w)@),
    ensures
        final(w)@ == watching_all(old(w)@, texts(dirs@)),
        watcher_wf(final(w)@),
{
    let ghost start = w@;
    for i in 0..dirs.len()
        invariant
            watcher_wf(w@),
            w@ == watching_all(start, texts(dirs@).take(i as int)),
    {
        assert(texts(dirs@).take(i + 1).drop_last() =~= texts(dirs@).take(i as int));
        w.add_directory(dirs[i].clone());
    }
    assert(texts(dirs@).take(dirs@.len() as int) =~= texts(dirs@));
}

impl WatchedDirs {
    /// The watcher of all directories, for the timeline.
    pub fn display_watcher(&self) -> (w: FsWatcher)
        ensures
            w@ == display_watcher(self@),
            watcher_wf(w@),
    {
        let mut w = FsWatcher::new();
        watch_all(&mut w, &self.input_dirs);
        watch_all(&mut w, &self.output_dirs);
        watch_all(&mut w, &self.system_dirs);
        w
    }

    /// The watcher of the output directories, for files that are complete.
    pub fn output_watcher(&self) -> (w: FsWatcher)
        ensures
            w@ == output_watcher(self@),
            watcher_wf(w@),
    {
        let mut w = FsWatcher::new();
        watch_all(&mut w, &self.output_dirs);
        w
    }
}

impl App {
    /// Sets the interface up as the command line has it.
    pub fn configure(&mut self, cli: &Cli)
        requires
            wf(old(self)@),
        ensures
            final(self)@ == configured(old(self)@, cli@),
            wf(final(self)@),
    {
        self.input_dirs = copy_texts(&cli.input_dirs);
        self.output_dirs = copy_texts(&cli.output_dirs);
        self.system_dirs = copy_texts(&cli.system_dirs);
        self.active_input_dir = first_dir(&cli.input_dirs);
        self.active_output_dir = match &cli.active_output {
            Some(dir) => Some(dir.clone()),
            None => first_dir(&cli.output_dirs),
        };
        self.on_submit_script = copy_opt(&cli.on_submit);
        self.on_output_script = copy_opt(&cli.on_output);
        self.history_limit = cli.history_limit;
    }

    /// Adds the directories of an agent, as far as there are any.
    pub fn add_agent(&mut self, agent_dir: &str, found: AgentDirsFound)
        requires
            wf(old(self)@),
        ensures
            final(self)@ == with_agent(old(self)@, agent_dir@, found),
            wf(final(self)@),
    {
        let dirs = agent_dirs(agent_dir);
        if found.input {
            proof {
                lemma_texts_push(self.input_dirs@, dirs.input);
            }
            self.active_input_dir = Some(dirs.input.clone());
            self.input_dirs.push(dirs.input);
        }
        if found.output {
            proof {
                lemma_texts_push(self.output_dirs@, dirs.output);
            }
            self.active_output_dir = Some(dirs.output.clone());
            self.output_dirs.push(dirs.output);
        }
        if found.system {
            proof {
                lemma_texts_push(self.system_dirs@, dirs.system);
            }
            self.system_dirs.push(dirs.system);
        }
    }

    /// The directories to watch, as they are set up now.
    pub fn watched_dirs(&self) -> (d: WatchedDirs)
        ensures
            d@ == watched_of(self@),
    {
        WatchedDirs {
            input_dirs: copy_texts(&self.input_dirs),
            output_dirs: copy_texts(&self.output_dirs),
            system_dirs: copy_texts(&self.system_dirs),
        }
    }

    fn latest_output_file(&self) -> (r: Option<String>)
        ensures
            opt_text(r) == latest_output(self@.messages),
    {
        let ghost ms = message_views(self.messages@);
        let mut i: usize = self.messages.len();
        assert(ms.take(i as int) =~= ms);
        while i > 0
            invariant
                i <= self.messages@.len(),
                ms == message_views(self.messages@),
                latest_output(ms) == latest_output(ms.take(i as int)),
            decreases i,
        {
            assert(ms.take(i as int).drop_last() =~= ms.take(i - 1));
            assert(ms.take(i as int).last() == self.messages@[i - 1]@);
            i -= 1;
            if let MessageRole::Output = self.messages[i].role {
                return Some(self.messages[i].filepath.clone());
            }
        }
        None
    }

    fn latest_input_file(&self) -> (r: Option<String>)
        ensures
            opt_text(r) == latest_input(self@.messages),
    {
        let ghost ms = message_views(self.messages@);
        let mut i: usize = self.messages.len();
        assert(ms.take(i as int) =~= ms);
        while i > 0
            invariant
                i <= self.messages@.len(),
                ms == message_views(self.messages@),
                latest_input(ms) == latest_input(ms.take(i as int)),
            decreases i,
        {
            assert(ms.take(i as int).drop_last() =~= ms.take(i - 1));
            assert(ms.take(i as int).last() == self.messages@[i - 1]@);
            i -= 1;
            if let MessageRole::Input = self.messages[i].role {
                let path = self.messages[i].filepath.clone();
                if !is_same_path(path.as_str(), "user-input") {
                    return Some(path);
                }
            }
        }
        None
    }

    /// What the scriptlet that runs at the start is told.
    pub fn startup_context(&self, watched: &WatchedDirs, at: Timestamp) -> (c: ScriptletContext)
        ensures
            c@ == startup_context(self@, watched@, at@),
    {
        ScriptletContext {
            latest_input_file: None,
            latest_output_file: None,
            active_input_dir: copy_opt(&self.active_input_dir),
            active_output_dir: copy_opt(&self.active_output_dir),
            input_dirs: copy_texts(&watched.input_dirs),
            output_dirs: copy_texts(&watched.output_dirs),
            system_dirs: copy_texts(&watched.system_dirs),
            timestamp: at,
            user_message: None,
            agent_response: None,
        }
    }

    /// What the scriptlet of a submitted message is told.
    pub fn submit_context(
        &self,
        watched: &WatchedDirs,
        message: String,
        input_file: Option<String>,
        at: Timestamp,
    ) -> (c: ScriptletContext)
        ensures
            c@ == submit_context(self@, watched@, message@, opt_text(input_file), at@),
    {
        let mut c = self.startup_context(watched, at);
        c.latest_input_file = input_file;
        c.latest_output_file = self.latest_output_file();
        c.user_message = Some(message);
        c
    }

    /// What the scriptlet of a complete output file is told.
    pub fn output_context(
        &self,
        watched: &WatchedDirs,
        file: String,
        text: Option<String>,
        at: Timestamp,
    ) -> (c: ScriptletContext)
        ensures
            c@ == output_context(self@, watched@, file@, opt_text(text), at@),
    {
        let mut c = self.startup_context(watched, at);
        c.latest_input_file = self.latest_input_file();
        c.latest_output_file = Some(file);
        c.agent_response = text;
        c
    }
}

impl App {
    /// The scriptlet to run after a key, where there is one.
    pub fn scriptlet_after(
        &self,
        action: InputAction,
        watched: &WatchedDirs,
        at: Timestamp,
    ) -> (r: Option<ScriptletRun>)
        ensures
            opt_run(r) == run_after(self@, watched@, action@, at@),
    {
        match (action, &self.on_submit_script) {
            (InputAction::Submit { message, input_file }, Some(script)) => Some(
                ScriptletRun {
                    script: script.clone(),
                    context: self.submit_context(watched, message, input_file, at),
                },
            ),
            _ => None,
        }
    }

    /// The scriptlet to run for a complete output file, where there is one.
    pub fn scriptlet_for_output(
        &self,
        watched: &WatchedDirs,
        file: String,
        text: Option<String>,
        at: Timestamp,
    ) -> (r: Option<ScriptletRun>)
        ensures
            opt_run(r) == run_for_output(self@, watched@, file@, opt_text(text), at@),
    {
        match &self.on_output_script {
            Some(script) => Some(
                ScriptletRun {
                    script: script.clone(),
                    context: self.output_context(watched, file, text, at),
                },
            ),
            None => None,
        }
    }
}

/// A file saved in place runs no scriptlet, and neither does a key that came to nothing.
pub proof fn saving_runs_no_scriptlet(a: AppView, d: WatchedView, action: ActionView, at: Moment)
    requires
        !(action is Submit),
    ensures
        run_after(a, d, action, at) is None,
{
}

/// A watcher watches each directory that it was given, and no other.
pub proof fn all_given_directories_are_watched(w: WatcherView, dirs: Seq<Seq<char>>, dir: Seq<char>)
    ensures
        lists(watching_all(w, dirs).watchers, dir) <==> lists(
            w.watchers,
            dir,
        ) || lists(dirs, dir),
        watching_all(w, dirs).file_entries == w.file_entries,
    decreases dirs.len(),
{
    if dirs.len() > 0 {
        let head = dirs.drop_last();
        all_given_directories_are_watched(w, head, dir);
        let before = watching_all(w, head);
        let last = dirs.last();
        let after = watching(before, last);
        if lists(dirs, dir) {
            let k = choose|k: int|
                0 <= k < dirs.len() && same_path(#[trigger] dirs[k], dir);
            if k < head.len() {
                assert(head[k] == dirs[k]);
            } else {
                watching_twice_is_watching_once(before, last, last);
                let m = choose|m: int|
                    0 <= m < after.watchers.len() && same_path(
                        #[trigger] after.watchers[m],
                        last,
                    );
                assert(same_path(after.watchers[m], dir));
            }
        }
        if lists(before.watchers, dir) {
            let k = choose|k: int|
                0 <= k < before.watchers.len() && same_path(
                    #[trigger] before.watchers[k],
                    dir,
                );
            assert(after.watchers[k] == before.watchers[k]);
        }
        if lists(after.watchers, dir) {
            let k = choose|k: int|
                0 <= k < after.watchers.len() && same_path(
                    #[trigger] after.watchers[k],
                    dir,
                );
            if k < before.watchers.len() {
                assert(before.watchers[k] == after.watchers[k]);
            } else {
                assert(after.watchers[k] == last);
                assert(dirs[dirs.len() - 1] == last);
            }
        }
        if lists(head, dir) {
            let k = choose|k: int|
                0 <= k < head.len() && same_path(#[trigger] head[k], dir);
            assert(dirs[k] == head[k]);
        }
    }
}

/// A submitted message reaches its scriptlet together with the file that it was written to, and
/// a complete output file together with what it says.
pub proof fn scriptlets_are_told_what_happened(
    a: AppView,
    d: WatchedView,
    text: Seq<char>,
    file: Seq<char>,
    at: Moment,
    now: Moment,
)
    ensures
        sets(
            environment(submit_context(a, d, text, Some(file), at), now),
            "USER_MESSAGE"@,
            text,
        ),
        sets(
            environment(submit_context(a, d, text, Some(file), at), now),
            "LATEST_INPUT_FILE"@,
            file,
        ),
        sets(
            environment(output_context(a, d, file, Some(text), at), now),
            "LATEST_OUTPUT_FILE"@,
            file,
        ),
        sets(
            environment(output_context(a, d, file, Some(text), at), now),
            "AGENT_RESPONSE"@,
            text,
        ),
{
    let s = environment(submit_context(a, d, text, Some(file), at), now);
    let m = VarView { name: "USER_MESSAGE"@, value: text };
    assert(s[s.len() - 1] == m);
    assert(s[4] == (VarView { name: "LATEST_INPUT_FILE"@, value: file }));
    let o = environment(output_context(a, d, file, Some(text), at), now);
    assert(o[o.len() - 1] == (VarView { name: "AGENT_RESPONSE"@, value: text }));
    let k: int = if latest_input(a.messages) is Some {
        5
    } else {
        4
    };
    assert(o[k] == (VarView { name: "LATEST_OUTPUT_FILE"@, value: file }));
}

/// Each directory of an agent that was found comes last in its own list and, for input and
/// output, is the active one, whichever of the others were found; where it was not found, its
/// list and the active one stay as they were.
pub proof fn agent_directories_are_taken_one_by_one(
    a: AppView,
    dir: Seq<char>,
    found: AgentDirsFound,
)
    ensures
        ({
            let b = with_agent(a, dir, found);
            &&& found.input ==> b.input_dirs.len() == a.input_dirs.len() + 1
                && b.input_dirs.drop_last() == a.input_dirs && b.input_dirs.last() == path_join(
                dir,
                "input"@,
            ) && b.active_input_dir == Some(b.input_dirs.last())
            &&& !found.input ==> b.input_dirs == a.input_dirs && b.active_input_dir
                == a.active_input_dir
            &&& found.output ==> b.output_dirs.len() == a.output_dirs.len() + 1
                && b.output_dirs.drop_last() == a.output_dirs && b.output_dirs.last() == path_join(
                dir,
                "output"@,
            ) && b.active_output_dir == Some(b.output_dirs.last())
            &&& !found.output ==> b.output_dirs == a.output_dirs && b.active_output_dir
                == a.active_output_dir
            &&& found.system ==> b.system_dirs.len() == a.system_dirs.len() + 1
                && b.system_dirs.drop_last() == a.system_dirs && b.system_dirs.last() == path_join(
                dir,
                "system"@,
            )
            &&& !found.system ==> b.system_dirs == a.system_dirs
        }),
{
    let b = with_agent(a, dir, found);
    if found.input {
        assert(b.input_dirs.drop_last() =~= a.input_dirs);
    }
    if found.output {
        assert(b.output_dirs.drop_last() =~= a.output_dirs);
    }
    if found.system {
        assert(b.system_dirs.drop_last() =~= a.system_dirs);
    }
}

/// An agent brings directories and nothing else.
pub proof fn agents_bring_directories_alone(a: AppView, dir: Seq<char>, found: AgentDirsFound)
    ensures
        ({
            let b = with_agent(a, dir, found);
            b == AppView {
                input_dirs: b.input_dirs,
                output_dirs: b.output_dirs,
                system_dirs: b.system_dirs,
                active_input_dir: b.active_input_dir,
                active_output_dir: b.active_output_dir,
                ..a
            }
        }),
        with_agent(
            a,
            dir,
            (AgentDirsFound { input: false, output: false, system: false }),
        ) == a,
{
}

/// The command line gives the directories, the scripts and the limit as they stand there. The
/// first input directory is active, and so is the output directory that is asked for, or the
/// first one where none is; without any directory none is active.
pub proof fn command_line_sets_the_session_up(a: AppView, cli: CliView)
    ensures
        ({
            let b = configured(a, cli);
            &&& b.input_dirs == cli.input_dirs
            &&& b.output_dirs == cli.output_dirs
            &&& b.system_dirs == cli.system_dirs
            &&& b.on_submit_script == cli.on_submit
            &&& b.on_output_script == cli.on_output
            &&& b.history_limit == cli.history_limit
            &&& cli.input_dirs.len() > 0 ==> b.active_input_dir == Some(cli.input_dirs[0])
            &&& cli.input_dirs.len() == 0 ==> b.active_input_dir is None
            &&& cli.active_output is Some ==> b.active_output_dir == cli.active_output
            &&& cli.active_output is None && cli.output_dirs.len() > 0 ==> b.active_output_dir
                == Some(cli.output_dirs[0])
            &&& cli.active_output is None && cli.output_dirs.len() == 0
                ==> b.active_output_dir is None
            &&& b == AppView {
                input_dirs: b.input_dirs,
                output_dirs: b.output_dirs,
                system_dirs: b.system_dirs,
                active_input_dir: b.active_input_dir,
                active_output_dir: b.active_output_dir,
                on_submit_script: b.on_submit_script,
                on_output_script: b.on_output_script,
                history_limit: b.history_limit,
                ..a
            }
        }),
{
}

/// The timeline is that of every directory, of whichever of the three kinds, and complete files
/// are looked for in each output directory; nothing else is watched.
pub proof fn every_directory_is_watched(d: WatchedView, dir: Seq<char>)
    ensures
        lists(display_watcher(d).watchers, dir) <==> {
            ||| exists|i: int|
                0 <= i < d.input_dirs.len() && same_path(#[trigger] d.input_dirs[i], dir)
            ||| exists|i: int|
                0 <= i < d.output_dirs.len() && same_path(#[trigger] d.output_dirs[i], dir)
            ||| exists|i: int|
                0 <= i < d.system_dirs.len() && same_path(#[trigger] d.system_dirs[i], dir)
        },
        lists(output_watcher(d).watchers, dir) <==> exists|i: int|
            0 <= i < d.output_dirs.len() && same_path(#[trigger] d.output_dirs[i], dir),
        display_watcher(d).file_entries.len() == 0,
        output_watcher(d).file_entries.len() == 0,
{
    let none = watching_nothing();
    let input = watching_all(none, d.input_dirs);
    let output = watching_all(input, d.output_dirs);
    assert(!lists(none.watchers, dir));
    all_given_directories_are_watched(none, d.input_dirs, dir);
    all_given_directories_are_watched(input, d.output_dirs, dir);
    all_given_directories_are_watched(output, d.system_dirs, dir);
    all_given_directories_are_watched(none, d.output_dirs, dir);
}

/// The latest output is that of the last message that is output: all behind it are of another
/// role, and there is none only where no message is output.
pub proof fn latest_output_is_the_last(ms: Seq<MessageView>)
    ensures
        match latest_output(ms) {
            Some(file) => exists|i: int|
                {
                    &&& 0 <= i < ms.len()
                    &&& (#[trigger] ms[i]).role == MessageRole::Output
                    &&& ms[i].filepath == file
                    &&& forall|j: int|
                        i < j < ms.len() ==> (#[trigger] ms[j]).role != MessageRole::Output
                },
            None => forall|j: int|
                0 <= j < ms.len() ==> (#[trigger] ms[j]).role != MessageRole::Output,
        },
    decreases ms.len(),
{
    if ms.len() > 0 {
        let n = ms.len() - 1;
        assert(ms[n] == ms.last());
        if ms.last().role != MessageRole::Output {
            let head = ms.drop_last();
            latest_output_is_the_last(head);
            if latest_output(head) is Some {
                let file = latest_output(head)->0;
                let i = choose|i: int|
                    {
                        &&& 0 <= i < head.len()
                        &&& (#[trigger] head[i]).role == MessageRole::Output
                        &&& head[i].filepath == file
                        &&& forall|j: int|
                            i < j < head.len() ==> (#[trigger] head[j]).role
                                != MessageRole::Output
                    };
                assert(ms[i] == head[i]);
                assert forall|j: int| i < j < ms.len() implies (#[trigger] ms[j]).role
                    != MessageRole::Output by {
                    if j < n {
                        assert(ms[j] == head[j]);
                    }
                }
            } else {
                assert forall|j: int| 0 <= j < ms.len() implies (#[trigger] ms[j]).role
                    != MessageRole::Output by {
                    if j < n {
                        assert(ms[j] == head[j]);
                    }
                }
            }
        }
    }
}

/// The message is input, and a file holds it.
spec fn is_stored_input(m: MessageView) -> bool {
    m.role == MessageRole::Input && !same_path(m.filepath, "user-input"@)
}

/// The latest input is that of the last message that is input and not just typed in: all behind
/// it are of another role or have no file, and there is none only where that holds of all.
pub proof fn latest_input_is_the_last_with_a_file(ms: Seq<MessageView>)
    ensures
        match latest_input(ms) {
            Some(file) => exists|i: int|
                {
                    &&& 0 <= i < ms.len()
                    &&& (#[trigger] ms[i]).role == MessageRole::Input
                    &&& !same_path(ms[i].filepath, "user-input"@)
                    &&& ms[i].filepath == file
                    &&& forall|j: int|
                        i < j < ms.len() ==> (#[trigger] ms[j]).role != MessageRole::Input
                            || same_path(ms[j].filepath, "user-input"@)
                },
            None => forall|j: int|
                0 <= j < ms.len() ==> (#[trigger] ms[j]).role != MessageRole::Input || same_path(
                    ms[j].filepath,
                    "user-input"@,
                ),
        },
    decreases ms.len(),
{
    if ms.len() > 0 {
        let n = ms.len() - 1;
        assert(ms[n] == ms.last());
        if !is_stored_input(ms.last()) {
            let head = ms.drop_last();
            latest_input_is_the_last_with_a_file(head);
            assert(latest_input(ms) == latest_input(head));
            assert forall|j: int| 0 <= j < n implies #[trigger] ms[j] == head[j] by {
            }
            if latest_input(head) is Some {
                let file = latest_input(head)->0;
                let i = choose|i: int|
                    {
                        &&& 0 <= i < head.len()
                        &&& (#[trigger] head[i]).role == MessageRole::Input
                        &&& !same_path(head[i].filepath, "user-input"@)
                        &&& head[i].filepath == file
                        &&& forall|j: int|
                            i < j < head.len() ==> (#[trigger] head[j]).role != MessageRole::Input
                                || same_path(head[j].filepath, "user-input"@)
                    };
                assert(ms[i] == head[i]);
                assert forall|j: int| i < j < ms.len() implies (#[trigger] ms[j]).role
                    != MessageRole::Input || same_path(ms[j].filepath, "user-input"@) by {
                    if j < n {
                        assert(ms[j] == head[j]);
                    }
                }
            } else {
                assert forall|j: int| 0 <= j < ms.len() implies (#[trigger] ms[j]).role
                    != MessageRole::Input || same_path(ms[j].filepath, "user-input"@) by {
                    if j < n {
                        assert(ms[j] == head[j]);
                    }
                }
            }
        } else {
            assert(latest_input(ms) == Some(ms[n].filepath));
        }
    }
}

/// Whenever a script is set for it, a submitted message runs that script, whether the message was
/// written to a file or not; the script is told the message and the file, and the latest output
/// of the timeline, but no response.
pub proof fn submitted_messages_run_their_script(
    a: AppView,
    d: WatchedView,
    script: Seq<char>,
    message: Seq<char>,
    input_file: Option<Seq<char>>,
    at: Moment,
)
    requires
        a.on_submit_script == Some(script),
    ensures
        ({
            let r = run_after(a, d, ActionView::Submit { message, input_file }, at);
            &&& r is Some
            &&& r->0.script == script
            &&& r->0.context.user_message == Some(message)
            &&& r->0.context.latest_input_file == input_file
            &&& r->0.context.latest_output_file == latest_output(a.messages)
            &&& r->0.context.agent_response is None
        }),
{
}

/// Without a script for submitted messages none runs, whatever came of a key, and the script for
/// output does not stand in for it.
pub proof fn no_script_no_run(
    a: AppView,
    d: WatchedView,
    action: ActionView,
    file: Seq<char>,
    text: Option<Seq<char>>,
    at: Moment,
)
    ensures
        a.on_submit_script is None ==> run_after(a, d, action, at) is None,
        a.on_output_script is None ==> run_for_output(a, d, file, text, at) is None,
        run_after(a, d, action, at) == run_after(
            (AppView { on_output_script: None, ..a }),
            d,
            action,
            at,
        ),
        run_for_output(a, d, file, text, at) == run_for_output(
            (AppView { on_submit_script: None, ..a }),
            d,
            file,
            text,
            at,
        ),
{
}

/// Whenever a script is set for it, a complete output file runs that script, whether the file
/// could be read or not; the script is told the file and what it says, and the latest input of
/// the timeline, but no message.
pub proof fn complete_files_run_their_script(
    a: AppView,
    d: WatchedView,
    script: Seq<char>,
    file: Seq<char>,
    text: Option<Seq<char>>,
    at: Moment,
)
    requires
        a.on_output_script == Some(script),
    ensures
        ({
            let r = run_for_output(a, d, file, text, at);
            &&& r is Some
            &&& r->0.script == script
            &&& r->0.context.latest_output_file == Some(file)
            &&& r->0.context.agent_response == text
            &&& r->0.context.latest_input_file == latest_input(a.messages)
            &&& r->0.context.user_message is None
        }),
{
}

/// Every scriptlet is told the watched directories of each kind, the active ones, and the time,
/// whatever it runs for; at the start there is nothing else to tell.
pub proof fn every_scriptlet_is_told_the_directories(
    a: AppView,
    d: WatchedView,
    message: Seq<char>,
    file: Seq<char>,
    text: Option<Seq<char>>,
    at: Moment,
    c: ContextView,
)
    requires
        c == startup_context(a, d, at) || c == submit_context(a, d, message, text, at) || c
            == output_context(a, d, file, text, at),
    ensures
        c.input_dirs == d.input_dirs,
        c.output_dirs == d.output_dirs,
        c.system_dirs == d.system_dirs,
        c.active_input_dir == a.active_input_dir,
        c.active_output_dir == a.active_output_dir,
        c.timestamp == at,
        startup_context(a, d, at).latest_input_file is None,
        startup_context(a, d, at).latest_output_file is None,
        startup_context(a, d, at).user_message is None,
        startup_context(a, d, at).agent_response is None,
{
}

/// A message that Enter submits reaches its scriptlet as it was typed, with the file it was
/// written to, and stands in the timeline when the scriptlet runs.
pub proof fn typed_messages_reach_the_scriptlet(
    a: AppView,
    d: WatchedView,
    now: Moment,
    written: Option<Seq<char>>,
    stored_at: Moment,
    at: Moment,
    script: Seq<char>,
)
    requires
        !blank(a.input_text),
        a.on_submit_script == Some(script),
        a.history_limit >= 0,
    ensures
        ({
            let p = pending(a, now)->0;
            let b = submitted(submitting(a), p, written, stored_at);
            let r = run_after(b, d, submit_action(p, written), at);
            &&& pending(a, now) is Some
            &&& r is Some
            &&& r->0.script == script
            &&& r->0.context.user_message == Some(a.input_text)
            &&& r->0.context.latest_input_file == written
            &&& b.messages.len() > 0
            &&& b.messages.last().content == a.input_text
            &&& b.messages.last().role == MessageRole::Input
        }),
{
    let p = pending(a, now)->0;
    stored_messages_join_the_timeline(submitting(a), p, written, stored_at);
}

/// Every directory of the interface is watched for the timeline, of whichever kind and wherever it
/// stands in its list, and every output directory for complete files.
pub proof fn the_directories_of_the_session_are_watched(a: AppView, i: int)
    ensures
        0 <= i < a.input_dirs.len() ==> lists(
            display_watcher(watched_of(a)).watchers,
            a.input_dirs[i],
        ),
        0 <= i < a.output_dirs.len() ==> lists(
            display_watcher(watched_of(a)).watchers,
            a.output_dirs[i],
        ) && lists(output_watcher(watched_of(a)).watchers, a.output_dirs[i]),
        0 <= i < a.system_dirs.len() ==> lists(
            display_watcher(watched_of(a)).watchers,
            a.system_dirs[i],
        ),
{
    let d = watched_of(a);
    if 0 <= i < a.input_dirs.len() {
        every_directory_is_watched(d, a.input_dirs[i]);
        assert(same_path(d.input_dirs[i], a.input_dirs[i]));
    }
    if 0 <= i < a.output_dirs.len() {
        every_directory_is_watched(d, a.output_dirs[i]);
        assert(same_path(d.output_dirs[i], a.output_dirs[i]));
    }
    if 0 <= i < a.system_dirs.len() {
        every_directory_is_watched(d, a.system_dirs[i]);
        assert(same_path(d.system_dirs[i], a.system_dirs[i]));
    }
}

/// The directories of an agent that were found are watched, each of them, and its output for
/// complete files, whichever of the others were found.
pub proof fn agents_are_watched(a: AppView, dir: Seq<char>, found: AgentDirsFound)
    ensures
        ({
            let d = watched_of(with_agent(a, dir, found));
            let shown = display_watcher(d).watchers;
            &&& found.input ==> lists(shown, path_join(dir, "input"@))
            &&& found.output ==> lists(shown, path_join(dir, "output"@)) && lists(
                output_watcher(d).watchers,
                path_join(dir, "output"@),
            )
            &&& found.system ==> lists(shown, path_join(dir, "system"@))
        }),
{
    let b = with_agent(a, dir, found);
    agent_directories_are_taken_one_by_one(a, dir, found);
    the_directories_of_the_session_are_watched(b, b.input_dirs.len() - 1);
    the_directories_of_the_session_are_watched(b, b.output_dirs.len() - 1);
    the_directories_of_the_session_are_watched(b, b.system_dirs.len() - 1);
}

} // verus!
