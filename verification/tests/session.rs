use psi_cli::cli::{Cli, Commands};
use psi_cli::clock::Timestamp;
use psi_cli::events::InputAction;
use psi_cli::models::{ChatMessage, FileEntry, MessageRole, ScriptletContext};
use psi_cli::scriptlet::{ScriptError, ScriptletEvent, ScriptletRunner};
use psi_cli::session::{agent_dirs, AgentDirsFound, WatchedDirs};
use psi_cli::state::App;
use psi_cli::timeline::{determine_role, ResolvedDirs, ResolvedEntry};
use psi_cli::watcher::{
    files_completed, files_to_show, is_text_file_path, needs_sniffing, ChangeKind, FoundPath,
    FsWatcher, PathKind, ScanTask,
};

fn strings(items: &[&str]) -> Vec<String> {
    items.iter().map(|s| s.to_string()).collect()
}

fn at(secs: i64) -> Timestamp {
    Timestamp::new(secs, 0, 0).unwrap()
}

fn text_entry(path: &str, secs: i64, content: Option<&str>) -> FileEntry {
    FileEntry::new(path.to_string(), at(secs), true, content.map(|s| s.to_string()), 3, true)
}

fn resolved(entry: FileEntry) -> ResolvedEntry {
    let real_path = entry.path.clone();
    ResolvedEntry { entry, real_path }
}

fn dirs() -> ResolvedDirs {
    ResolvedDirs {
        input_dirs: strings(&["/a/input"]),
        system_dirs: strings(&["/a/system", "/a/input/sys"]),
    }
}

#[test]
fn roles_follow_the_directory() {
    assert_eq!(determine_role("/a/input/x", &dirs()), MessageRole::Input);
    assert_eq!(determine_role("/a/input/sys/x", &dirs()), MessageRole::Input);
    assert_eq!(determine_role("/a/system/d/x", &dirs()), MessageRole::System);
    assert_eq!(determine_role("/a/output/x", &dirs()), MessageRole::Output);
    assert_eq!(determine_role("/a/input2/x", &dirs()), MessageRole::Output);
}

#[test]
fn the_timeline_shows_files_by_creation() {
    let mut app = App::new();
    app.scroll_offset = 7;
    let entries = vec![
        resolved(text_entry("/a/output/late.txt", 30, Some("late"))),
        resolved(text_entry("/a/input/early.txt", 10, Some("early\nline"))),
        resolved(FileEntry::new("/a/system/pic.png".to_string(), at(20), false, None, 1536, true)),
        resolved(text_entry("/a/output/same.txt", 10, None)),
    ];
    app.update_messages(entries, &dirs());
    let shown: Vec<(&str, &str, MessageRole)> = app
        .messages
        .iter()
        .map(|m| (m.filename.as_str(), m.content.as_str(), m.role))
        .collect();
    assert_eq!(
        shown,
        vec![
            ("early.txt", "early\nline", MessageRole::Input),
            ("same.txt", "", MessageRole::Output),
            ("pic.png", "[PNG] pic.png (1.50 KB)", MessageRole::System),
            ("late.txt", "late", MessageRole::Output),
        ]
    );
    assert_eq!(app.messages[0].filepath, "/a/input/early.txt");
    assert_eq!(app.message_line_offsets, vec![5, 4, 4, 4]);
    assert!(app.scroll_to_bottom);
    assert_eq!(app.scroll_offset, 7);
    app.update_messages(Vec::new(), &dirs());
    assert!(app.messages.is_empty());
}

#[test]
fn the_latest_files_stay_within_the_limit() {
    let mut app = App::new();
    app.history_limit = 2;
    let entries = (0..5)
        .map(|i| resolved(text_entry(&format!("/f{}", i), 100 - i, Some("x"))))
        .collect();
    app.update_messages(entries, &dirs());
    let shown: Vec<&str> = app.messages.iter().map(|m| m.filepath.as_str()).collect();
    assert_eq!(shown, vec!["/f1", "/f0"]);
}

#[test]
fn the_real_path_tells_the_role() {
    let mut app = App::new();
    let entry = ResolvedEntry {
        entry: text_entry("/link/x.txt", 1, Some("x")),
        real_path: "/a/input/x.txt".to_string(),
    };
    app.update_messages(vec![entry], &dirs());
    assert_eq!(app.messages[0].role, MessageRole::Input);
    assert_eq!(app.messages[0].filepath, "/link/x.txt");
}

#[test]
fn extensions_are_shown_in_capitals() {
    let mut app = App::new();
    for (path, size, expected) in [
        ("/x/a.straße", 0u64, "[STRASSE] a.straße (0.00 KB)"),
        ("/x/noext", 1024, "[] noext (1.00 KB)"),
        ("/x/a.bin", 10, "[BIN] a.bin (0.01 KB)"),
    ] {
        let entry = FileEntry::new(path.to_string(), at(0), false, None, size, true);
        app.update_messages(vec![resolved(entry)], &dirs());
        assert_eq!(app.messages[0].content, expected);
    }
}

#[test]
fn extensions_tell_text_files() {
    for name in [
        "a.txt", "a.md", "a.json", "a.yaml", "a.yml", "a.toml", "a.xml", "a.csv", "a.sh", "a.bash",
        "a.zsh", "a.py", "a.rs", "a.js", "a.ts", "a.css", "a.html", "a.log", "a.cfg", "a.conf",
        "a.ini", "a.env", "a.TXT", "a.Md", "x.png.txt",
    ] {
        assert!(!needs_sniffing(name));
        assert!(is_text_file_path(name, &None), "{}", name);
    }
    for name in ["a.png", "a.txt2", "a.t", "a.", "a.txt.gz"] {
        assert!(!needs_sniffing(name));
        assert!(!is_text_file_path(name, &Some(vec![b'a'])), "{}", name);
    }
}

#[test]
fn first_bytes_tell_files_without_an_extension() {
    for name in ["Makefile", ".bashrc", "/a.d/README"] {
        assert!(needs_sniffing(name));
        assert!(is_text_file_path(name, &Some(b"all:".to_vec())));
        assert!(is_text_file_path(name, &Some(Vec::new())));
        assert!(!is_text_file_path(name, &Some(vec![b'a', 0, b'b'])));
        assert!(!is_text_file_path(name, &None));
    }
}

#[test]
fn only_a_text_has_content() {
    let e = FileEntry::new("/a.Bin".to_string(), at(5), false, Some("x".to_string()), 9, true);
    assert_eq!(e.content, None);
    assert_eq!(e.metadata.extension, "Bin");
    assert_eq!((e.metadata.size, e.metadata.is_file), (9, true));
    let t = text_entry("/a", 5, Some("x"));
    assert_eq!(t.content.as_deref(), Some("x"));
    assert_eq!(t.metadata.extension, "");
}

#[test]
fn directories_are_watched_once() {
    let mut w = FsWatcher::new();
    for dir in ["/b", "/a", "/b/", "/a/./", "/c"] {
        w.add_directory(dir.to_string());
    }
    assert_eq!(w.directories(), strings(&["/b", "/a", "/c"]));
}

#[test]
fn a_file_is_recorded_once() {
    let mut w = FsWatcher::new();
    w.record(text_entry("/b", 20, Some("b")));
    w.record(text_entry("/a", 10, Some("a")));
    w.record(text_entry("/b", 5, Some("b again")));
    let shown: Vec<(String, Option<String>)> =
        w.snapshot().into_iter().map(|e| (e.path, e.content)).collect();
    assert_eq!(
        shown,
        vec![
            ("/b".to_string(), Some("b again".to_string())),
            ("/a".to_string(), Some("a".to_string())),
        ]
    );
}

fn found(path: &str, kind: PathKind) -> FoundPath {
    FoundPath { path: path.to_string(), kind }
}

#[test]
fn a_scan_goes_through_everything_depth_first() {
    let mut w = FsWatcher::new();
    w.add_directory("/a".to_string());
    w.add_directory("/b".to_string());
    let mut scan = w.scan_all();
    let mut seen = Vec::new();
    while let Some(task) = scan.next_task() {
        match &task {
            ScanTask::List(dir) if dir == "/a" => scan.listed(vec![
                found("/a/1", PathKind::File),
                found("/a/sub", PathKind::Directory),
                found("/a/pipe", PathKind::Other),
                found("/a/2", PathKind::File),
            ]),
            ScanTask::List(dir) if dir == "/a/sub" => {
                scan.listed(vec![found("/a/sub/3", PathKind::File)])
            }
            _ => {}
        }
        seen.push(task);
    }
    let list = |s: &str| ScanTask::List(s.to_string());
    let process = |s: &str| ScanTask::Process(s.to_string());
    assert_eq!(
        seen,
        vec![
            list("/a"),
            process("/a/1"),
            list("/a/sub"),
            process("/a/sub/3"),
            process("/a/2"),
            list("/b"),
        ]
    );
    assert_eq!(scan.next_task(), None);
}

#[test]
fn changes_are_sorted_out() {
    let paths = vec![
        found("/f", PathKind::File),
        found("/d", PathKind::Directory),
        found("/g", PathKind::File),
    ];
    let files = strings(&["/f", "/g"]);
    let none: Vec<String> = Vec::new();
    assert_eq!(files_to_show(ChangeKind::Created, &paths), files);
    assert_eq!(files_to_show(ChangeKind::Modified, &paths), files);
    assert_eq!(files_to_show(ChangeKind::ClosedAfterWriting, &paths), none);
    assert_eq!(files_to_show(ChangeKind::Other, &paths), none);
    assert_eq!(files_completed(ChangeKind::ClosedAfterWriting, &paths), files);
    assert_eq!(files_completed(ChangeKind::Created, &paths), none);
    assert_eq!(files_completed(ChangeKind::Modified, &paths), none);
    assert_eq!(files_completed(ChangeKind::Other, &paths), none);
}

fn cli() -> Cli {
    Cli {
        input_dirs: strings(&["/i1", "/i2"]),
        output_dirs: strings(&["/o1", "/o2"]),
        system_dirs: strings(&["/s"]),
        on_startup: None,
        on_submit: Some("/submit.sh".to_string()),
        on_output: Some("/output.sh".to_string()),
        active_output: None,
        history_limit: 5,
        command: Some(Commands::Agent { agent_dir: "agents/coder".to_string() }),
    }
}

#[test]
fn the_command_line_sets_the_session_up() {
    let mut app = App::new();
    app.configure(&cli());
    assert_eq!(app.input_dirs, strings(&["/i1", "/i2"]));
    assert_eq!(app.output_dirs, strings(&["/o1", "/o2"]));
    assert_eq!(app.system_dirs, strings(&["/s"]));
    assert_eq!(app.active_input_dir.as_deref(), Some("/i1"));
    assert_eq!(app.active_output_dir.as_deref(), Some("/o1"));
    assert_eq!(app.on_submit_script.as_deref(), Some("/submit.sh"));
    assert_eq!(app.on_output_script.as_deref(), Some("/output.sh"));
    assert_eq!(app.history_limit, 5);
    let mut other = cli();
    other.active_output = Some("/o3".to_string());
    other.input_dirs = Vec::new();
    app.configure(&other);
    assert_eq!(app.active_input_dir, None);
    assert_eq!(app.active_output_dir.as_deref(), Some("/o3"));
}

#[test]
fn an_agent_brings_its_directories() {
    let dirs = agent_dirs("agents/coder");
    assert_eq!(dirs.input, "agents/coder/input");
    assert_eq!(dirs.output, "agents/coder/output");
    assert_eq!(dirs.system, "agents/coder/system");
    let mut app = App::new();
    app.configure(&cli());
    app.add_agent("agents/coder", AgentDirsFound { input: true, output: false, system: true });
    assert_eq!(app.input_dirs, strings(&["/i1", "/i2", "agents/coder/input"]));
    assert_eq!(app.active_input_dir.as_deref(), Some("agents/coder/input"));
    assert_eq!(app.output_dirs, strings(&["/o1", "/o2"]));
    assert_eq!(app.active_output_dir.as_deref(), Some("/o1"));
    assert_eq!(app.system_dirs, strings(&["/s", "agents/coder/system"]));
    app.add_agent("x", AgentDirsFound { input: false, output: true, system: false });
    assert_eq!(app.active_output_dir.as_deref(), Some("x/output"));
    assert_eq!(app.output_dirs, strings(&["/o1", "/o2", "x/output"]));
}

#[test]
fn the_watchers_cover_the_directories() {
    let watched = WatchedDirs {
        input_dirs: strings(&["/i", "/both"]),
        output_dirs: strings(&["/both", "/o"]),
        system_dirs: strings(&["/s"]),
    };
    assert_eq!(watched.display_watcher().directories(), strings(&["/i", "/both", "/o", "/s"]));
    assert_eq!(watched.output_watcher().directories(), strings(&["/both", "/o"]));
}

fn message(role: MessageRole, path: &str) -> ChatMessage {
    ChatMessage {
        role,
        content: String::new(),
        filepath: path.to_string(),
        created_at: at(0),
        filename: String::new(),
    }
}

fn session() -> (App, WatchedDirs) {
    let mut app = App::new();
    app.configure(&cli());
    let watched = app.watched_dirs();
    app.input_dirs.push("/later".to_string());
    app.active_input_dir = Some("/later".to_string());
    app.messages = vec![
        message(MessageRole::Input, "/i1/first"),
        message(MessageRole::Output, "/o1/first"),
        message(MessageRole::Output, "/o1/second"),
        message(MessageRole::Input, "/i1/second"),
        message(MessageRole::Input, "user-input"),
        message(MessageRole::System, "/s/x"),
    ];
    (app, watched)
}

fn vars(c: &ScriptletContext) -> Vec<(String, String)> {
    ScriptletRunner::env_vars(c, Timestamp::new(0, 0, 3600).unwrap())
        .into_iter()
        .map(|v| (v.name, v.value))
        .collect()
}

fn pairs(items: &[(&str, &str)]) -> Vec<(String, String)> {
    items.iter().map(|(a, b)| (a.to_string(), b.to_string())).collect()
}

#[test]
fn a_startup_scriptlet_knows_the_directories() {
    let (app, watched) = session();
    let c = app.startup_context(&watched, at(1));
    assert_eq!(c.timestamp.as_millis(), 1000);
    assert_eq!(
        vars(&c),
        pairs(&[
            ("TIMESTAMP", "1970-01-01T01:00:00+01:00"),
            ("INPUT_DIRS", "/i1:/i2"),
            ("OUTPUT_DIRS", "/o1:/o2"),
            ("SYSTEM_DIRS", "/s"),
            ("ACTIVE_INPUT_DIR", "/later"),
            ("ACTIVE_OUTPUT_DIR", "/o1"),
        ])
    );
}

#[test]
fn a_submit_scriptlet_knows_the_message() {
    let (app, watched) = session();
    let c = app.submit_context(
        &watched,
        "hi".to_string(),
        Some("/later/input-1.txt".to_string()),
        at(1),
    );
    assert_eq!(
        vars(&c),
        pairs(&[
            ("TIMESTAMP", "1970-01-01T01:00:00+01:00"),
            ("INPUT_DIRS", "/i1:/i2"),
            ("OUTPUT_DIRS", "/o1:/o2"),
            ("SYSTEM_DIRS", "/s"),
            ("LATEST_INPUT_FILE", "/later/input-1.txt"),
            ("LATEST_OUTPUT_FILE", "/o1/second"),
            ("ACTIVE_INPUT_DIR", "/later"),
            ("ACTIVE_OUTPUT_DIR", "/o1"),
            ("USER_MESSAGE", "hi"),
        ])
    );
}

#[test]
fn an_output_scriptlet_knows_the_file() {
    let (app, watched) = session();
    let c = app.output_context(&watched, "/o1/third".to_string(), Some("text".to_string()), at(1));
    assert_eq!(
        vars(&c),
        pairs(&[
            ("TIMESTAMP", "1970-01-01T01:00:00+01:00"),
            ("INPUT_DIRS", "/i1:/i2"),
            ("OUTPUT_DIRS", "/o1:/o2"),
            ("SYSTEM_DIRS", "/s"),
            ("LATEST_INPUT_FILE", "/i1/second"),
            ("LATEST_OUTPUT_FILE", "/o1/third"),
            ("ACTIVE_INPUT_DIR", "/later"),
            ("ACTIVE_OUTPUT_DIR", "/o1"),
            ("AGENT_RESPONSE", "text"),
        ])
    );
    let mut quiet = App::new();
    quiet.messages = vec![message(MessageRole::Input, "user-input")];
    let c = quiet.output_context(&watched, "/o".to_string(), None, at(1));
    assert_eq!(c.latest_input_file, None);
    assert_eq!(c.agent_response, None);
    let c = quiet.submit_context(&watched, "m".to_string(), None, at(1));
    assert_eq!(c.latest_output_file, None);
    assert_eq!(c.latest_input_file, None);
}

#[test]
fn a_script_is_run_by_bash() {
    let (app, watched) = session();
    let c = app.startup_context(&watched, at(1));
    let command = ScriptletRunner::prepare("/x.sh", true, &c, at(0)).unwrap();
    assert_eq!(command.program, "bash");
    assert_eq!(command.script, "/x.sh");
    assert_eq!(command.env.len(), 6);
    let error = ScriptletRunner::prepare("/x \"y\".sh", false, &c, at(0)).unwrap_err();
    assert_eq!(error, ScriptError::NotFound { path: "/x \"y\".sh".to_string() });
    assert_eq!(error.message(), "Script not found: \"/x \\\"y\\\".sh\"");
}

#[test]
fn scriptlets_are_announced_and_reported() {
    assert_eq!(
        ScriptletRunner::announcement(ScriptletEvent::Startup, "/a.sh"),
        "[scriptlet] Running on-startup script: \"/a.sh\""
    );
    assert_eq!(
        ScriptletRunner::announcement(ScriptletEvent::Submit, "/a.sh"),
        "[scriptlet] Running on-submit script: \"/a.sh\""
    );
    assert_eq!(
        ScriptletRunner::announcement(ScriptletEvent::Output, "/a.sh"),
        "[scriptlet] Running on-output script: \"/a.sh\""
    );
    let (out, err) = ScriptletRunner::output_text("é\n".as_bytes(), &[b'a', 0xff, b'b']);
    assert_eq!((out.as_str(), err.as_str()), ("é\n", "a\u{fffd}b"));
    let report = ScriptletRunner::report(&out, &err);
    assert_eq!(report.stdout.as_deref(), Some("[scriptlet:stdout] é\n"));
    assert_eq!(report.stderr.as_deref(), Some("[scriptlet:stderr] a\u{fffd}b"));
    let silent = ScriptletRunner::report("", "");
    assert_eq!((silent.stdout, silent.stderr), (None, None));
}

#[test]
fn scriptlets_run_where_they_are_set() {
    let (mut app, watched) = session();
    let submit = InputAction::Submit { message: "hi".to_string(), input_file: None };
    let run = app.scriptlet_after(submit.clone(), &watched, at(1)).unwrap();
    assert_eq!(run.script, "/submit.sh");
    assert_eq!(run.context.user_message.as_deref(), Some("hi"));
    let saved = InputAction::Saved { path: "/x".to_string() };
    assert!(app.scriptlet_after(saved, &watched, at(1)).is_none());
    assert!(app.scriptlet_after(InputAction::Nothing, &watched, at(1)).is_none());
    let run = app.scriptlet_for_output(&watched, "/o1/x".to_string(), None, at(1)).unwrap();
    assert_eq!(run.script, "/output.sh");
    assert_eq!(run.context.latest_output_file.as_deref(), Some("/o1/x"));
    app.on_submit_script = None;
    app.on_output_script = None;
    assert!(app.scriptlet_after(submit, &watched, at(1)).is_none());
    assert!(app.scriptlet_for_output(&watched, "/o1/x".to_string(), None, at(1)).is_none());
}
