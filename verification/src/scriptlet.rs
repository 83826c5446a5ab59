//! Scriptlets: what they are told, and what is told of them.
use vstd::prelude::*;
use vstd::utf8::{decode_utf8, valid_utf8};

use crate::clock::{rfc3339, Moment, Timestamp};
use crate::models::{ContextView, ScriptletContext};
use crate::paths::{quote, quoted};
use crate::text::{chain, chain3, join, join_texts, opt_text};

verus! {

/// The events that run a scriptlet.
#[derive(Debug, Clone, Copy, PartialEq, Eq, Structural)]
pub enum ScriptletEvent {
    Startup,
    Submit,
    Output,
}

/// The name of an event.
pub open spec fn event_name(event: ScriptletEvent) -> Seq<char> {
    match event {
        ScriptletEvent::Startup => "on-startup"@,
        ScriptletEvent::Submit => "on-submit"@,
        ScriptletEvent::Output => "on-output"@,
    }
}

/// A variable of the environment of a scriptlet.
#[derive(Debug, Clone, PartialEq)]
pub struct EnvVar {
    pub name: String,
    pub value: String,
}

#[verifier::ext_equal]
pub struct VarView {
    pub name: Seq<char>,
    pub value: Seq<char>,
}

impl View for EnvVar {
    type V = VarView;

    open spec fn view(&self) -> VarView {
        VarView { name: self.name@, value: self.value@ }
    }
}

/// The views of some variables.
pub open spec fn var_views(v: Seq<EnvVar>) -> Seq<VarView> {
    v.map_values(|e: EnvVar| e@)
}

/// A variable that is set.
pub open spec fn var(name: Seq<char>, value: Seq<char>) -> Seq<VarView> {
    seq![VarView { name, value }]
}

/// A variable that is set only where there is something to say.
pub open spec fn opt_var(name: Seq<char>, value: Option<Seq<char>>) -> Seq<VarView> {
    match value {
        Some(text) => var(name, text),
        None => Seq::empty(),
    }
}

/// The environment of a scriptlet that runs at `now`: the time, the directories, and what is
/// known of the rest.
pub open spec fn environment(c: ContextView, now: Moment) -> Seq<VarView> {
    var("TIMESTAMP"@, rfc3339(now.secs as i64, now.nanos as u32, now.offset as i32))
        + var("INPUT_DIRS"@, join(c.input_dirs, ":"@))
        + var("OUTPUT_DIRS"@, join(c.output_dirs, ":"@))
        + var("SYSTEM_DIRS"@, join(c.system_dirs, ":"@))
        + opt_var("LATEST_INPUT_FILE"@, c.latest_input_file)
        + opt_var("LATEST_OUTPUT_FILE"@, c.latest_output_file)
        + opt_var("ACTIVE_INPUT_DIR"@, c.active_input_dir)
        + opt_var("ACTIVE_OUTPUT_DIR"@, c.active_output_dir)
        + opt_var("USER_MESSAGE"@, c.user_message)
        + opt_var("AGENT_RESPONSE"@, c.agent_response)
}

/// What to run.
#[derive(Debug, Clone, PartialEq)]
pub struct ScriptCommand {
    pub program: String,
    pub script: String,
    pub env: Vec<EnvVar>,
}

/// Why a scriptlet cannot be run.
#[derive(Debug, Clone, PartialEq)]
pub enum ScriptError {
    /// There is no such script.
    NotFound { path: String },
}

impl ScriptError {
    /// The error in words.
    pub fn message(&self) -> (r: String)
        ensures
            r@ == (match self {
                ScriptError::NotFound { path } => "Script not found: "@ + quoted(path@),
            }),
    {
        match self {
            ScriptError::NotFound { path } => chain(
                "Script not found: ",
                quote(path.as_str()).as_str(),
            ),
        }
    }
}

/// What a scriptlet wrote, as far as there is anything to show.
#[derive(Debug, Clone, PartialEq)]
pub struct ScriptReport {
    pub stdout: Option<String>,
    pub stderr: Option<String>,
}

/// A line for what was written, unless nothing was.
pub open spec fn reported(label: Seq<char>, text: Seq<char>) -> Option<Seq<char>> {
    if text.len() == 0 {
        None
    } else {
        Some(label + text)
    }
}

/// The line for what was written to the standard output.
pub open spec fn stdout_line(text: Seq<char>) -> Option<Seq<char>> {
    reported("[scriptlet:stdout] "@, text)
}

/// The line for what was written to the standard error.
pub open spec fn stderr_line(text: Seq<char>) -> Option<Seq<char>> {
    reported("[scriptlet:stderr] "@, text)
}

/// The line that says that a scriptlet runs.
pub open spec fn announced(event: ScriptletEvent, script: Seq<char>) -> Seq<char> {
    "[scriptlet] Running "@ + event_name(event) + " script: "@ + quoted(script)
}

/// The command runs the script in a shell, with all that the context tells.
pub open spec fn runs_script(
    c: ScriptCommand,
    script: Seq<char>,
    context: ContextView,
    now: Moment,
) -> bool {
    &&& c.program@ == "bash"@
    &&& c.script@ == script
    &&& var_views(c.env@) == environment(context, now)
}

/// Bytes as text, with a replacement character for what is no UTF-8.
pub uninterp spec fn lossy_text(bytes: Seq<u8>) -> Seq<char>;

/// `String::from_utf8_lossy` reads bytes as UTF-8: what is valid is decoded as it stands, and
/// what is not is replaced. The result depends on the bytes alone.
#[verifier::external_body]
fn read_lossy(bytes: &[u8]) -> (r: String)
    ensures
        r@ == lossy_text(bytes@),
        valid_utf8(bytes@) ==> r@ == decode_utf8(bytes@),
{
    String::from_utf8_lossy(bytes).to_string()
}

/// Runs scriptlets.
#[derive(Debug, Clone, Copy)]
pub struct ScriptletRunner;

fn set_var(env: &mut Vec<EnvVar>, name: &str, value: &str)
    ensures
        var_views(final(env)@) == var_views(old(env)@) + var(name@, value@),
{
    let v = EnvVar { name: name.to_owned(), value: value.to_owned() };
    assert(var_views(env@.push(v)) =~= var_views(env@) + var(name@, value@));
    env.push(v);
}

fn set_opt_var(env: &mut Vec<EnvVar>, name: &str, value: &Option<String>)
    ensures
        var_views(final(env)@) == var_views(old(env)@) + opt_var(name@, opt_text(*value)),
{
    match value {
        Some(text) => set_var(env, name, text.as_str()),
        None => {
            assert(var_views(env@) =~= var_views(env@) + Seq::<VarView>::empty());
        },
    }
}

impl ScriptletRunner {
    /// The environment of a scriptlet that runs now.
    pub fn env_vars(context: &ScriptletContext, now: Timestamp) -> (env: Vec<EnvVar>)
        ensures
            var_views(env@) == environment(context@, now@),
    {
        let mut env: Vec<EnvVar> = Vec::new();
        set_var(&mut env, "TIMESTAMP", now.rfc3339_text().as_str());
        set_var(&mut env, "INPUT_DIRS", join_texts(&context.input_dirs, ":").as_str());
        set_var(&mut env, "OUTPUT_DIRS", join_texts(&context.output_dirs, ":").as_str());
        set_var(&mut env, "SYSTEM_DIRS", join_texts(&context.system_dirs, ":").as_str());
        set_opt_var(&mut env, "LATEST_INPUT_FILE", &context.latest_input_file);
        set_opt_var(&mut env, "LATEST_OUTPUT_FILE", &context.latest_output_file);
        set_opt_var(&mut env, "ACTIVE_INPUT_DIR", &context.active_input_dir);
        set_opt_var(&mut env, "ACTIVE_OUTPUT_DIR", &context.active_output_dir);
        set_opt_var(&mut env, "USER_MESSAGE", &context.user_message);
        set_opt_var(&mut env, "AGENT_RESPONSE", &context.agent_response);
        assert(var_views(env@) =~= environment(context@, now@));
        env
    }

    /// What to run for a script, once it is known whether there is one.
    pub fn prepare(
        script_path: &str,
        exists: bool,
        context: &ScriptletContext,
        now: Timestamp,
    ) -> (r: Result<ScriptCommand, ScriptError>)
        ensures
            match r {
                Ok(c) => exists && runs_script(c, script_path@, context@, now@),
                Err(ScriptError::NotFound { path }) => !exists && path@ == script_path@,
            },
    {
        if !exists {
            return Err(ScriptError::NotFound { path: script_path.to_owned() });
        }
        Ok(
            ScriptCommand {
                program: "bash".to_owned(),
                script: script_path.to_owned(),
                env: Self::env_vars(context, now),
            },
        )
    }

    /// The line that says that a scriptlet runs.
    pub fn announcement(event: ScriptletEvent, script_path: &str) -> (r: String)
        ensures
            r@ == announced(event, script_path@),
    {
        let name = match event {
            ScriptletEvent::Startup => "on-startup",
            ScriptletEvent::Submit => "on-submit",
            ScriptletEvent::Output => "on-output",
        };
        let mut line = chain3("[scriptlet] Running ", name, " script: ");
        line.append(quote(script_path).as_str());
        line
    }

    /// What a scriptlet wrote, as text.
    pub fn output_text(stdout: &[u8], stderr: &[u8]) -> (r: (String, String))
        ensures
            r.0@ == lossy_text(stdout@),
            r.1@ == lossy_text(stderr@),
            valid_utf8(stdout@) ==> r.0@ == decode_utf8(stdout@),
            valid_utf8(stderr@) ==> r.1@ == decode_utf8(stderr@),
    {
        (read_lossy(stdout), read_lossy(stderr))
    }

    /// The lines to show for what a scriptlet wrote.
    pub fn report(stdout: &str, stderr: &str) -> (r: ScriptReport)
        ensures
            opt_text(r.stdout) == stdout_line(stdout@),
            opt_text(r.stderr) == stderr_line(stderr@),
    {
        let out = if stdout.is_empty() {
            None
        } else {
            Some(chain("[scriptlet:stdout] ", stdout))
        };
        let err = if stderr.is_empty() {
            None
        } else {
            Some(chain("[scriptlet:stderr] ", stderr))
        };
        ScriptReport { stdout: out, stderr: err }
    }
}

/// The names of the variables, in the order in which they are set.
pub open spec fn var_names() -> Seq<Seq<char>> {
    seq![
        "TIMESTAMP"@,
        "INPUT_DIRS"@,
        "OUTPUT_DIRS"@,
        "SYSTEM_DIRS"@,
        "LATEST_INPUT_FILE"@,
        "LATEST_OUTPUT_FILE"@,
        "ACTIVE_INPUT_DIR"@,
        "ACTIVE_OUTPUT_DIR"@,
        "USER_MESSAGE"@,
        "AGENT_RESPONSE"@,
    ]
}

proof fn lemma_names_differ()
    ensures
        forall|i: int, j: int| 0 <= i < j < 10 ==> var_names()[i] != var_names()[j],
{
    reveal_strlit("TIMESTAMP");
    reveal_strlit("INPUT_DIRS");
    reveal_strlit("OUTPUT_DIRS");
    reveal_strlit("SYSTEM_DIRS");
    reveal_strlit("LATEST_INPUT_FILE");
    reveal_strlit("LATEST_OUTPUT_FILE");
    reveal_strlit("ACTIVE_INPUT_DIR");
    reveal_strlit("ACTIVE_OUTPUT_DIR");
    reveal_strlit("USER_MESSAGE");
    reveal_strlit("AGENT_RESPONSE");
    let names = var_names();
    assert(names[0].len() == 9 && names[1].len() == 10 && names[2].len() == 11);
    assert(names[3].len() == 11 && names[4].len() == 17 && names[5].len() == 18);
    assert(names[6].len() == 16 && names[7].len() == 17 && names[8].len() == 12);
    assert(names[9].len() == 14);
    assert(names[2][0] == 'O' && names[3][0] == 'S');
    assert(names[4][0] == 'L' && names[7][0] == 'A');
    assert forall|i: int, j: int| 0 <= i < j < 10 implies names[i] != names[j] by {
        if names[i].len() == names[j].len() {
            assert((i == 2 && j == 3) || (i == 4 && j == 7));
        }
    }
}

/// The variable has the value.
pub open spec fn sets(env: Seq<VarView>, name: Seq<char>, value: Seq<char>) -> bool {
    env.contains(VarView { name, value })
}

/// The names are all different.
pub open spec fn set_once(env: Seq<VarView>) -> bool {
    forall|i: int, j: int|
        0 <= i < j < env.len() ==> (#[trigger] env[i]).name != (#[trigger] env[j]).name
}

/// The name is among the first `k`.
spec fn is_among_first(name: Seq<char>, k: int) -> bool {
    exists|s: int| 0 <= s < k && name == #[trigger] var_names()[s]
}

/// The names are among the first `k`.
spec fn among_first(env: Seq<VarView>, k: int) -> bool {
    forall|i: int| 0 <= i < env.len() ==> is_among_first((#[trigger] env[i]).name, k)
}

proof fn lemma_one_more(env: Seq<VarView>, more: Seq<VarView>, k: int)
    requires
        0 <= k < 10,
        set_once(env),
        among_first(env, k),
        more.len() <= 1,
        more.len() == 1 ==> more[0].name == var_names()[k],
    ensures
        set_once(env + more),
        among_first(env + more, k + 1),
{
    lemma_names_differ();
    let all = env + more;
    assert forall|i: int| 0 <= i < all.len() implies is_among_first(
        (#[trigger] all[i]).name,
        k + 1,
    ) by {
        if i < env.len() {
            assert(all[i] == env[i]);
            assert(is_among_first(env[i].name, k));
            let s = choose|s: int| 0 <= s < k && env[i].name == #[trigger] var_names()[s];
            assert(all[i].name == var_names()[s]);
        } else {
            assert(all[i] == more[0]);
            assert(all[i].name == var_names()[k]);
        }
    }
    assert forall|i: int, j: int| 0 <= i < j < all.len() implies (#[trigger] all[i]).name != (
    #[trigger] all[j]).name by {
        assert(all[i] == env[i]);
        if j < env.len() {
            assert(all[j] == env[j]);
        } else {
            assert(is_among_first(env[i].name, k));
            let s = choose|s: int| 0 <= s < k && env[i].name == #[trigger] var_names()[s];
            assert(all[j] == more[0]);
            assert(var_names()[s] != var_names()[k]);
        }
    }
}

/// No variable is set twice, so each has the one value.
pub proof fn variables_are_set_once(c: ContextView, now: Moment)
    ensures
        set_once(environment(c, now)),
{
    let e1 = var(
        "TIMESTAMP"@,
        rfc3339(now.secs as i64, now.nanos as u32, now.offset as i32),
    );
    assert(e1[0].name == var_names()[0]);
    let m1 = var("INPUT_DIRS"@, join(c.input_dirs, ":"@));
    let m2 = var("OUTPUT_DIRS"@, join(c.output_dirs, ":"@));
    let m3 = var("SYSTEM_DIRS"@, join(c.system_dirs, ":"@));
    let m4 = opt_var("LATEST_INPUT_FILE"@, c.latest_input_file);
    let m5 = opt_var("LATEST_OUTPUT_FILE"@, c.latest_output_file);
    let m6 = opt_var("ACTIVE_INPUT_DIR"@, c.active_input_dir);
    let m7 = opt_var("ACTIVE_OUTPUT_DIR"@, c.active_output_dir);
    let m8 = opt_var("USER_MESSAGE"@, c.user_message);
    let m9 = opt_var("AGENT_RESPONSE"@, c.agent_response);
    lemma_one_more(e1, m1, 1);
    lemma_one_more(e1 + m1, m2, 2);
    lemma_one_more(e1 + m1 + m2, m3, 3);
    lemma_one_more(e1 + m1 + m2 + m3, m4, 4);
    lemma_one_more(e1 + m1 + m2 + m3 + m4, m5, 5);
    lemma_one_more(e1 + m1 + m2 + m3 + m4 + m5, m6, 6);
    lemma_one_more(e1 + m1 + m2 + m3 + m4 + m5 + m6, m7, 7);
    lemma_one_more(e1 + m1 + m2 + m3 + m4 + m5 + m6 + m7, m8, 8);
    lemma_one_more(e1 + m1 + m2 + m3 + m4 + m5 + m6 + m7 + m8, m9, 9);
}

proof fn lemma_contains_either(a: Seq<VarView>, b: Seq<VarView>, x: VarView)
    ensures
        (a + b).contains(x) <==> a.contains(x) || b.contains(x),
{
    let s = a + b;
    if a.contains(x) {
        let i = choose|i: int| 0 <= i < a.len() && a[i] == x;
        assert(s[i] == x);
    }
    if b.contains(x) {
        let i = choose|i: int| 0 <= i < b.len() && b[i] == x;
        assert(s[a.len() + i] == x);
    }
    if s.contains(x) {
        let i = choose|i: int| 0 <= i < s.len() && s[i] == x;
        if i < a.len() {
            assert(a[i] == x);
        } else {
            assert(b[i - a.len()] == x);
        }
    }
}

proof fn lemma_opt_var(name: Seq<char>, value: Option<Seq<char>>, x: VarView)
    ensures
        opt_var(name, value).contains(x) <==> x.name == name && value == Some(x.value),
{
    if value is Some {
        assert(opt_var(name, value)[0] == (VarView { name, value: value->0 }));
    }
}

/// What a scriptlet finds under the name at `i`, if anything.
spec fn told(c: ContextView, now: Moment, i: int) -> Option<Seq<char>> {
    if i == 0 {
        Some(rfc3339(now.secs as i64, now.nanos as u32, now.offset as i32))
    } else if i == 1 {
        Some(join(c.input_dirs, ":"@))
    } else if i == 2 {
        Some(join(c.output_dirs, ":"@))
    } else if i == 3 {
        Some(join(c.system_dirs, ":"@))
    } else if i == 4 {
        c.latest_input_file
    } else if i == 5 {
        c.latest_output_file
    } else if i == 6 {
        c.active_input_dir
    } else if i == 7 {
        c.active_output_dir
    } else if i == 8 {
        c.user_message
    } else {
        c.agent_response
    }
}

proof fn lemma_environment_has(c: ContextView, now: Moment, x: VarView)
    ensures
        environment(c, now).contains(x) <==> exists|i: int|
            0 <= i < 10 && x.name == #[trigger] var_names()[i] && told(c, now, i) == Some(x.value),
{
    let n = var_names();
    let m0 = opt_var(n[0], told(c, now, 0));
    let m1 = opt_var(n[1], told(c, now, 1));
    let m2 = opt_var(n[2], told(c, now, 2));
    let m3 = opt_var(n[3], told(c, now, 3));
    let m4 = opt_var(n[4], told(c, now, 4));
    let m5 = opt_var(n[5], told(c, now, 5));
    let m6 = opt_var(n[6], told(c, now, 6));
    let m7 = opt_var(n[7], told(c, now, 7));
    let m8 = opt_var(n[8], told(c, now, 8));
    let m9 = opt_var(n[9], told(c, now, 9));
    assert(environment(c, now) =~= m0 + m1 + m2 + m3 + m4 + m5 + m6 + m7 + m8 + m9);
    lemma_contains_either(m0, m1, x);
    lemma_contains_either(m0 + m1, m2, x);
    lemma_contains_either(m0 + m1 + m2, m3, x);
    lemma_contains_either(m0 + m1 + m2 + m3, m4, x);
    lemma_contains_either(m0 + m1 + m2 + m3 + m4, m5, x);
    lemma_contains_either(m0 + m1 + m2 + m3 + m4 + m5, m6, x);
    lemma_contains_either(m0 + m1 + m2 + m3 + m4 + m5 + m6, m7, x);
    lemma_contains_either(m0 + m1 + m2 + m3 + m4 + m5 + m6 + m7, m8, x);
    lemma_contains_either(m0 + m1 + m2 + m3 + m4 + m5 + m6 + m7 + m8, m9, x);
    lemma_opt_var(n[0], told(c, now, 0), x);
    lemma_opt_var(n[1], told(c, now, 1), x);
    lemma_opt_var(n[2], told(c, now, 2), x);
    lemma_opt_var(n[3], told(c, now, 3), x);
    lemma_opt_var(n[4], told(c, now, 4), x);
    lemma_opt_var(n[5], told(c, now, 5), x);
    lemma_opt_var(n[6], told(c, now, 6), x);
    lemma_opt_var(n[7], told(c, now, 7), x);
    lemma_opt_var(n[8], told(c, now, 8), x);
    lemma_opt_var(n[9], told(c, now, 9), x);
}

proof fn lemma_variable_is_told(c: ContextView, now: Moment, i: int, value: Seq<char>)
    requires
        0 <= i < 10,
    ensures
        sets(environment(c, now), var_names()[i], value) <==> told(c, now, i) == Some(value),
{
    let x = VarView { name: var_names()[i], value };
    lemma_environment_has(c, now, x);
    lemma_names_differ();
    if environment(c, now).contains(x) {
        let k = choose|k: int|
            0 <= k < 10 && x.name == #[trigger] var_names()[k] && told(c, now, k) == Some(x.value);
        if k < i {
            assert(var_names()[k] != var_names()[i]);
        } else if i < k {
            assert(var_names()[i] != var_names()[k]);
        }
    }
}

/// Each variable of a scriptlet says what its name promises, whatever the others say: the time at
/// which the scriptlet runs, the directories of each kind with a colon between each two, and the
/// latest files, the active directories, the message and the response where there are any; where
/// there are none, the variable is not set.
pub proof fn every_variable_says_what_it_promises(c: ContextView, now: Moment, value: Seq<char>)
    ensures
        ({
            let env = environment(c, now);
            &&& sets(env, "TIMESTAMP"@, value) <==> value == rfc3339(
                now.secs as i64,
                now.nanos as u32,
                now.offset as i32,
            )
            &&& sets(env, "INPUT_DIRS"@, value) <==> value == join(c.input_dirs, ":"@)
            &&& sets(env, "OUTPUT_DIRS"@, value) <==> value == join(c.output_dirs, ":"@)
            &&& sets(env, "SYSTEM_DIRS"@, value) <==> value == join(c.system_dirs, ":"@)
            &&& sets(env, "LATEST_INPUT_FILE"@, value) <==> c.latest_input_file == Some(value)
            &&& sets(env, "LATEST_OUTPUT_FILE"@, value) <==> c.latest_output_file == Some(value)
            &&& sets(env, "ACTIVE_INPUT_DIR"@, value) <==> c.active_input_dir == Some(value)
            &&& sets(env, "ACTIVE_OUTPUT_DIR"@, value) <==> c.active_output_dir == Some(value)
            &&& sets(env, "USER_MESSAGE"@, value) <==> c.user_message == Some(value)
            &&& sets(env, "AGENT_RESPONSE"@, value) <==> c.agent_response == Some(value)
        }),
{
    let n = var_names();
    assert(n[0] == "TIMESTAMP"@ && n[1] == "INPUT_DIRS"@ && n[2] == "OUTPUT_DIRS"@);
    assert(n[3] == "SYSTEM_DIRS"@ && n[4] == "LATEST_INPUT_FILE"@ && n[5]
        == "LATEST_OUTPUT_FILE"@);
    assert(n[6] == "ACTIVE_INPUT_DIR"@ && n[7] == "ACTIVE_OUTPUT_DIR"@ && n[8]
        == "USER_MESSAGE"@);
    assert(n[9] == "AGENT_RESPONSE"@);
    lemma_variable_is_told(c, now, 0, value);
    lemma_variable_is_told(c, now, 1, value);
    lemma_variable_is_told(c, now, 2, value);
    lemma_variable_is_told(c, now, 3, value);
    lemma_variable_is_told(c, now, 4, value);
    lemma_variable_is_told(c, now, 5, value);
    lemma_variable_is_told(c, now, 6, value);
    lemma_variable_is_told(c, now, 7, value);
    lemma_variable_is_told(c, now, 8, value);
    lemma_variable_is_told(c, now, 9, value);
}

/// What a scriptlet wrote is shown whole behind its label, and nothing is shown where it wrote
/// nothing.
pub proof fn reports_show_what_was_written(label: Seq<char>, text: Seq<char>)
    ensures
        text.len() == 0 ==> reported(label, text) is None,
        text.len() > 0 ==> reported(label, text) == Some(label + text),
        text.len() == 0 <==> stdout_line(text) is None,
        text.len() == 0 <==> stderr_line(text) is None,
        stdout_line(text) matches Some(line) ==> line == "[scriptlet:stdout] "@ + text,
        stderr_line(text) matches Some(line) ==> line == "[scriptlet:stderr] "@ + text,
{
}

/// A scriptlet is announced by the event that runs it and by its path.
pub proof fn announcements_name_event_and_script(script: Seq<char>)
    ensures
        announced(ScriptletEvent::Startup, script) == "[scriptlet] Running "@ + "on-startup"@
            + " script: "@ + quoted(script),
        announced(ScriptletEvent::Submit, script) == "[scriptlet] Running "@ + "on-submit"@
            + " script: "@ + quoted(script),
        announced(ScriptletEvent::Output, script) == "[scriptlet] Running "@ + "on-output"@
            + " script: "@ + quoted(script),
{
}

/// A command runs its own script with `bash`, which is told a message exactly where there is one,
/// and the same of a response.
pub proof fn commands_run_their_script(
    c: ScriptCommand,
    script: Seq<char>,
    context: ContextView,
    now: Moment,
    value: Seq<char>,
)
    requires
        runs_script(c, script, context, now),
    ensures
        c.program@ == "bash"@,
        c.script@ == script,
        context.user_message == Some(value) <==> sets(var_views(c.env@), "USER_MESSAGE"@, value),
        context.agent_response == Some(value) <==> sets(
            var_views(c.env@),
            "AGENT_RESPONSE"@,
            value,
        ),
        set_once(var_views(c.env@)),
{
    every_variable_says_what_it_promises(context, now, value);
    variables_are_set_once(context, now);
}

} // verus!
