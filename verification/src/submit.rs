//! Submitting a message: into the history, into a file, and into the timeline.
use vstd::prelude::*;

use crate::clock::{millis, Moment, Timestamp};
use crate::events::{ActionView, InputAction, PendingInput, PendingView};
use crate::models::{ChatMessage, MessageRole, MessageView};
use crate::paths::{join_path, path_join};
use crate::state::{message_views, wf, App, AppView};
use crate::text::{
    blank, chain3, count_lines, decimals_read_back, is_blank, lemma_texts_push, lines, number_of,
    opt_text, signed_decimal, signed_decimal_text, signed_decimals_read_back, white_space,
};

verus! {

/// The path of a message that no file holds.
pub open spec fn inline_path() -> Seq<char> {
    "user-input"@
}

/// The name of the file of a message submitted at `m`.
pub open spec fn input_filename(m: Moment) -> Seq<char> {
    "input-"@ + signed_decimal(millis(m)) + ".txt"@
}

/// The largest machine integer at most.
pub open spec fn capped(n: int) -> usize {
    if n <= usize::MAX {
        n as usize
    } else {
        usize::MAX
    }
}

/// The lines that a message takes in the chat log: its content, one line at least, and three
/// for the header, the footer and the blank line behind it.
pub open spec fn height(m: MessageView) -> usize {
    let content = lines(m.content).len() as int;
    capped(
        if content > 1 {
            content + 3
        } else {
            4
        },
    )
}

/// The lines that each message takes.
pub open spec fn heights(ms: Seq<MessageView>) -> Seq<usize> {
    ms.map_values(|m: MessageView| height(m))
}

/// The last messages that the limit leaves; a limit of zero leaves all.
pub open spec fn within_limit(ms: Seq<MessageView>, limit: int) -> Seq<MessageView> {
    if limit == 0 || ms.len() <= limit {
        ms
    } else {
        ms.skip(ms.len() - limit)
    }
}

/// The state with other messages, as far as the limit leaves them.
pub open spec fn with_messages(a: AppView, ms: Seq<MessageView>) -> AppView {
    let kept = within_limit(ms, a.history_limit);
    AppView { messages: kept, message_line_offsets: heights(kept), ..a }
}

/// What submitting hands over to be stored: the whole input, unless it is blank.
pub open spec fn pending(a: AppView, now: Moment) -> Option<PendingView> {
    if blank(a.input_text) {
        None
    } else {
        Some(
            PendingView {
                message: a.input_text,
                filename: input_filename(now),
                path: match a.active_input_dir {
                    Some(dir) => Some(path_join(dir, input_filename(now))),
                    None => None,
                },
            },
        )
    }
}

/// Submitting puts the input at the end of the history.
pub open spec fn submitting(a: AppView) -> AppView {
    if blank(a.input_text) {
        a
    } else {
        AppView { history: a.history.push(a.input_text), history_index: -1, ..a }
    }
}

/// The message that a submitted text becomes in the timeline.
pub open spec fn input_message(
    p: PendingView,
    written: Option<Seq<char>>,
    at: Moment,
) -> MessageView {
    MessageView {
        role: MessageRole::Input,
        content: p.message,
        filepath: match written {
            Some(path) => path,
            None => inline_path(),
        },
        created_at: at,
        filename: p.filename,
    }
}

/// Once it is stored, the message joins the timeline and the input is empty again.
pub open spec fn submitted(
    a: AppView,
    p: PendingView,
    written: Option<Seq<char>>,
    at: Moment,
) -> AppView {
    AppView {
        input_text: Seq::empty(),
        input_cursor: 0,
        ..with_messages(a, a.messages.push(input_message(p, written, at)))
    }
}

/// What a submitted message comes to: the message, and the file that holds it, if there is one.
pub open spec fn submit_action(p: PendingView, written: Option<Seq<char>>) -> ActionView {
    ActionView::Submit { message: p.message, input_file: written }
}

impl App {
    /// Calculate how many display lines each message occupies
    pub(crate) fn recalculate_line_offsets(&mut self)
        ensures
            final(self)@ == (AppView {
                message_line_offsets: heights(old(self)@.messages),
                ..old(self)@
            }),
    {
        let mut offsets: Vec<usize> = Vec::new();
        for i in 0..self.messages.len()
            invariant
                offsets@ == heights(message_views(self.messages@)).take(i as int),
        {
            let content_lines = count_lines(self.messages[i].content.as_str());
            let height: usize = if content_lines > 1 {
                content_lines.saturating_add(3)
            } else {
                4
            };
            offsets.push(height);
            assert(offsets@ =~= heights(message_views(self.messages@)).take(i + 1));
        }
        assert(offsets@ =~= heights(message_views(self.messages@)));
        self.message_line_offsets = offsets;
    }

    /// Drops the oldest messages that the limit does not leave, and measures the rest.
    pub(crate) fn settle_messages(&mut self)
        ensures
            final(self)@ == with_messages(old(self)@, old(self)@.messages),
    {
        let count = self.messages.len();
        if self.history_limit > 0 && count > self.history_limit {
            let ghost all = self.messages@;
            let kept = self.messages.split_off(count - self.history_limit);
            assert(message_views(kept@) =~= message_views(all).skip(count - self.history_limit));
            self.messages = kept;
        }
        self.recalculate_line_offsets();
    }

    /// Submit user input: it goes into the history, and is handed over to be written to the
    /// active input directory if one is set. Blank input is not submitted.
    pub fn submit_input(&mut self, now: Timestamp) -> (r: Option<PendingInput>)
        requires
            wf(old(self)@),
            blank(old(self)@.input_text) || old(self)@.history.len() < isize::MAX,
        ensures
            final(self)@ == submitting(old(self)@),
            wf(final(self)@),
            match (r, pending(old(self)@, now@)) {
                (Some(p), Some(q)) => p@ == q,
                (None, None) => true,
                _ => false,
            },
    {
        if is_blank(self.input_text.as_str()) {
            return None;
        }
        let message = self.input_text.clone();
        proof {
            lemma_texts_push(self.history@, message);
        }
        self.history.push(message);
        self.history_index = -1;
        let stamp = signed_decimal_text(now.as_millis());
        let filename = chain3("input-", stamp.as_str(), ".txt");
        let path = match &self.active_input_dir {
            Some(dir) => Some(join_path(dir.as_str(), filename.as_str())),
            None => None,
        };
        let p = PendingInput { message: self.input_text.clone(), filename, path };
        assert(p@ == pending(old(self)@, now@)->0);
        Some(p)
    }

    /// Takes a submitted message into the timeline: `written` is the path of its file, when it
    /// could be written, and `at` the time.
    pub fn finish_submit(
        &mut self,
        p: PendingInput,
        written: Option<String>,
        at: Timestamp,
    ) -> (action: InputAction)
        requires
            wf(old(self)@),
        ensures
            final(self)@ == submitted(old(self)@, p@, opt_text(written), at@),
            wf(final(self)@),
            action@ == submit_action(p@, opt_text(written)),
    {
        let filepath = match &written {
            Some(path) => path.clone(),
            None => "user-input".to_owned(),
        };
        let m = ChatMessage {
            role: MessageRole::Input,
            content: p.message.clone(),
            filepath,
            created_at: at,
            filename: p.filename,
        };
        assert(message_views(self.messages@.push(m)) =~= message_views(self.messages@).push(m@));
        self.messages.push(m);
        self.settle_messages();
        self.input_text = String::new();
        self.input_cursor = 0;
        InputAction::Submit { message: p.message, input_file: written }
    }
}

/// A submitted message can be recalled: it is the last entry of the history, and nothing else
/// has left it.
pub proof fn submitting_remembers_the_message(a: AppView, now: Moment)
    requires
        !blank(a.input_text),
    ensures
        pending(a, now) is Some,
        pending(a, now)->0.message == a.input_text,
        submitting(a).history.last() == a.input_text,
        submitting(a).history.drop_last() == a.history,
{
    assert(submitting(a).history.drop_last() =~= a.history);
}

/// A submitted message is the last one of the timeline, as input, with its text unchanged; the
/// messages before it are the last of those that were there.
pub proof fn submitted_message_ends_the_timeline(
    a: AppView,
    p: PendingView,
    written: Option<Seq<char>>,
    at: Moment,
)
    requires
        a.history_limit >= 0,
    ensures
        ({
            let ms = submitted(a, p, written, at).messages;
            &&& ms.len() > 0
            &&& ms.last() == input_message(p, written, at)
            &&& ms.drop_last() == a.messages.skip(a.messages.len() - (ms.len() - 1))
            &&& a.history_limit == 0 ==> ms.drop_last() == a.messages
            &&& a.history_limit > 0 ==> ms.len() <= a.history_limit
        }),
{
    let ms = submitted(a, p, written, at).messages;
    let all = a.messages.push(input_message(p, written, at));
    assert(ms.drop_last() =~= a.messages.skip(a.messages.len() - (ms.len() - 1)));
    if a.history_limit == 0 {
        assert(ms.drop_last() =~= a.messages);
    }
}

/// The name of the file of a message tells the millisecond at which it was submitted: messages of
/// different milliseconds have different files.
pub proof fn file_names_tell_the_time(m: Moment, n: Moment)
    ensures
        ({
            let name = input_filename(m);
            &&& name.len() > 10
            &&& name.take(6) == "input-"@
            &&& name.skip(name.len() - 4) == ".txt"@
            &&& m.secs >= 0 && m.nanos >= 0 ==> number_of(name.subrange(6, name.len() - 4))
                == m.secs * 1000 + m.nanos / 1_000_000
        }),
        input_filename(m) == input_filename(n) ==> m.secs * 1000 + m.nanos / 1_000_000 == n.secs
            * 1000 + n.nanos / 1_000_000,
{
    reveal_strlit("input-");
    reveal_strlit(".txt");
    let a = signed_decimal(millis(m));
    let b = signed_decimal(millis(n));
    let name = input_filename(m);
    let other = input_filename(n);
    signed_decimals_read_back(millis(m), millis(n));
    decimals_read_back(
        if millis(m) < 0 {
            (-millis(m)) as nat
        } else {
            millis(m) as nat
        },
    );
    assert(name.take(6) =~= "input-"@);
    assert(name.skip(name.len() - 4) =~= ".txt"@);
    assert(name.subrange(6, name.len() - 4) =~= a);
    assert(other.subrange(6, other.len() - 4) =~= b);
}

/// A message goes to the active input directory under its own name, unchanged; without an active
/// directory it has no file to go to, and a blank one goes nowhere at all.
pub proof fn messages_go_to_the_active_directory(a: AppView, now: Moment, dir: Seq<char>)
    ensures
        pending(a, now) is None <==> (forall|i: int|
            0 <= i < a.input_text.len() ==> white_space(#[trigger] a.input_text[i])),
        pending(a, now) matches Some(p) ==> {
            &&& p.message == a.input_text
            &&& p.filename == input_filename(now)
            &&& a.active_input_dir == Some(dir) ==> p.path == Some(path_join(dir, p.filename))
            &&& a.active_input_dir is None ==> p.path is None
        },
{
}

/// Submitting adds the message to the history and leaves recalling; the input stays until the
/// message is stored. A blank input changes nothing.
pub proof fn submitting_changes_the_history_alone(a: AppView)
    ensures
        blank(a.input_text) ==> submitting(a) == a,
        !blank(a.input_text) ==> {
            let b = submitting(a);
            &&& b.history.len() == a.history.len() + 1
            &&& b.history[a.history.len() as int] == a.input_text
            &&& forall|i: int| 0 <= i < a.history.len() ==> b.history[i] == a.history[i]
            &&& b.history_index == -1
            &&& b == AppView { history: b.history, history_index: -1, ..a }
        },
{
}

/// A stored message stands at the end of the timeline as input, with the text and the name that
/// were handed over, the time given, and the path of its file, or the mark of a message without
/// one. As many of the messages before it stay as the limit leaves room for. The input is empty
/// again, and all else stays.
pub proof fn stored_messages_join_the_timeline(
    a: AppView,
    p: PendingView,
    written: Option<Seq<char>>,
    at: Moment,
)
    requires
        a.history_limit >= 0,
    ensures
        ({
            let b = submitted(a, p, written, at);
            let n = b.messages.len() as int;
            let m = b.messages[n - 1];
            &&& n == if a.history_limit == 0 || a.messages.len() < a.history_limit {
                a.messages.len() as int + 1
            } else {
                a.history_limit
            }
            &&& forall|i: int|
                0 <= i < n - 1 ==> b.messages[i] == a.messages[a.messages.len() - (n - 1) + i]
            &&& m.role == MessageRole::Input
            &&& m.content == p.message
            &&& m.filename == p.filename
            &&& m.created_at == at
            &&& written matches Some(path) ==> m.filepath == path
            &&& written is None ==> m.filepath == "user-input"@
            &&& b.input_text.len() == 0
            &&& b.input_cursor == 0
            &&& b == AppView {
                messages: b.messages,
                message_line_offsets: b.message_line_offsets,
                input_text: b.input_text,
                input_cursor: 0,
                ..a
            }
        }),
        submit_action(p, written) == (ActionView::Submit {
            message: p.message,
            input_file: written,
        }),
{
}

/// The limit keeps the last messages, as many as it says; a limit of zero, and one that is not
/// reached, keep all.
pub proof fn limit_keeps_the_last(ms: Seq<MessageView>, limit: int)
    requires
        limit >= 0,
    ensures
        limit == 0 || ms.len() <= limit ==> within_limit(ms, limit) == ms,
        limit > 0 && ms.len() > limit ==> within_limit(ms, limit).len() == limit && forall|i: int|
            0 <= i < limit ==> #[trigger] within_limit(ms, limit)[i] == ms[ms.len() - limit + i],
{
}

/// A message takes three lines more than its content has, and four where that has none; each of
/// the heights on record is that of the message in its place.
pub proof fn heights_count_the_lines(ms: Seq<MessageView>, i: int)
    requires
        0 <= i < ms.len(),
        lines(ms[i].content).len() + 3 <= usize::MAX,
    ensures
        heights(ms).len() == ms.len(),
        lines(ms[i].content).len() > 0 ==> heights(ms)[i] == lines(ms[i].content).len() + 3,
        lines(ms[i].content).len() == 0 ==> heights(ms)[i] == 4,
{
}

} // verus!
