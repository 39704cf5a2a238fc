//! The reception of one form: what is done with each of its fields, and what the sender
//! is answered.
//!
//! Reading the form, storing files and filling the clipboard happen outside. Here each
//! outcome arrives as an [`Event`] and is answered by the [`Action`] to take next.
use crate::escape::plain_text_is_unchanged;
use crate::pages::{
    paragraphs, report_shows_its_title, result_page, result_page_of, BODY_MARK, RESULT_HEAD,
    RESULT_MIDDLE, RESULT_TAIL,
};
use crate::text::{
    blank, decimal, decimal_text, is_blank, occurs_at, option_view, same_text, slice_views, views,
};
use vstd::prelude::*;
#[allow(unused_imports)]
use vstd::string::*;

verus! {

/// What the reception is waiting for.
pub enum Phase<S> {
    /// The next field of the form.
    Field,
    /// The bytes of a file field with the given file name.
    FileBytes(S),
    /// The outcome of storing a file of the given size.
    Storing(usize),
    /// The content of a text field.
    TextContent,
    /// The outcome of filling the clipboard.
    Copying,
    /// Nothing: the answer is given.
    Answered,
}

/// What happened outside.
pub enum Event<S> {
    /// The form could not be read on, with the reason.
    FormBroken(S),
    /// The form has no more fields.
    FormEnded,
    /// A field begins, with its name and its file name as far as it has them.
    FieldBegan { name: Option<S>, file_name: Option<S> },
    /// A file could not be read, with the reason.
    FileBroken(S),
    /// A file of the given size was read.
    FileRead(usize),
    /// A file was stored under the given path.
    Stored(S),
    /// A file could not be stored, with the reason.
    StoringFailed(S),
    /// A text could not be read, with the reason.
    TextBroken(S),
    /// A text was read.
    TextRead(S),
    /// The clipboard was filled, or could not be.
    Copied(bool),
}

/// What the sender is answered.
pub struct Answer<S> {
    /// The HTTP status.
    pub status: u16,
    /// Whether the body is an HTML page; it is plain text otherwise.
    pub html: bool,
    pub body: S,
    /// Whether the program has what it was waiting for and may end.
    pub done: bool,
}

/// What to do next.
pub enum Action<S> {
    /// Go to the next field of the form.
    NextField,
    /// Read the bytes of the field.
    ReadFile,
    /// Store the bytes that were read, for a file that came under the given name.
    StoreFile(S),
    /// Read the field as text.
    ReadText,
    /// Put the text into the clipboard.
    CopyText(S),
    /// Answer the sender.
    Give(Answer<S>),
}

/// The lines to print, and what to do next.
pub struct Step<S, L> {
    pub console: L,
    pub action: Action<S>,
}

/// A reception under way.
pub struct Upload {
    phase: Phase<String>,
    notes: Vec<String>,
    got_something: bool,
}

/// A reception under way, as the contracts see it.
#[verifier::ext_equal]
pub struct UploadState {
    pub phase: Phase<Seq<char>>,
    /// What has been noted for the sender, in order.
    pub notes: Seq<Seq<char>>,
    /// Whether anything has been received.
    pub got_something: bool,
}

impl View for Phase<String> {
    type V = Phase<Seq<char>>;

    open spec fn view(&self) -> Phase<Seq<char>> {
        match *self {
            Phase::Field => Phase::Field,
            Phase::FileBytes(name) => Phase::FileBytes(name@),
            Phase::Storing(size) => Phase::Storing(size),
            Phase::TextContent => Phase::TextContent,
            Phase::Copying => Phase::Copying,
            Phase::Answered => Phase::Answered,
        }
    }
}

impl View for Event<String> {
    type V = Event<Seq<char>>;

    open spec fn view(&self) -> Event<Seq<char>> {
        match *self {
            Event::FormBroken(why) => Event::FormBroken(why@),
            Event::FormEnded => Event::FormEnded,
            Event::FieldBegan { name, file_name } => Event::FieldBegan {
                name: option_view(name),
                file_name: option_view(file_name),
            },
            Event::FileBroken(why) => Event::FileBroken(why@),
            Event::FileRead(size) => Event::FileRead(size),
            Event::Stored(path) => Event::Stored(path@),
            Event::StoringFailed(why) => Event::StoringFailed(why@),
            Event::TextBroken(why) => Event::TextBroken(why@),
            Event::TextRead(text) => Event::TextRead(text@),
            Event::Copied(ok) => Event::Copied(ok),
        }
    }
}

impl View for Answer<String> {
    type V = Answer<Seq<char>>;

    open spec fn view(&self) -> Answer<Seq<char>> {
        Answer { status: self.status, html: self.html, body: self.body@, done: self.done }
    }
}

impl View for Action<String> {
    type V = Action<Seq<char>>;

    open spec fn view(&self) -> Action<Seq<char>> {
        match *self {
            Action::NextField => Action::NextField,
            Action::ReadFile => Action::ReadFile,
            Action::StoreFile(name) => Action::StoreFile(name@),
            Action::ReadText => Action::ReadText,
            Action::CopyText(text) => Action::CopyText(text@),
            Action::Give(answer) => Action::Give(answer@),
        }
    }
}

impl View for Step<String, Vec<String>> {
    type V = Step<Seq<char>, Seq<Seq<char>>>;

    open spec fn view(&self) -> Step<Seq<char>, Seq<Seq<char>>> {
        Step { console: views(self.console@), action: self.action@ }
    }
}

impl View for Upload {
    type V = UploadState;

    closed spec fn view(&self) -> UploadState {
        UploadState {
            phase: self.phase@,
            notes: views(self.notes@),
            got_something: self.got_something,
        }
    }
}

// ---------------------------------------------------------------------------
// The rules
// ---------------------------------------------------------------------------

/// A reception that has seen nothing yet.
pub open spec fn initial() -> UploadState {
    UploadState { phase: Phase::Field, notes: Seq::empty(), got_something: false }
}

/// Whether an event is one that the reception waits for.
pub open spec fn expected(phase: Phase<Seq<char>>, event: Event<Seq<char>>) -> bool {
    match event {
        Event::FormBroken(_) => phase is Field,
        Event::FormEnded => phase is Field,
        Event::FieldBegan { .. } => phase is Field,
        Event::FileBroken(_) => phase is FileBytes,
        Event::FileRead(_) => phase is FileBytes,
        Event::Stored(_) => phase is Storing,
        Event::StoringFailed(_) => phase is Storing,
        Event::TextBroken(_) => phase is TextContent,
        Event::TextRead(_) => phase is TextContent,
        Event::Copied(_) => phase is Copying,
    }
}

/// The refusal of a form that cannot be read.
pub open spec fn refusal(what: Seq<char>, why: Seq<char>) -> Action<Seq<char>> {
    Action::Give(Answer { status: 400, html: false, body: what + why, done: false })
}

/// The answer to a form that was read to its end: a report of what was received, or, where
/// nothing was, a page that says so.
pub open spec fn final_answer(state: UploadState) -> Answer<Seq<char>> {
    Answer {
        status: 200,
        html: true,
        body: if state.got_something {
            result_page_of("发送成功"@, state.notes)
        } else {
            result_page_of("没有收到任何内容"@, Seq::empty())
        },
        done: state.got_something,
    }
}

/// What a field is read as: a file where it has a file name that is not empty; else a text
/// where it has the name `text`; else it is passed over.
pub open spec fn field_action(
    name: Option<Seq<char>>,
    file_name: Option<Seq<char>>,
) -> Action<Seq<char>> {
    if file_name matches Some(f) && f.len() > 0 {
        Action::ReadFile
    } else if name == Some("text"@) {
        Action::ReadText
    } else {
        Action::NextField
    }
}

/// What is waited for after the beginning of a field.
pub open spec fn field_phase(
    name: Option<Seq<char>>,
    file_name: Option<Seq<char>>,
) -> Phase<Seq<char>> {
    match field_action(name, file_name) {
        Action::ReadFile => Phase::FileBytes(file_name->Some_0),
        Action::ReadText => Phase::TextContent,
        _ => Phase::Field,
    }
}

/// The note on a stored file.
pub open spec fn stored_note(path: Seq<char>) -> Seq<char> {
    "文件已保存到 "@ + path
}

/// The note on a file that could not be stored.
pub open spec fn storing_failed_note(why: Seq<char>) -> Seq<char> {
    "保存文件失败: "@ + why
}

/// The note on a received text, with the clipboard filled or not.
pub open spec fn copied_note(ok: bool) -> Seq<char> {
    if ok {
        "文本已复制到电脑剪贴板"@
    } else {
        "文本已打印在电脑终端（未找到剪贴板工具）"@
    }
}

/// The line printed for a stored file.
pub open spec fn stored_line(path: Seq<char>, size: usize) -> Seq<char> {
    "📁 已保存文件: "@ + path + " ("@ + decimal(size as nat) + " 字节)"@
}

/// The lines printed for a received text.
pub open spec fn text_lines(text: Seq<char>) -> Seq<Seq<char>> {
    seq!["📝 收到文本:"@, text, Seq::empty()]
}

/// The state after an event.
pub open spec fn state_after(state: UploadState, event: Event<Seq<char>>) -> UploadState {
    match event {
        Event::FormBroken(_) => UploadState { phase: Phase::Answered, ..state },
        Event::FormEnded => UploadState { phase: Phase::Answered, ..state },
        Event::FieldBegan { name, file_name } => UploadState {
            phase: field_phase(name, file_name),
            ..state
        },
        Event::FileBroken(_) => UploadState { phase: Phase::Answered, ..state },
        Event::FileRead(size) => UploadState {
            phase: if size == 0 {
                Phase::Field
            } else {
                Phase::Storing(size)
            },
            ..state
        },
        Event::Stored(path) => UploadState {
            phase: Phase::Field,
            notes: state.notes.push(stored_note(path)),
            got_something: true,
        },
        Event::StoringFailed(why) => UploadState {
            phase: Phase::Field,
            notes: state.notes.push(storing_failed_note(why)),
            ..state
        },
        Event::TextBroken(_) => UploadState { phase: Phase::Answered, ..state },
        Event::TextRead(text) => UploadState {
            phase: if blank(text) {
                Phase::Field
            } else {
                Phase::Copying
            },
            ..state
        },
        Event::Copied(ok) => UploadState {
            phase: Phase::Field,
            notes: state.notes.push(copied_note(ok)),
            got_something: true,
        },
    }
}

/// What is done on an event.
pub open spec fn action_on(state: UploadState, event: Event<Seq<char>>) -> Action<Seq<char>> {
    match event {
        Event::FormBroken(why) => refusal("解析上传失败: "@, why),
        Event::FormEnded => Action::Give(final_answer(state)),
        Event::FieldBegan { name, file_name } => field_action(name, file_name),
        Event::FileBroken(why) => refusal("读取文件失败: "@, why),
        Event::FileRead(size) => if size == 0 {
            Action::NextField
        } else {
            Action::StoreFile(state.phase->FileBytes_0)
        },
        Event::Stored(_) => Action::NextField,
        Event::StoringFailed(_) => Action::NextField,
        Event::TextBroken(why) => refusal("读取文本失败: "@, why),
        Event::TextRead(text) => if blank(text) {
            Action::NextField
        } else {
            Action::CopyText(text)
        },
        Event::Copied(_) => Action::NextField,
    }
}

/// What is printed on an event.
pub open spec fn console_on(state: UploadState, event: Event<Seq<char>>) -> Seq<Seq<char>> {
    match event {
        Event::Stored(path) => seq![stored_line(path, state.phase->Storing_0)],
        Event::TextRead(text) => if blank(text) {
            Seq::empty()
        } else {
            text_lines(text)
        },
        _ => Seq::empty(),
    }
}

// ---------------------------------------------------------------------------
// The reception
// ---------------------------------------------------------------------------

fn two_parts(a: &str, b: &str) -> (r: String)
    ensures
        r@ == a@ + b@,
{
    let mut out = a.to_owned();
    out.append(b);
    out
}

fn refuse(what: &str, why: &str) -> (r: Action<String>)
    ensures
        r@ == refusal(what@, why@),
{
    Action::Give(Answer { status: 400, html: false, body: two_parts(what, why), done: false })
}

fn stored_text(path: &str, size: usize) -> (r: String)
    ensures
        r@ == stored_line(path@, size),
{
    let mut line = "📁 已保存文件: ".to_owned();
    line.append(path);
    line.append(" (");
    line.append(decimal_text(size as u64).as_str());
    line.append(" 字节)");
    line
}

fn report(title: &str, notes: &Vec<String>) -> (r: String)
    ensures
        r@ == result_page_of(title@, views(notes@)),
{
    let mut lines: Vec<&str> = Vec::new();
    for i in 0..notes.len()
        invariant
            lines@.len() == i,
            forall|j: int| 0 <= j < i ==> (#[trigger] lines@[j])@ == notes@[j]@,
    {
        lines.push(notes[i].as_str());
    }
    proof {
        assert(slice_views(lines@) =~= views(notes@));
    }
    result_page(title, lines.as_slice())
}

impl Upload {
    /// A reception that has seen nothing yet: it waits for the first field.
    pub fn new() -> (r: Upload)
        ensures
            r@ == initial(),
    {
        let r = Upload { phase: Phase::Field, notes: Vec::new(), got_something: false };
        proof {
            assert(views(r.notes@) =~= Seq::empty());
        }
        r
    }

    /// Whether an event is one that the reception waits for.
    pub fn expects(&self, event: &Event<String>) -> (r: bool)
        ensures
            r == expected(self@.phase, event@),
    {
        match (&self.phase, event) {
            (Phase::Field, Event::FormBroken(_)) => true,
            (Phase::Field, Event::FormEnded) => true,
            (Phase::Field, Event::FieldBegan { .. }) => true,
            (Phase::FileBytes(_), Event::FileBroken(_)) => true,
            (Phase::FileBytes(_), Event::FileRead(_)) => true,
            (Phase::Storing(_), Event::Stored(_)) => true,
            (Phase::Storing(_), Event::StoringFailed(_)) => true,
            (Phase::TextContent, Event::TextBroken(_)) => true,
            (Phase::TextContent, Event::TextRead(_)) => true,
            (Phase::Copying, Event::Copied(_)) => true,
            _ => false,
        }
    }

    fn begin_field(&mut self, name: Option<String>, file_name: Option<String>) -> (r: Action<
        String,
    >)
        requires
            old(self)@.phase is Field,
        ensures
            final(self)@ == (UploadState {
                phase: field_phase(option_view(name), option_view(file_name)),
                ..old(self)@
            }),
            r@ == field_action(option_view(name), option_view(file_name)),
    {
        match file_name {
            Some(f) => {
                if !f.as_str().is_empty() {
                    self.phase = Phase::FileBytes(f);
                    return Action::ReadFile;
                }
            },
            None => {},
        }
        match name {
            Some(n) => {
                if same_text(n.as_str(), "text") {
                    self.phase = Phase::TextContent;
                    return Action::ReadText;
                }
            },
            None => {},
        }
        Action::NextField
    }

    fn note(&mut self, line: String)
        ensures
            final(self)@ == (UploadState {
                phase: Phase::Field,
                notes: old(self)@.notes.push(line@),
                ..old(self)@
            }),
    {
        self.notes.push(line);
        self.phase = Phase::Field;
        proof {
            assert(views(self.notes@) =~= old(self)@.notes.push(line@));
        }
    }

    /// Takes up what happened outside, and says what to print and what to do next.
    pub fn step(&mut self, event: Event<String>) -> (r: Step<String, Vec<String>>)
        requires
            expected(old(self)@.phase, event@),
        ensures
            final(self)@ == state_after(old(self)@, event@),
            r@.action == action_on(old(self)@, event@),
            r@.console == console_on(old(self)@, event@),
            event matches Event::TextRead(text) ==> if blank(text@) {
                r.action is NextField && r.console@.len() == 0
            } else {
                &&& r.action matches Action::CopyText(copied) && copied@ == text@
                &&& r.console@.len() == 3 && r.console@[1]@ == text@
            },
            event matches Event::FileRead(size) ==> if size == 0 {
                r.action is NextField
            } else {
                r.action matches Action::StoreFile(name) && old(self)@.phase == Phase::FileBytes(
                    name@,
                )
            },
            event matches Event::FormEnded ==> (r.action matches Action::Give(answer)
                && answer.status == 200 && answer.html && answer.done
                == old(self)@.got_something),
            event matches Event::FormBroken(why) ==> (r.action matches Action::Give(answer)
                && answer.status == 400 && !answer.done && answer.body@ == "解析上传失败: "@ + why@),
            event matches Event::FileBroken(why) ==> (r.action matches Action::Give(answer)
                && answer.status == 400 && !answer.done && answer.body@ == "读取文件失败: "@ + why@),
            event matches Event::TextBroken(why) ==> (r.action matches Action::Give(answer)
                && answer.status == 400 && !answer.done && answer.body@ == "读取文本失败: "@ + why@),
    {
        let mut console: Vec<String> = Vec::new();
        proof {
            assert(views(console@) =~= Seq::empty());
        }
        let action = match event {
            Event::FormBroken(why) => {
                self.phase = Phase::Answered;
                refuse("解析上传失败: ", why.as_str())
            },
            Event::FormEnded => {
                self.phase = Phase::Answered;
                let none: Vec<String> = Vec::new();
                proof {
                    assert(views(none@) =~= Seq::empty());
                }
                let body = if self.got_something {
                    report("发送成功", &self.notes)
                } else {
                    report("没有收到任何内容", &none)
                };
                Action::Give(Answer { status: 200, html: true, body, done: self.got_something })
            },
            Event::FieldBegan { name, file_name } => self.begin_field(name, file_name),
            Event::FileBroken(why) => {
                self.phase = Phase::Answered;
                refuse("读取文件失败: ", why.as_str())
            },
            Event::FileRead(size) => {
                let mut phase = if size == 0 {
                    Phase::Field
                } else {
                    Phase::Storing(size)
                };
                std::mem::swap(&mut self.phase, &mut phase);
                match phase {
                    Phase::FileBytes(name) => if size == 0 {
                        Action::NextField
                    } else {
                        Action::StoreFile(name)
                    },
                    _ => Action::NextField,
                }
            },
            Event::Stored(path) => {
                let size: usize = match &self.phase {
                    Phase::Storing(size) => *size,
                    _ => 0,
                };
                console.push(stored_text(path.as_str(), size));
                self.note(two_parts("文件已保存到 ", path.as_str()));
                self.got_something = true;
                Action::NextField
            },
            Event::StoringFailed(why) => {
                self.note(two_parts("保存文件失败: ", why.as_str()));
                Action::NextField
            },
            Event::TextBroken(why) => {
                self.phase = Phase::Answered;
                refuse("读取文本失败: ", why.as_str())
            },
            Event::TextRead(text) => {
                if is_blank(text.as_str()) {
                    self.phase = Phase::Field;
                    Action::NextField
                } else {
                    self.phase = Phase::Copying;
                    console.push("📝 收到文本:".to_owned());
                    console.push(text.clone());
                    console.push(String::new());
                    Action::CopyText(text)
                }
            },
            Event::Copied(ok) => {
                let line = if ok {
                    "文本已复制到电脑剪贴板".to_owned()
                } else {
                    "文本已打印在电脑终端（未找到剪贴板工具）".to_owned()
                };
                self.note(line);
                self.got_something = true;
                Action::NextField
            },
        };
        proof {
            assert(views(console@) =~= console_on(old(self)@, event@));
        }
        Step { console, action }
    }
}

// ---------------------------------------------------------------------------
// What a whole reception guarantees
// ---------------------------------------------------------------------------

/// The state after a whole history of events.
pub open spec fn run(events: Seq<Event<Seq<char>>>) -> UploadState
    decreases events.len(),
{
    if events.len() == 0 {
        initial()
    } else {
        state_after(run(events.drop_last()), events.last())
    }
}

/// Whether each event of a history came when it was waited for.
pub open spec fn orderly(events: Seq<Event<Seq<char>>>) -> bool
    decreases events.len(),
{
    events.len() > 0 ==> orderly(events.drop_last()) && expected(
        run(events.drop_last()).phase,
        events.last(),
    )
}

/// Whether an event tells that something was received: a file that is stored, or a text
/// that was printed and handed to the clipboard.
pub open spec fn receives(event: Event<Seq<char>>) -> bool {
    event is Stored || event is Copied
}

/// The note that an event leaves, if any.
pub open spec fn note_on(event: Event<Seq<char>>) -> Seq<Seq<char>> {
    match event {
        Event::Stored(path) => seq![stored_note(path)],
        Event::StoringFailed(why) => seq![storing_failed_note(why)],
        Event::Copied(ok) => seq![copied_note(ok)],
        _ => Seq::empty(),
    }
}

/// The notes that a history leaves, in the order of its events.
pub open spec fn notes_on(events: Seq<Event<Seq<char>>>) -> Seq<Seq<char>>
    decreases events.len(),
{
    if events.len() == 0 {
        Seq::empty()
    } else {
        notes_on(events.drop_last()) + note_on(events.last())
    }
}

/// At any time something counts as received exactly if one of the events so far told of a
/// stored file or a received text; and the notes are those of the events, in order.
pub proof fn reception_keeps_account(events: Seq<Event<Seq<char>>>)
    ensures
        run(events).got_something == (exists|i: int|
            0 <= i < events.len() && receives(#[trigger] events[i])),
        run(events).notes == notes_on(events),
    decreases events.len(),
{
    if events.len() > 0 {
        let before = events.drop_last();
        reception_keeps_account(before);
        if exists|i: int| 0 <= i < before.len() && receives(#[trigger] before[i]) {
            let i = choose|i: int| 0 <= i < before.len() && receives(#[trigger] before[i]);
            assert(receives(events[i]));
        }
        if receives(events.last()) {
            assert(receives(events[events.len() - 1]));
        }
        if exists|i: int| 0 <= i < events.len() && receives(#[trigger] events[i]) {
            let i = choose|i: int| 0 <= i < events.len() && receives(#[trigger] events[i]);
            if i < before.len() {
                assert(receives(before[i]));
            }
        }
        assert(run(events).notes =~= notes_on(before) + note_on(events.last()));
    }
}

/// At the end of a form the program is told that it may end exactly if something was
/// received. The sender then gets the report with all notes, and otherwise the page that
/// says that nothing arrived.
pub proof fn form_end_tells_what_was_received(events: Seq<Event<Seq<char>>>)
    ensures
        ({
            let received = exists|i: int| 0 <= i < events.len() && receives(#[trigger] events[i]);
            action_on(run(events), Event::FormEnded) == Action::Give(
                Answer {
                    status: 200,
                    html: true,
                    body: if received {
                        result_page_of("发送成功"@, notes_on(events))
                    } else {
                        result_page_of("没有收到任何内容"@, Seq::empty())
                    },
                    done: received,
                },
            )
        }),
{
    reception_keeps_account(events);
}

/// A form that cannot be read is answered with status 400 and never ends the program,
/// whatever was received before.
pub proof fn broken_form_is_refused(state: UploadState, event: Event<Seq<char>>)
    requires
        event is FormBroken || event is FileBroken || event is TextBroken,
    ensures
        action_on(state, event) matches Action::Give(answer) && answer.status == 400
            && !answer.html && !answer.done,
        state_after(state, event).phase is Answered,
{
}

/// An answer is given exactly where the reception ends, and after it nothing is waited
/// for: a form is answered once.
pub proof fn form_is_answered_once(state: UploadState, event: Event<Seq<char>>)
    requires
        expected(state.phase, event),
    ensures
        action_on(state, event) is Give <==> state_after(state, event).phase is Answered,
        !(state.phase is Answered),
{
}

/// The bytes that are stored are those of the field that has just begun, and they are
/// stored under the file name that came with it, which is not empty.
pub proof fn file_is_stored_under_its_own_name(events: Seq<Event<Seq<char>>>, size: usize)
    requires
        orderly(events.push(Event::FileRead(size))),
        size > 0,
    ensures
        ({
            let action = action_on(run(events), Event::FileRead(size));
            &&& events.len() > 0
            &&& events.last() matches Event::FieldBegan { file_name: Some(name), .. }
            &&& name.len() > 0
            &&& action == Action::<Seq<char>>::StoreFile(name)
        }),
{
    let all = events.push(Event::FileRead(size));
    assert(all.drop_last() =~= events);
    assert(run(events).phase is FileBytes);
}

/// Only a file that is not empty is stored, and only a text that is not blank is copied:
/// a form with nothing else in it counts as empty.
pub proof fn empty_fields_are_passed_over(state: UploadState, text: Seq<char>)
    requires
        blank(text),
    ensures
        action_on(state, Event::FileRead(0)) is NextField,
        action_on(state, Event::TextRead(text)) is NextField,
        state_after(state, Event::FileRead(0)).notes == state.notes,
        state_after(state, Event::TextRead(text)).notes == state.notes,
        state_after(state, Event::FileRead(0)).got_something == state.got_something,
        state_after(state, Event::TextRead(text)).got_something == state.got_something,
{
}

// ---------------------------------------------------------------------------
// What becomes of each field
// ---------------------------------------------------------------------------

/// A text that is not blank goes to the clipboard, and onto the terminal, character for
/// character as it was received; nothing of what was received before is touched.
pub proof fn received_text_is_copied_whole(state: UploadState, text: Seq<char>)
    requires
        !blank(text),
    ensures
        action_on(state, Event::TextRead(text)) == Action::CopyText(text),
        console_on(state, Event::TextRead(text)).len() == 3,
        console_on(state, Event::TextRead(text))[0] == "📝 收到文本:"@,
        console_on(state, Event::TextRead(text))[1] == text,
        console_on(state, Event::TextRead(text))[2].len() == 0,
        state_after(state, Event::TextRead(text)).notes == state.notes,
        state_after(state, Event::TextRead(text)).got_something == state.got_something,
{
}

/// A field that came with a file name is a file; else one that is called `text` is a text;
/// any other is passed over. None of them changes what was received before, or is told of.
pub proof fn field_is_read_by_its_kind(
    state: UploadState,
    name: Option<Seq<char>>,
    file_name: Option<Seq<char>>,
)
    ensures
        ({
            let event = Event::FieldBegan { name, file_name };
            let action = action_on(state, event);
            let after = state_after(state, event);
            let is_file = file_name is Some && file_name->Some_0.len() > 0;
            let is_text = !is_file && name == Some(seq!['t', 'e', 'x', 't']);
            &&& is_file ==> action is ReadFile && after.phase == Phase::FileBytes(file_name->Some_0)
            &&& is_text ==> action is ReadText && after.phase is TextContent
            &&& !is_file && !is_text ==> action is NextField && after.phase is Field
            &&& after.notes == state.notes
            &&& after.got_something == state.got_something
            &&& console_on(state, event).len() == 0
        }),
{
    reveal_strlit("text");
    assert("text"@ =~= seq!['t', 'e', 'x', 't']);
}

/// A file that is not empty is to be stored under the very name that came with it, and its
/// size is remembered; an empty one is passed over.
pub proof fn file_is_stored_as_it_came(state: UploadState, name: Seq<char>, size: usize)
    requires
        state.phase == Phase::FileBytes(name),
    ensures
        ({
            let event = Event::<Seq<char>>::FileRead(size);
            let after = state_after(state, event);
            &&& size > 0 ==> action_on(state, event) == Action::StoreFile(name) && after.phase
                == Phase::<Seq<char>>::Storing(size)
            &&& size == 0 ==> action_on(state, event) is NextField && after.phase is Field
            &&& after.notes == state.notes
            &&& after.got_something == state.got_something
            &&& console_on(state, event).len() == 0
        }),
{
}

/// Whether `after` has one note more than `before`, at the end.
pub open spec fn notes_one_more(
    before: Seq<Seq<char>>,
    after: Seq<Seq<char>>,
    note: Seq<char>,
) -> bool {
    &&& after.len() == before.len() + 1
    &&& forall|i: int| 0 <= i < before.len() ==> #[trigger] after[i] == before[i]
    &&& after[before.len() as int] == note
}

/// A stored file is told of on the terminal, with its whole path and its size, and noted for
/// the sender with its whole path; it counts as received.
pub proof fn stored_file_is_told_of(state: UploadState, path: Seq<char>, size: usize)
    requires
        state.phase == Phase::<Seq<char>>::Storing(size),
    ensures
        ({
            let event = Event::Stored(path);
            let after = state_after(state, event);
            let told = console_on(state, event);
            &&& action_on(state, event) is NextField
            &&& told.len() == 1
            &&& told[0] == "📁 已保存文件: "@ + path + " ("@ + decimal(size as nat) + " 字节)"@
            &&& notes_one_more(state.notes, after.notes, "文件已保存到 "@ + path)
            &&& after.got_something
            &&& after.phase is Field
        }),
{
}

/// A file that could not be stored is noted for the sender with the reason, and does not
/// count as received; what was received before still counts.
pub proof fn failed_storing_is_noted(state: UploadState, why: Seq<char>)
    ensures
        ({
            let event = Event::StoringFailed(why);
            let after = state_after(state, event);
            &&& action_on(state, event) is NextField
            &&& console_on(state, event).len() == 0
            &&& notes_one_more(state.notes, after.notes, "保存文件失败: "@ + why)
            &&& after.got_something == state.got_something
            &&& after.phase is Field
        }),
{
}

/// A text counts as received whether or not the clipboard could be filled with it, and the
/// sender is told which of the two it was.
pub proof fn copied_text_is_noted(state: UploadState, ok: bool)
    ensures
        ({
            let event = Event::<Seq<char>>::Copied(ok);
            let after = state_after(state, event);
            &&& action_on(state, event) is NextField
            &&& console_on(state, event).len() == 0
            &&& notes_one_more(
                state.notes,
                after.notes,
                if ok {
                    "文本已复制到电脑剪贴板"@
                } else {
                    "文本已打印在电脑终端（未找到剪贴板工具）"@
                },
            )
            &&& after.got_something
            &&& after.phase is Field
        }),
{
}

/// A form that cannot be read on is refused with the whole reason; nothing is printed.
pub proof fn refusal_gives_the_reason(state: UploadState, why: Seq<char>)
    ensures
        action_on(state, Event::FormBroken(why)) == Action::Give(
            Answer { status: 400, html: false, body: "解析上传失败: "@ + why, done: false },
        ),
        action_on(state, Event::FileBroken(why)) == Action::Give(
            Answer { status: 400, html: false, body: "读取文件失败: "@ + why, done: false },
        ),
        action_on(state, Event::TextBroken(why)) == Action::Give(
            Answer { status: 400, html: false, body: "读取文本失败: "@ + why, done: false },
        ),
        console_on(state, Event::FormBroken(why)).len() == 0,
        console_on(state, Event::FileBroken(why)).len() == 0,
        console_on(state, Event::TextBroken(why)).len() == 0,
{
}

/// The answer at the end of a form is the report with every note in order, each a paragraph
/// that reads back as the note, and the program may end; where nothing was received, it is
/// the page that says so, without any note, and the program goes on.
pub proof fn answer_holds_every_note(state: UploadState)
    ensures
        action_on(state, Event::FormEnded) matches Action::Give(answer) && {
            &&& answer.status == 200
            &&& answer.html
            &&& answer.done == state.got_something
            &&& state.got_something ==> answer.body == RESULT_HEAD@ + "发送成功"@
                + RESULT_MIDDLE@ + paragraphs(state.notes) + RESULT_TAIL@
            &&& !state.got_something ==> answer.body == RESULT_HEAD@ + "没有收到任何内容"@
                + RESULT_MIDDLE@ + RESULT_TAIL@
        },
        console_on(state, Event::FormEnded).len() == 0,
{
    reveal_strlit("发送成功");
    reveal_strlit("没有收到任何内容");
    reveal_strlit("__BODY__");
    let good = "发送成功"@;
    let none = "没有收到任何内容"@;
    plain_text_is_unchanged(good);
    plain_text_is_unchanged(none);
    assert forall|at: int| !occurs_at(good, BODY_MARK@, at) by {
        if occurs_at(good, BODY_MARK@, at) {
            assert(good.subrange(at, at + 8)[0] == good[at]);
        }
    }
    assert forall|at: int| !occurs_at(none, BODY_MARK@, at) by {
        if occurs_at(none, BODY_MARK@, at) {
            assert(none.subrange(at, at + 8)[0] == none[at]);
        }
    }
    report_shows_its_title(good, state.notes);
    report_shows_its_title(none, Seq::empty());
    assert(RESULT_HEAD@ + none + RESULT_MIDDLE@ + paragraphs(Seq::empty()) + RESULT_TAIL@
        =~= RESULT_HEAD@ + none + RESULT_MIDDLE@ + RESULT_TAIL@);
}

/// What is waited for is what can come of the last action, and nothing else: the next field
/// or the end of the form, the outcome of reading, storing or copying; after the answer,
/// nothing.
pub proof fn outcome_of_the_action_is_waited_for(
    state: UploadState,
    event: Event<Seq<char>>,
    next: Event<Seq<char>>,
)
    requires
        expected(state.phase, event),
    ensures
        expected(state_after(state, event).phase, next) == match action_on(state, event) {
            Action::NextField => next is FieldBegan || next is FormEnded || next is FormBroken,
            Action::ReadFile => next is FileRead || next is FileBroken,
            Action::StoreFile(_) => next is Stored || next is StoringFailed,
            Action::ReadText => next is TextRead || next is TextBroken,
            Action::CopyText(_) => next is Copied,
            Action::Give(_) => false,
        },
        expected(initial().phase, next) == (next is FieldBegan || next is FormEnded
            || next is FormBroken),
        initial().notes.len() == 0,
        !initial().got_something,
{
}

/// The views of events, actions and answers are theirs, with the view of each string in its
/// place.
pub proof fn views_leave_nothing_out(
    s: String,
    name: Option<String>,
    size: usize,
    ok: bool,
    answer: Answer<String>,
    step: Step<String, Vec<String>>,
)
    ensures
        Event::FormBroken(s)@ == Event::FormBroken(s@),
        Event::<String>::FormEnded@ == Event::<Seq<char>>::FormEnded,
        (Event::FieldBegan { name: Some(s), file_name: name })@ == (Event::FieldBegan {
            name: Some(s@),
            file_name: option_view(name),
        }),
        (Event::FieldBegan { name, file_name: Some(s) })@ == (Event::FieldBegan {
            name: option_view(name),
            file_name: Some(s@),
        }),
        (Event::FieldBegan { name: None::<String>, file_name: None::<String> })@ == (
        Event::FieldBegan { name: None::<Seq<char>>, file_name: None::<Seq<char>> }),
        Event::FileBroken(s)@ == Event::FileBroken(s@),
        Event::<String>::FileRead(size)@ == Event::<Seq<char>>::FileRead(size),
        Event::Stored(s)@ == Event::Stored(s@),
        Event::StoringFailed(s)@ == Event::StoringFailed(s@),
        Event::TextBroken(s)@ == Event::TextBroken(s@),
        Event::TextRead(s)@ == Event::TextRead(s@),
        Event::<String>::Copied(ok)@ == Event::<Seq<char>>::Copied(ok),
        Action::<String>::NextField@ == Action::<Seq<char>>::NextField,
        Action::<String>::ReadFile@ == Action::<Seq<char>>::ReadFile,
        Action::StoreFile(s)@ == Action::StoreFile(s@),
        Action::<String>::ReadText@ == Action::<Seq<char>>::ReadText,
        Action::CopyText(s)@ == Action::CopyText(s@),
        Action::Give(answer)@ == Action::Give(answer@),
        answer@.status == answer.status && answer@.html == answer.html && answer@.done
            == answer.done && answer@.body == answer.body@,
        step@.action == step.action@,
        step@.console.len() == step.console@.len(),
        forall|i: int|
            0 <= i < step.console@.len() ==> #[trigger] step@.console[i] == step.console@[i]@,
{
}

} // verus!
