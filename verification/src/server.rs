//! The server of the desktop and mobile application: it shares one text or one file at a
//! time, or receives one.
use crate::base64_text::{
    base64_decoded, base64_loses_nothing, base64_of, base64_stays_quoted, encode_base64,
};
use crate::escape::{
    escaped, escaped_text_holds_no_markup, escaping_loses_nothing, html_escape, quote_escape,
    quoted, quoted_text_ends_no_attribute, quoting_loses_nothing, unescaped,
};
use crate::names::{file_name_of, has_drive, slash_path};
use crate::network::{fallback_addr, server_url, url_of, HostAddr};
use crate::pages::{get_page, SEND_FORM};
use crate::text::{beginning_leaves_a_rest, begins_with, occurs_at, option_view, strip_prefix, without_prefix};
use vstd::prelude::*;
#[allow(unused_imports)]
use vstd::string::*;

verus! {

/// What is shared.
pub enum Mode {
    /// A text.
    Text(String),
    /// A file: the path of an ordinary file, or the `content://` URI of a file on Android.
    File(String),
}

/// What is shared, as the contracts see it.
pub enum Shared {
    Text(Seq<char>),
    File(Seq<char>),
}

impl View for Mode {
    type V = Shared;

    open spec fn view(&self) -> Shared {
        match *self {
            Mode::Text(text) => Shared::Text(text@),
            Mode::File(source) => Shared::File(source@),
        }
    }
}

/// The state that the requests of one server share.
pub struct ServerState {
    pub mode: Mode,
}

// ---------------------------------------------------------------------------
// Starting
// ---------------------------------------------------------------------------

/// What a request to share asks for: a text behind `text:`, a file behind `file:`, and
/// otherwise the whole request as a text.
pub open spec fn shared_by(request: Seq<char>) -> Shared {
    if begins_with(request, "text:"@) {
        Shared::Text(request.skip("text:"@.len() as int))
    } else if begins_with(request, "file:"@) {
        Shared::File(request.skip("file:"@.len() as int))
    } else {
        Shared::Text(request)
    }
}

/// What a request to share asks for.
pub fn parse_mode(s: &str) -> (r: Mode)
    ensures
        r@ == shared_by(s@),
{
    match strip_prefix(s, "text:") {
        Some(text) => Mode::Text(text),
        None => match strip_prefix(s, "file:") {
            Some(source) => Mode::File(source),
            None => Mode::Text(s.to_owned()),
        },
    }
}

/// A server that is about to run: what its requests share, and its URL.
pub struct Started {
    pub state: ServerState,
    pub url: String,
}

/// What a server runs with that was asked to share something, has found the computer's
/// address or not, and listens on a port.
pub fn start(mode_str: &str, found: Option<HostAddr>, port: u16) -> (r: Started)
    ensures
        r.state.mode@ == shared_by(mode_str@),
        r.url@ == url_of(
            match found {
                Some(addr) => addr,
                None => fallback_addr(),
            },
            port,
        ),
{
    Started { state: ServerState { mode: parse_mode(mode_str) }, url: server_url(found, port) }
}

/// A server that is about to receive: the page that its root shows, and its URL.
pub struct Receiving {
    pub page: String,
    pub url: String,
}

/// What a server runs with that receives a text or a file from the phone, has found the
/// computer's address or not, and listens on a port: its root shows the form to send with.
pub fn start_receiving(found: Option<HostAddr>, port: u16) -> (r: Receiving)
    ensures
        r.page@ == SEND_FORM@,
        r.url@ == url_of(
            match found {
                Some(addr) => addr,
                None => fallback_addr(),
            },
            port,
        ),
{
    Receiving { page: get_page(), url: server_url(found, port) }
}

/// The place for the handle that stops the server that is running.
pub struct ServiceSlot<T> {
    current: Option<T>,
}

impl<T> View for ServiceSlot<T> {
    type V = Option<T>;

    closed spec fn view(&self) -> Option<T> {
        self.current
    }
}

impl<T> ServiceSlot<T> {
    /// No server is running.
    pub fn new() -> (r: ServiceSlot<T>)
        ensures
            r@ is None,
    {
        ServiceSlot { current: None }
    }

    /// Takes out the handle of the server that is running, to stop it.
    pub fn retire(&mut self) -> (r: Option<T>)
        ensures
            r == old(self)@,
            final(self)@ is None,
    {
        self.current.take()
    }

    /// Puts in the handle of a server that has begun to run. Gives back the handle that was
    /// still there, whose server stops with it.
    pub fn install(&mut self, handle: T) -> (r: Option<T>)
        ensures
            r == old(self)@,
            final(self)@ == Some(handle),
    {
        let previous = self.current.take();
        self.current = Some(handle);
        previous
    }
}

/// What is done with a slot: a handle is put in, or what is there is taken out.
pub enum SlotUse<T> {
    Retire,
    Install(T),
}

/// What a slot holds after a history of uses.
pub open spec fn slot_after<T>(uses: Seq<SlotUse<T>>) -> Option<T> {
    if uses.len() == 0 {
        None
    } else {
        match uses.last() {
            SlotUse::Retire => None,
            SlotUse::Install(handle) => Some(handle),
        }
    }
}

/// The handles of the servers that were started, in order.
pub open spec fn started<T>(uses: Seq<SlotUse<T>>) -> Seq<T>
    decreases uses.len(),
{
    if uses.len() == 0 {
        Seq::empty()
    } else {
        match uses.last() {
            SlotUse::Retire => started(uses.drop_last()),
            SlotUse::Install(handle) => started(uses.drop_last()).push(handle),
        }
    }
}

/// The handles that came back out of the slot, in order: those of the servers that were
/// stopped.
pub open spec fn stopped<T>(uses: Seq<SlotUse<T>>) -> Seq<T>
    decreases uses.len(),
{
    if uses.len() == 0 {
        Seq::empty()
    } else {
        match slot_after(uses.drop_last()) {
            Some(handle) => stopped(uses.drop_last()).push(handle),
            None => stopped(uses.drop_last()),
        }
    }
}

/// Whatever is started and in whatever order, every server that was ever started has been
/// stopped, but for the one whose handle is in the slot: at most one is running.
pub proof fn at_most_one_server_runs<T>(uses: Seq<SlotUse<T>>)
    ensures
        match slot_after(uses) {
            Some(handle) => started(uses) == stopped(uses).push(handle),
            None => started(uses) == stopped(uses),
        },
    decreases uses.len(),
{
    if uses.len() > 0 {
        at_most_one_server_runs(uses.drop_last());
    }
}

// ---------------------------------------------------------------------------
// The steps of a start
// ---------------------------------------------------------------------------

/// What has come of the steps of a start so far.
pub enum StartEvent<S> {
    /// A server is asked for.
    Asked,
    /// The handle of the server that was running has been taken out and used to stop it.
    OldStopped,
    /// A port has been bound.
    Bound(u16),
    /// No port could be bound.
    BindFailed(S),
}

/// What to do next to start a server.
pub enum StartAction<S> {
    /// Take out the handle of the server that is running, and stop that server with it.
    StopOld,
    /// Bind a port.
    Bind,
    /// Serve on the port: put the new server's handle in, and give its URL.
    Serve(u16),
    /// Give the reason why there is no server.
    Fail(S),
}

impl View for StartEvent<String> {
    type V = StartEvent<Seq<char>>;

    open spec fn view(&self) -> StartEvent<Seq<char>> {
        match *self {
            StartEvent::Asked => StartEvent::Asked,
            StartEvent::OldStopped => StartEvent::OldStopped,
            StartEvent::Bound(port) => StartEvent::Bound(port),
            StartEvent::BindFailed(why) => StartEvent::BindFailed(why@),
        }
    }
}

impl View for StartAction<String> {
    type V = StartAction<Seq<char>>;

    open spec fn view(&self) -> StartAction<Seq<char>> {
        match *self {
            StartAction::StopOld => StartAction::StopOld,
            StartAction::Bind => StartAction::Bind,
            StartAction::Serve(port) => StartAction::Serve(port),
            StartAction::Fail(why) => StartAction::Fail(why@),
        }
    }
}

/// What is done after an event: the old server is stopped first, then a port is bound, and
/// only on a port that was bound there is a new server.
pub open spec fn start_action(event: StartEvent<Seq<char>>) -> StartAction<Seq<char>> {
    match event {
        StartEvent::Asked => StartAction::StopOld,
        StartEvent::OldStopped => StartAction::Bind,
        StartEvent::Bound(port) => StartAction::Serve(port),
        StartEvent::BindFailed(why) => StartAction::Fail(why),
    }
}

/// Takes up what a step of a start came to, and says what to do next.
pub fn start_step(event: StartEvent<String>) -> (r: StartAction<String>)
    ensures
        r@ == start_action(event@),
{
    match event {
        StartEvent::Asked => StartAction::StopOld,
        StartEvent::OldStopped => StartAction::Bind,
        StartEvent::Bound(port) => StartAction::Serve(port),
        StartEvent::BindFailed(why) => StartAction::Fail(why),
    }
}

/// Whether an event can come of an action.
pub open spec fn comes_of(action: StartAction<Seq<char>>, event: StartEvent<Seq<char>>) -> bool {
    match action {
        StartAction::StopOld => event is OldStopped,
        StartAction::Bind => event is Bound || event is BindFailed,
        StartAction::Serve(_) => false,
        StartAction::Fail(_) => false,
    }
}

/// Whether the events are those of one start, from the first to the last.
pub open spec fn is_start(events: Seq<StartEvent<Seq<char>>>) -> bool {
    &&& events.len() > 0
    &&& events[0] is Asked
    &&& forall|i: int|
        0 < i < events.len() ==> comes_of(start_action(events[i - 1]), #[trigger] events[i])
    &&& start_action(events.last()) is Serve || start_action(events.last()) is Fail
}

/// What is done with the slot for the handle, in the course of some events of a start whose
/// new server has the given handle.
pub open spec fn slot_uses<T>(events: Seq<StartEvent<Seq<char>>>, handle: T) -> Seq<SlotUse<T>>
    decreases events.len(),
{
    if events.len() == 0 {
        Seq::empty()
    } else {
        let before = slot_uses(events.drop_last(), handle);
        match start_action(events.last()) {
            StartAction::StopOld => before.push(SlotUse::Retire),
            StartAction::Serve(_) => before.push(SlotUse::Install(handle)),
            _ => before,
        }
    }
}

/// A start stops the old server first: by the time a port is to be bound, every server that
/// was ever started has been stopped. It ends with the new server on the port that was
/// bound, as the only one that is running; or, where none could be bound, with the reason,
/// and with no server at all.
pub proof fn start_stops_the_old_server_first<T>(
    history: Seq<SlotUse<T>>,
    events: Seq<StartEvent<Seq<char>>>,
    handle: T,
)
    requires
        is_start(events),
    ensures
        events.len() == 3,
        start_action(events[0]) is StopOld,
        start_action(events[1]) is Bind,
        ({
            let before = history + slot_uses(events.take(2), handle);
            &&& slot_after(before) is None
            &&& started(before) == started(history)
            &&& stopped(before) == started(history)
        }),
        ({
            let after = history + slot_uses(events, handle);
            match events[2] {
                StartEvent::Bound(port) => {
                    &&& start_action(events[2]) == StartAction::<Seq<char>>::Serve(port)
                    &&& slot_after(after) == Some(handle)
                    &&& started(after) == stopped(after).push(handle)
                    &&& stopped(after) == started(history)
                },
                StartEvent::BindFailed(why) => {
                    &&& start_action(events[2]) == StartAction::Fail(why)
                    &&& slot_after(after) is None
                    &&& started(after) == started(history)
                    &&& stopped(after) == started(history)
                },
                _ => false,
            }
        }),
{
    if events.len() > 1 {
        assert(comes_of(start_action(events[0]), events[1]));
    }
    if events.len() > 2 {
        assert(comes_of(start_action(events[1]), events[2]));
    }
    if events.len() > 3 {
        assert(comes_of(start_action(events[2]), events[3]));
    }
    assert(events.len() == 3);
    let two = events.take(2);
    let one = two.take(1);
    assert(events.drop_last() =~= two);
    assert(two.drop_last() =~= one);
    assert(one.drop_last() =~= Seq::empty());
    assert(one.last() == events[0] && two.last() == events[1]);
    assert(slot_uses(one.drop_last(), handle) =~= Seq::<SlotUse<T>>::empty());
    assert(slot_uses(one, handle) =~= seq![SlotUse::<T>::Retire]);
    let retired = history + slot_uses(two, handle);
    assert(retired =~= history.push(SlotUse::Retire));
    assert(retired.drop_last() =~= history);
    at_most_one_server_runs(history);
    at_most_one_server_runs(retired);
    let after = history + slot_uses(events, handle);
    if events[2] is Bound {
        assert(after =~= retired.push(SlotUse::Install(handle)));
        assert(after.drop_last() =~= retired);
        at_most_one_server_runs(after);
    }
}

// ---------------------------------------------------------------------------
// Where the content comes from
// ---------------------------------------------------------------------------

/// Whether a source is to be opened by the content resolver.
pub open spec fn is_content_uri(source: Seq<char>) -> bool {
    begins_with(source, "content://"@)
}

/// The path of a source that is an ordinary file: without a leading `file://`.
pub open spec fn path_of(source: Seq<char>) -> Seq<char> {
    match without_prefix(source, "file://"@) {
        Some(path) => path,
        None => source,
    }
}

/// Whether a character separates the components of a path on Windows.
pub open spec fn is_separator(c: char) -> bool {
    c == '/' || c == '\\'
}

/// Whether a path begins as those do on Windows that name a share or a device, or that are
/// to be taken verbatim: with two separators.
pub open spec fn has_double_separator(path: Seq<char>) -> bool {
    path.len() >= 2 && is_separator(path[0]) && is_separator(path[1])
}

/// Whether `found` can be the last component of a path, by the rules of Windows or by those
/// of Linux and Android, which know no separator but `/` and no drives.
///
/// On Windows a path that begins with two separators can name a share and nothing in it,
/// and then has no last component. Of one that goes on with `?` or `.`, for a path to be
/// taken verbatim or for a device, it is only said that the component is a part of it.
pub open spec fn may_name(windows: bool, path: Seq<char>, found: Option<Seq<char>>) -> bool {
    if !windows {
        found == file_name_of(path)
    } else if !has_double_separator(path) {
        found == file_name_of(slash_path(path))
    } else if path.len() > 2 && (path[2] == '?' || path[2] == '.') {
        found matches Some(name) ==> name.len() > 0 && exists|at: int| #[trigger]
            occurs_at(path, name, at)
    } else {
        found is None || found == file_name_of(slash_path(path))
    }
}

/// `std::path::Path::file_name` gives the final component of a path by the rules of the
/// platform the program runs on. It passes over repeated separators, `.` and trailing
/// separators, and there is no final component where the path ends in `..`. On Windows a
/// backslash separates components as a slash does, and neither a drive nor a share is a
/// component. The platforms are Windows, Linux and Android; which of them it is, is not said,
/// nor which part of a Windows path for a device, or of one to be taken verbatim, is the
/// component.
#[verifier::external_body]
fn platform_file_name(path: &str) -> (r: Option<String>)
    ensures
        exists|windows: bool| #[trigger] may_name(windows, path@, option_view(r)),
{
    std::path::Path::new(path).file_name().map(|n| n.to_string_lossy().into_owned())
}

/// The last component of a path, by the rules of the platform the program runs on.
pub fn last_component(path: &str) -> (r: Option<String>)
    ensures
        exists|windows: bool| #[trigger] may_name(windows, path@, option_view(r)),
{
    platform_file_name(path)
}

/// The name to show for a file: the one that was found, or `file`.
pub open spec fn shown_name(found: Option<Seq<char>>) -> Seq<char> {
    match found {
        Some(name) => name,
        None => "file"@,
    }
}

/// The name to show for a file: the one that was found, or `file`.
pub fn name_or_default(found: Option<String>) -> (r: String)
    ensures
        r@ == shown_name(option_view(found)),
{
    match found {
        Some(name) => name,
        None => "file".to_owned(),
    }
}

/// Whether a call with the given source, or with the given path, can name the file `found`.
pub open spec fn named<N: Fn(&str) -> Option<String>>(
    content_name: N,
    source: Seq<char>,
    found: Option<Seq<char>>,
) -> bool {
    exists|s: &str, f: Option<String>|
        s@ == source && option_view(f) == found && #[trigger] content_name.ensures((s,), f)
}

/// Whether a call with the given source can end with `outcome`.
pub open spec fn read_as<R: Fn(&str) -> Result<Vec<u8>, String>>(
    read: R,
    source: Seq<char>,
    outcome: Result<Seq<u8>, Seq<char>>,
) -> bool {
    exists|s: &str, o: Result<Vec<u8>, String>|
        s@ == source && bytes_view(o) == outcome && #[trigger] read.ensures((s,), o)
}

/// The view of the outcome of reading bytes.
pub open spec fn bytes_view(o: Result<Vec<u8>, String>) -> Result<Seq<u8>, Seq<char>> {
    match o {
        Ok(bytes) => Ok(bytes@),
        Err(why) => Err(why@),
    }
}

/// Content and name of a file, or why they could not be had.
pub type Fetched = Result<(Vec<u8>, String), String>;

/// The view of what was fetched.
pub open spec fn fetched_view(f: Fetched) -> Result<(Seq<u8>, Seq<char>), Seq<char>> {
    match f {
        Ok((bytes, name)) => Ok((bytes@, name@)),
        Err(why) => Err(why@),
    }
}

/// What is fetched where reading ended with `outcome` and the name is `name`.
pub open spec fn fetched_of(
    outcome: Result<Seq<u8>, Seq<char>>,
    name: Seq<char>,
) -> Result<(Seq<u8>, Seq<char>), Seq<char>> {
    match outcome {
        Ok(bytes) => Ok((bytes, name)),
        Err(why) => Err(why),
    }
}

/// Whether `fetched` can be what is fetched from a source that is an ordinary file: what
/// reading its path gives, under the last component of the path.
pub open spec fn fetches_file<
    L: Fn(&str) -> Option<String>,
    R: Fn(&str) -> Result<Vec<u8>, String>,
>(
    last_component: L,
    read_file: R,
    source: Seq<char>,
    fetched: Result<(Seq<u8>, Seq<char>), Seq<char>>,
) -> bool {
    exists|found: Option<Seq<char>>, outcome: Result<Seq<u8>, Seq<char>>|
        {
            &&& #[trigger] named(last_component, path_of(source), found)
            &&& #[trigger] read_as(read_file, path_of(source), outcome)
            &&& fetched == fetched_of(outcome, shown_name(found))
        }
}

fn with_name(outcome: Result<Vec<u8>, String>, name: String) -> (r: Fetched)
    ensures
        fetched_view(r) == fetched_of(bytes_view(outcome), name@),
{
    match outcome {
        Ok(bytes) => Ok((bytes, name)),
        Err(why) => Err(why),
    }
}

/// Fetches content and name of a shared file. A `content://` URI goes to the content
/// resolver as it is; anything else is the path of an ordinary file, with or without
/// `file://` before it, whose name is what `last_component` finds in it.
pub fn read_source<
    L: Fn(&str) -> Option<String>,
    N: Fn(&str) -> Option<String>,
    C: Fn(&str) -> Result<Vec<u8>, String>,
    R: Fn(&str) -> Result<Vec<u8>, String>,
>(source: &str, last_component: L, content_name: N, read_content: C, read_file: R) -> (r: Fetched)
    requires
        forall|s: &str| #[trigger] last_component.requires((s,)),
        forall|s: &str| #[trigger] content_name.requires((s,)),
        forall|s: &str| #[trigger] read_content.requires((s,)),
        forall|s: &str| #[trigger] read_file.requires((s,)),
    ensures
        is_content_uri(source@) ==> exists|
            found: Option<Seq<char>>,
            outcome: Result<Seq<u8>, Seq<char>>,
        |
            {
                &&& #[trigger] named(content_name, source@, found)
                &&& #[trigger] read_as(read_content, source@, outcome)
                &&& fetched_view(r) == fetched_of(outcome, shown_name(found))
            },
        !is_content_uri(source@) ==> fetches_file(
            last_component,
            read_file,
            source@,
            fetched_view(r),
        ),
{
    match strip_prefix(source, "content://") {
        Some(_) => {
            let found = content_name(source);
            proof {
                assert(named(content_name, source@, option_view(found)));
            }
            let name = name_or_default(found);
            let outcome = read_content(source);
            proof {
                assert(read_as(read_content, source@, bytes_view(outcome)));
            }
            with_name(outcome, name)
        },
        None => {
            let path = match strip_prefix(source, "file://") {
                Some(path) => path,
                None => source.to_owned(),
            };
            let found = last_component(path.as_str());
            proof {
                assert(named(last_component, path_of(source@), option_view(found)));
            }
            let name = name_or_default(found);
            let outcome = read_file(path.as_str());
            proof {
                assert(read_as(read_file, path_of(source@), bytes_view(outcome)));
            }
            with_name(outcome, name)
        },
    }
}

// ---------------------------------------------------------------------------
// The pages
// ---------------------------------------------------------------------------

/// The page that shows a text, up to the text.
pub const SHOW_HEAD: &'static str =
    "<!DOCTYPE html><html><head><meta charset='UTF-8'><meta name='viewport' content='width=device-width,initial-scale=1'><title>SoFast</title></head><body style='text-align:center;padding:40px;font-family:sans-serif;word-break:break-all'><h2>收到文本</h2><p style='font-size:20px'>";

/// The page that shows a text, from behind the text.
pub const SHOW_TAIL: &'static str = "</p></body></html>";

/// The page that offers a file, up to the name in its title.
pub const FILE_TITLE: &'static str =
    "<!DOCTYPE html><html><head><meta charset='UTF-8'><meta name='viewport' content='width=device-width,initial-scale=1'><title>";

/// The page that offers a file, between the name in its title and the name it shows.
pub const FILE_SHOWN: &'static str =
    "</title></head><body style='text-align:center;padding:40px;font-family:sans-serif'><h2>文件已就绪</h2><p>";

/// The page that offers a file, between the name it shows and the content.
pub const FILE_DATA: &'static str = "</p><a href='data:application/octet-stream;base64,";

/// The page that offers a file, between the content and the name to store it under.
pub const FILE_DOWNLOAD: &'static str = "' download='";

/// The page that offers a file, from behind the name to store it under.
pub const FILE_TAIL: &'static str = "'>点击下载</a></body></html>";

/// The page in place of a file that could not be read, up to the reason.
pub const FAILURE_HEAD: &'static str =
    "<!DOCTYPE html><html><head><meta charset='UTF-8'></head><body style='text-align:center;padding:40px;font-family:sans-serif'><h2>文件读取失败</h2><p style='color:#999;font-size:12px'>";

/// The page in place of a file that could not be read, from behind the reason.
pub const FAILURE_TAIL: &'static str = "</p></body></html>";

/// The page that shows a text.
pub open spec fn show_page_of(text: Seq<char>) -> Seq<char> {
    SHOW_HEAD@ + escaped(text) + SHOW_TAIL@
}

/// The page that offers a file: its content is part of the page. The name to store it under
/// stands between apostrophes.
pub open spec fn file_page_of(bytes: Seq<u8>, name: Seq<char>) -> Seq<char> {
    FILE_TITLE@ + escaped(name) + FILE_SHOWN@ + escaped(name) + FILE_DATA@ + base64_of(bytes)
        + FILE_DOWNLOAD@ + quoted(name) + FILE_TAIL@
}

/// The page in place of a file that could not be read.
pub open spec fn failure_page_of(why: Seq<char>) -> Seq<char> {
    FAILURE_HEAD@ + escaped(why) + FAILURE_TAIL@
}

/// The page for a shared file, once it is known what was fetched.
pub open spec fn fetched_page_of(
    fetched: Result<(Seq<u8>, Seq<char>), Seq<char>>,
) -> Seq<char> {
    match fetched {
        Ok((bytes, name)) => file_page_of(bytes, name),
        Err(why) => failure_page_of(why),
    }
}

fn show_page(text: &str) -> (r: String)
    ensures
        r@ == show_page_of(text@),
{
    let mut page = SHOW_HEAD.to_owned();
    page.append(html_escape(text).as_str());
    page.append(SHOW_TAIL);
    page
}

/// The page that offers a file for download: its title and its text show the name, and its
/// link holds the content.
pub fn file_page(bytes: &[u8], name: &str) -> (r: String)
    ensures
        r@ == file_page_of(bytes@, name@),
{
    let safe = html_escape(name);
    let mut page = FILE_TITLE.to_owned();
    page.append(safe.as_str());
    page.append(FILE_SHOWN);
    page.append(safe.as_str());
    page.append(FILE_DATA);
    page.append(encode_base64(bytes).as_str());
    page.append(FILE_DOWNLOAD);
    page.append(quote_escape(name).as_str());
    page.append(FILE_TAIL);
    page
}

/// The page in place of a file that could not be read: it shows the reason.
pub fn failure_page(why: &str) -> (r: String)
    ensures
        r@ == failure_page_of(why@),
{
    let mut page = FAILURE_HEAD.to_owned();
    page.append(html_escape(why).as_str());
    page.append(FAILURE_TAIL);
    page
}

/// The page for a shared file, once it is known what was fetched.
pub fn fetched_page(fetched: &Fetched) -> (r: String)
    ensures
        r@ == fetched_page_of(fetched_view(*fetched)),
{
    match fetched {
        Ok((bytes, name)) => file_page(bytes.as_slice(), name.as_str()),
        Err(why) => failure_page(why.as_str()),
    }
}

/// Whether a call with the given source can fetch `fetched`.
pub open spec fn fetched_as<F: Fn(&str) -> Fetched>(
    fetch: F,
    source: Seq<char>,
    fetched: Result<(Seq<u8>, Seq<char>), Seq<char>>,
) -> bool {
    exists|s: &str, f: Fetched|
        s@ == source && fetched_view(f) == fetched && #[trigger] fetch.ensures((s,), f)
}

/// Whether `page` is the page for what a call with the given source can fetch.
pub open spec fn serves_fetched<F: Fn(&str) -> Fetched>(
    fetch: F,
    source: Seq<char>,
    page: Seq<char>,
) -> bool {
    exists|fetched: Result<(Seq<u8>, Seq<char>), Seq<char>>| #[trigger]
        fetched_as(fetch, source, fetched) && page == fetched_page_of(fetched)
}

/// The page that a request for the root gets: the shared text, or the shared file, which is
/// fetched anew for each request.
pub fn root_handler<F: Fn(&str) -> Fetched>(state: &ServerState, fetch: F) -> (r: String)
    requires
        forall|s: &str| #[trigger] fetch.requires((s,)),
    ensures
        state.mode@ matches Shared::Text(text) ==> r@ == show_page_of(text),
        state.mode@ matches Shared::File(source) ==> serves_fetched(fetch, source, r@),
{
    match &state.mode {
        Mode::Text(text) => show_page(text.as_str()),
        Mode::File(source) => {
            let fetched = fetch(source.as_str());
            let page = fetched_page(&fetched);
            proof {
                let got = fetched_view(fetched);
                assert(fetched_as(fetch, source@, got));
                assert(page@ == fetched_page_of(got));
                assert(serves_fetched(fetch, source@, page@));
            }
            page
        },
    }
}

// ---------------------------------------------------------------------------
// What requests and pages guarantee
// ---------------------------------------------------------------------------

/// A prefixed request shares exactly what stands behind its prefix, whatever that holds.
pub proof fn prefixed_request_is_taken_literally(content: Seq<char>)
    ensures
        shared_by("text:"@ + content) == Shared::Text(content),
        shared_by("file:"@ + content) == Shared::File(content),
{
    reveal_strlit("text:");
    reveal_strlit("file:");
    let text = "text:"@ + content;
    let file = "file:"@ + content;
    assert(text.take("text:"@.len() as int) =~= "text:"@);
    assert(text.skip("text:"@.len() as int) =~= content);
    assert(file.take("file:"@.len() as int) =~= "file:"@);
    assert(file.skip("file:"@.len() as int) =~= content);
    assert(file.take("text:"@.len() as int)[0] == 'f');
    assert("text:"@[0] == 't');
}

/// A path behind `file://` is that path, and is never taken for a content URI; a path that
/// does not itself begin with `file://` stands for itself.
pub proof fn file_url_is_its_path(path: Seq<char>)
    ensures
        path_of("file://"@ + path) == path,
        !is_content_uri("file://"@ + path),
        !begins_with(path, "file://"@) ==> path_of(path) == path,
{
    reveal_strlit("file://");
    reveal_strlit("content://");
    let url = "file://"@ + path;
    assert(url.take("file://"@.len() as int) =~= "file://"@);
    assert(url.skip("file://"@.len() as int) =~= path);
    if is_content_uri(url) {
        assert(url.take("content://"@.len() as int)[0] == url[0]);
        assert("content://"@[0] == 'c');
    }
}

/// Whether a path reads the same on every platform: it holds no backslash, and begins
/// neither with a drive nor with two slashes.
pub open spec fn is_portable(path: Seq<char>) -> bool {
    &&& forall|i: int| 0 <= i < path.len() ==> #[trigger] path[i] != '\\'
    &&& !has_drive(path)
    &&& !has_double_separator(path)
}

/// A portable path has the same last component on every platform.
pub proof fn portable_path_has_one_name(windows: bool, path: Seq<char>, found: Option<Seq<char>>)
    requires
        may_name(windows, path, found),
        is_portable(path),
    ensures
        found == file_name_of(path),
{
    assert(slash_path(path) =~= path);
}

/// Whether reading a path gives the same each time.
pub open spec fn reads_alike<R: Fn(&str) -> Result<Vec<u8>, String>>(read_file: R) -> bool {
    forall|
        path: Seq<char>,
        a: Result<Seq<u8>, Seq<char>>,
        b: Result<Seq<u8>, Seq<char>>,
    | #[trigger]
        read_as(read_file, path, a) && #[trigger] read_as(read_file, path, b) ==> a == b
}

/// Whether a path is given the same name each time.
pub open spec fn names_alike<L: Fn(&str) -> Option<String>>(last_component: L) -> bool {
    forall|path: Seq<char>, a: Option<Seq<char>>, b: Option<Seq<char>>| #[trigger]
        named(last_component, path, a) && #[trigger] named(last_component, path, b) ==> a == b
}

/// A path and the same path behind `file://` are one source: as long as naming and reading
/// give the same each time, they fetch the same content under the same name, or fail alike.
pub proof fn file_url_fetches_the_same<
    L: Fn(&str) -> Option<String>,
    R: Fn(&str) -> Result<Vec<u8>, String>,
>(
    last_component: L,
    read_file: R,
    path: Seq<char>,
    by_url: Result<(Seq<u8>, Seq<char>), Seq<char>>,
    by_path: Result<(Seq<u8>, Seq<char>), Seq<char>>,
)
    requires
        !begins_with(path, "file://"@),
        names_alike(last_component),
        reads_alike(read_file),
        fetches_file(last_component, read_file, "file://"@ + path, by_url),
        fetches_file(last_component, read_file, path, by_path),
    ensures
        !is_content_uri("file://"@ + path),
        by_url == by_path,
{
    file_url_is_its_path(path);
}

/// The paragraph of a page that shows a text holds the text that was shared, and no markup.
pub proof fn show_page_hands_over_the_text(text: Seq<char>)
    ensures
        ({
            let page = show_page_of(text);
            let end = page.len() - SHOW_TAIL@.len();
            let shown = page.subrange(SHOW_HEAD@.len() as int, end);
            &&& unescaped(shown) == text
            &&& forall|i: int| 0 <= i < shown.len() ==> #[trigger] shown[i] != '<'
            &&& page.skip(end) == SHOW_TAIL@
        }),
{
    let page = show_page_of(text);
    let end = page.len() - SHOW_TAIL@.len();
    escaping_loses_nothing(text);
    escaped_text_holds_no_markup(text);
    assert(page.subrange(SHOW_HEAD@.len() as int, end) =~= escaped(text));
    assert(page.skip(end) =~= SHOW_TAIL@);
}

/// The position at which the content begins in the page that offers a file.
pub open spec fn data_start(name: Seq<char>) -> int {
    (FILE_TITLE@ + escaped(name) + FILE_SHOWN@ + escaped(name) + FILE_DATA@).len() as int
}

/// What a phone downloads from the page that offers a file is the file, byte for byte: the
/// link's data reads back as the content, and the quote that ends the link is the first one
/// behind the data's beginning.
pub proof fn file_page_holds_the_file(bytes: Seq<u8>, name: Seq<char>)
    ensures
        ({
            let page = file_page_of(bytes, name);
            let from = data_start(name);
            let to = from + base64_of(bytes).len();
            &&& to < page.len()
            &&& base64_decoded(page.subrange(from, to)) == bytes
            &&& page[to] == '\''
            &&& forall|i: int| from <= i < to ==> #[trigger] page[i] != '\''
        }),
{
    reveal_strlit("' download='");
    let page = file_page_of(bytes, name);
    let front = FILE_TITLE@ + escaped(name) + FILE_SHOWN@ + escaped(name) + FILE_DATA@;
    let data = base64_of(bytes);
    let back = FILE_DOWNLOAD@ + quoted(name) + FILE_TAIL@;
    base64_loses_nothing(bytes);
    base64_stays_quoted(bytes);
    assert(page =~= front + data + back);
    assert(page.subrange(front.len() as int, (front.len() + data.len()) as int) =~= data);
    assert(page[(front.len() + data.len()) as int] == back[0]);
    assert(back[0] == FILE_DOWNLOAD@[0]);
    assert forall|i: int| front.len() <= i < front.len() + data.len() implies #[trigger] page[i]
        != '\'' by {
        assert(page[i] == data[i - front.len()]);
    }
}

/// The position at which the name to store the file under begins in the page that offers it.
pub open spec fn download_name_start(bytes: Seq<u8>, name: Seq<char>) -> int {
    data_start(name) + base64_of(bytes).len() + FILE_DOWNLOAD@.len()
}

/// A phone stores the file under its name, whatever that holds: the attribute that gives the
/// name reads back as the name, the quote that ends it is the first one behind its
/// beginning, and the link's tag ends there.
pub proof fn file_page_gives_the_name(bytes: Seq<u8>, name: Seq<char>)
    ensures
        ({
            let page = file_page_of(bytes, name);
            let from = download_name_start(bytes, name);
            let to = from + quoted(name).len();
            &&& to < page.len()
            &&& unescaped(page.subrange(from, to)) == name
            &&& forall|i: int| from <= i < to ==> #[trigger] page[i] != '\''
            &&& page.skip(to) == FILE_TAIL@
            &&& FILE_TAIL@[0] == '\'' && FILE_TAIL@[1] == '>'
        }),
{
    let page = file_page_of(bytes, name);
    let front = FILE_TITLE@ + escaped(name) + FILE_SHOWN@ + escaped(name) + FILE_DATA@ + base64_of(
        bytes,
    ) + FILE_DOWNLOAD@;
    let given = quoted(name);
    quoting_loses_nothing(name);
    quoted_text_ends_no_attribute(name);
    reveal_strlit("'>点击下载</a></body></html>");
    assert(page =~= front + given + FILE_TAIL@);
    assert(page.subrange(front.len() as int, (front.len() + given.len()) as int) =~= given);
    assert(page.skip((front.len() + given.len()) as int) =~= FILE_TAIL@);
    assert forall|i: int| front.len() <= i < front.len() + given.len() implies #[trigger] page[i]
        != '\'' by {
        assert(page[i] == given[i - front.len()]);
    }
}

/// The title and the paragraph of the page that offers a file both read back as its name,
/// and hold no markup.
pub proof fn file_page_shows_the_name(bytes: Seq<u8>, name: Seq<char>)
    ensures
        ({
            let page = file_page_of(bytes, name);
            let shown = escaped(name);
            let title = FILE_TITLE@.len() as int;
            let paragraph = (title + shown.len() + FILE_SHOWN@.len()) as int;
            &&& page.subrange(title, title + shown.len()) == shown
            &&& page.subrange(paragraph, paragraph + shown.len()) == shown
            &&& unescaped(shown) == name
            &&& forall|i: int| 0 <= i < shown.len() ==> #[trigger] shown[i] != '<'
        }),
{
    let page = file_page_of(bytes, name);
    let shown = escaped(name);
    let title = FILE_TITLE@.len() as int;
    let paragraph = (title + shown.len() + FILE_SHOWN@.len()) as int;
    escaping_loses_nothing(name);
    escaped_text_holds_no_markup(name);
    assert(page.subrange(title, title + shown.len()) =~= shown);
    assert(page.subrange(paragraph, paragraph + shown.len()) =~= shown);
}

/// The paragraph of the page in place of a file reads back as the reason, and holds no
/// markup.
pub proof fn failure_page_shows_the_reason(why: Seq<char>)
    ensures
        ({
            let page = failure_page_of(why);
            let end = page.len() - FAILURE_TAIL@.len();
            let shown = page.subrange(FAILURE_HEAD@.len() as int, end);
            &&& unescaped(shown) == why
            &&& forall|i: int| 0 <= i < shown.len() ==> #[trigger] shown[i] != '<'
            &&& page.skip(end) == FAILURE_TAIL@
        }),
{
    let page = failure_page_of(why);
    let end = page.len() - FAILURE_TAIL@.len();
    escaping_loses_nothing(why);
    escaped_text_holds_no_markup(why);
    assert(page.subrange(FAILURE_HEAD@.len() as int, end) =~= escaped(why));
    assert(page.skip(end) =~= FAILURE_TAIL@);
}

// ---------------------------------------------------------------------------
// What the operations guarantee
// ---------------------------------------------------------------------------

/// A request is what stands behind `text:` or `file:`, all of it; without either it is a text
/// as a whole.
pub proof fn request_is_shared_whole(s: &str, r: Mode, content: Seq<char>)
    requires
        call_ensures(parse_mode, (s,), r),
    ensures
        s@ == "text:"@ + content ==> (r matches Mode::Text(text) && text@ == content),
        s@ == "file:"@ + content ==> (r matches Mode::File(source) && source@ == content),
        (forall|rest: Seq<char>| s@ != #[trigger] ("text:"@ + rest)) && (forall|rest: Seq<char>|
            s@ != #[trigger] ("file:"@ + rest)) ==> (r matches Mode::Text(text) && text@ == s@),
{
    prefixed_request_is_taken_literally(content);
    beginning_leaves_a_rest(s@, "text:"@, content);
    beginning_leaves_a_rest(s@, "file:"@, content);
}

/// A server starts with what its request asks for, and with the URL of its address and port.
pub proof fn started_server_shares_the_request(
    mode_str: &str,
    found: Option<HostAddr>,
    port: u16,
    r: Started,
    mode: Mode,
    url: String,
    receiving: Receiving,
    form: String,
)
    requires
        call_ensures(start, (mode_str, found, port), r),
        call_ensures(parse_mode, (mode_str,), mode),
        call_ensures(server_url, (found, port), url),
        call_ensures(start_receiving, (found, port), receiving),
        call_ensures(get_page, (), form),
    ensures
        mode matches Mode::Text(text) ==> (r.state.mode matches Mode::Text(t) && t@ == text@),
        mode matches Mode::File(source) ==> (r.state.mode matches Mode::File(t) && t@ == source@),
        r.url@ == url@,
        receiving.url@ == url@,
        receiving.page@ == form@,
{
}

/// The steps of a start follow from what the last one came to; port and reason are passed on
/// as they are.
pub proof fn start_goes_step_by_step(event: StartEvent<String>, r: StartAction<String>)
    requires
        call_ensures(start_step, (event,), r),
    ensures
        event is Asked ==> r is StopOld,
        event is OldStopped ==> r is Bind,
        event matches StartEvent::Bound(port) ==> (r matches StartAction::Serve(p) && p == port),
        event matches StartEvent::BindFailed(why) ==> (r matches StartAction::Fail(w) && w@
            == why@),
{
}

/// Every source that is `content://` with anything at all behind it goes to the content
/// resolver, and no other does.
pub proof fn content_uri_is_told_by_its_scheme(source: Seq<char>, rest: Seq<char>)
    ensures
        is_content_uri("content://"@ + rest),
        is_content_uri(source) <==> exists|r: Seq<char>| source == #[trigger] ("content://"@ + r),
{
    beginning_leaves_a_rest(source, "content://"@, rest);
}

/// A file whose name was found is shown under it; one without a name is shown as `file`.
pub proof fn found_name_is_shown(found: Option<String>, r: String)
    requires
        call_ensures(name_or_default, (found,), r),
    ensures
        found matches Some(name) ==> r@ == name@,
        found is None ==> r@ == seq!['f', 'i', 'l', 'e'],
{
    reveal_strlit("file");
    assert("file"@ =~= seq!['f', 'i', 'l', 'e']);
}

/// What is behind a `content://` URI is what the resolver gives for exactly that URI, under
/// the name it gives for it, or its failure; the file system has no part in it.
pub proof fn content_uri_is_read_by_the_resolver<
    L: Fn(&str) -> Option<String>,
    N: Fn(&str) -> Option<String>,
    C: Fn(&str) -> Result<Vec<u8>, String>,
    R: Fn(&str) -> Result<Vec<u8>, String>,
>(
    source: &str,
    last_component: L,
    content_name: N,
    read_content: C,
    read_file: R,
    r: Fetched,
    rest: Seq<char>,
    names: spec_fn(Seq<char>) -> Option<Seq<char>>,
    contents: spec_fn(Seq<char>) -> Option<Seq<u8>>,
    failures: spec_fn(Seq<char>) -> Seq<char>,
)
    requires
        call_ensures(
            read_source::<L, N, C, R>,
            (source, last_component, content_name, read_content, read_file),
            r,
        ),
        source@ == "content://"@ + rest,
        forall|s: &str, o: Option<String>| #[trigger]
            content_name.ensures((s,), o) ==> match o {
                Some(name) => names(s@) == Some(name@),
                None => names(s@) is None,
            },
        forall|s: &str, o: Result<Vec<u8>, String>| #[trigger]
            read_content.ensures((s,), o) ==> match o {
                Ok(bytes) => contents(s@) == Some(bytes@),
                Err(why) => contents(s@) is None && failures(s@) == why@,
            },
    ensures
        match contents(source@) {
            Some(bytes) => r matches Ok((b, name)) && b@ == bytes && name@ == (match names(
                source@,
            ) {
                Some(n) => n,
                None => seq!['f', 'i', 'l', 'e'],
            }),
            None => r matches Err(why) && why@ == failures(source@),
        },
{
    reveal_strlit("file");
    assert("file"@ =~= seq!['f', 'i', 'l', 'e']);
    content_uri_is_told_by_its_scheme(source@, rest);
    let (found, outcome) = choose|
        found: Option<Seq<char>>,
        outcome: Result<Seq<u8>, Seq<char>>,
    |
        {
            &&& #[trigger] named(content_name, source@, found)
            &&& #[trigger] read_as(read_content, source@, outcome)
            &&& fetched_view(r) == fetched_of(outcome, shown_name(found))
        };
    assert(named(content_name, source@, found));
    assert(read_as(read_content, source@, outcome));
}

/// Anything else is the path of a file, without one leading `file://`: it gives what reading
/// that path gives, under what is said to be the path's last component, or the failure; the
/// resolver has no part in it.
pub proof fn path_is_read_as_a_file<
    L: Fn(&str) -> Option<String>,
    N: Fn(&str) -> Option<String>,
    C: Fn(&str) -> Result<Vec<u8>, String>,
    R: Fn(&str) -> Result<Vec<u8>, String>,
>(
    source: &str,
    last_component: L,
    content_name: N,
    read_content: C,
    read_file: R,
    r: Fetched,
    path: Seq<char>,
    names: spec_fn(Seq<char>) -> Option<Seq<char>>,
    contents: spec_fn(Seq<char>) -> Option<Seq<u8>>,
    failures: spec_fn(Seq<char>) -> Seq<char>,
)
    requires
        call_ensures(
            read_source::<L, N, C, R>,
            (source, last_component, content_name, read_content, read_file),
            r,
        ),
        source@ == "file://"@ + path || source@ == path && (forall|rest: Seq<char>|
            path != #[trigger] ("content://"@ + rest)) && (forall|rest: Seq<char>|
            path != #[trigger] ("file://"@ + rest)),
        forall|s: &str, o: Option<String>| #[trigger]
            last_component.ensures((s,), o) ==> match o {
                Some(name) => names(s@) == Some(name@),
                None => names(s@) is None,
            },
        forall|s: &str, o: Result<Vec<u8>, String>| #[trigger]
            read_file.ensures((s,), o) ==> match o {
                Ok(bytes) => contents(s@) == Some(bytes@),
                Err(why) => contents(s@) is None && failures(s@) == why@,
            },
    ensures
        match contents(path) {
            Some(bytes) => r matches Ok((b, name)) && b@ == bytes && name@ == (match names(path) {
                Some(n) => n,
                None => seq!['f', 'i', 'l', 'e'],
            }),
            None => r matches Err(why) && why@ == failures(path),
        },
{
    reveal_strlit("file");
    assert("file"@ =~= seq!['f', 'i', 'l', 'e']);
    content_uri_is_told_by_its_scheme(source@, Seq::empty());
    beginning_leaves_a_rest(path, "file://"@, Seq::empty());
    file_url_is_its_path(path);
    assert(path_of(source@) == path);
    let (found, outcome) = choose|
        found: Option<Seq<char>>,
        outcome: Result<Seq<u8>, Seq<char>>,
    |
        {
            &&& #[trigger] named(last_component, path_of(source@), found)
            &&& #[trigger] read_as(read_file, path_of(source@), outcome)
            &&& fetched_view(r) == fetched_of(outcome, shown_name(found))
        };
    assert(named(last_component, path, found));
    assert(read_as(read_file, path, outcome));
}

/// The page that offers a file is the same for every file but for four parts: the name in the
/// title, in the text and in the link, each of which reads back as it, and the content in
/// the link, which decodes to it.
pub proof fn file_stands_in_its_page(
    bytes: &[u8],
    name: &str,
    page: String,
    shown: String,
    attribute: String,
)
    requires
        call_ensures(file_page, (bytes, name), page),
        call_ensures(html_escape, (name,), shown),
        call_ensures(quote_escape, (name,), attribute),
    ensures
        unescaped(shown@) == name@,
        unescaped(attribute@) == name@,
        exists|data: Seq<char>| #[trigger]
            base64_decoded(data) == bytes@ && page@ == FILE_TITLE@ + shown@ + FILE_SHOWN@ + shown@
                + FILE_DATA@ + data + FILE_DOWNLOAD@ + attribute@ + FILE_TAIL@,
{
    escaping_loses_nothing(name@);
    quoting_loses_nothing(name@);
    base64_loses_nothing(bytes@);
    assert(base64_decoded(base64_of(bytes@)) == bytes@);
}

/// What was fetched is shown as the page of its content and name; a failure is shown with the
/// whole reason, escaped.
pub proof fn fetched_file_is_shown(
    fetched: &Fetched,
    page: String,
    bytes: &[u8],
    name: &str,
    offer: String,
    why: &str,
    failure: String,
    safe: String,
)
    requires
        call_ensures(fetched_page, (fetched,), page),
        call_ensures(file_page, (bytes, name), offer),
        call_ensures(failure_page, (why,), failure),
        call_ensures(html_escape, (why,), safe),
    ensures
        fetched matches Ok((b, n)) && b@ == bytes@ && n@ == name@ ==> page@ == offer@,
        fetched matches Err(w) && w@ == why@ ==> page@ == failure@,
        failure@ == FAILURE_HEAD@ + safe@ + FAILURE_TAIL@,
        unescaped(safe@) == why@,
{
    escaping_loses_nothing(why@);
}

/// A request for the root gets the page of the shared text, which stands in it escaped; or
/// the page of what is fetched, for that request, from exactly the source that is shared.
pub proof fn root_shows_what_is_shared<F: Fn(&str) -> Fetched>(
    state: &ServerState,
    fetch: F,
    page: String,
    text: &str,
    safe: String,
    fetched: &Fetched,
    shown: String,
)
    requires
        call_ensures(root_handler::<F>, (state, fetch), page),
        call_ensures(html_escape, (text,), safe),
        call_ensures(fetched_page, (fetched,), shown),
        state.mode matches Mode::File(source) ==> forall|s: &str, f: Fetched| #[trigger]
            fetch.ensures((s,), f) && s@ == source@ ==> match (f, *fetched) {
                (Ok((a, m)), Ok((b, n))) => a@ == b@ && m@ == n@,
                (Err(v), Err(w)) => v@ == w@,
                _ => false,
            },
    ensures
        state.mode matches Mode::Text(t) && t@ == text@ ==> page@ == SHOW_HEAD@ + safe@
            + SHOW_TAIL@,
        state.mode is File ==> page@ == shown@,
{
    if let Mode::File(source) = state.mode {
        assert(serves_fetched(fetch, source@, page@));
        let got = choose|got: Result<(Seq<u8>, Seq<char>), Seq<char>>| #[trigger]
            fetched_as(fetch, source@, got) && page@ == fetched_page_of(got);
        let (s, f) = choose|s: &str, f: Fetched|
            s@ == source@ && fetched_view(f) == got && #[trigger] fetch.ensures((s,), f);
        assert(fetched_view(f) == fetched_view(*fetched));
    }
}

} // verus!
