//! The command-line tool: what its arguments ask for, what it prints, and what it serves.
use crate::disposition::{content_disposition, disposition_of};
use crate::names::{file_name, file_name_of, last_segment_decides};
use crate::pages::{get_page, text_page, text_page_of, SEND_FORM};
use crate::text::{
    decimal, decimal_is_digits, decimal_reads_back, decimal_text, decimal_value, join, joined,
    same_text, views,
};
use vstd::prelude::*;
#[allow(unused_imports)]
use vstd::string::*;

verus! {

/// What the tool does.
pub enum Mode {
    /// Hands a text to the phone's clipboard.
    Text(String),
    /// Lets the phone download the file at the path.
    File(String),
    /// Receives a text or a file from the phone.
    Get,
}

/// A mode, as the contracts see it.
pub enum AskedMode {
    Text(Seq<char>),
    File(Seq<char>),
    Get,
}

impl View for Mode {
    type V = AskedMode;

    open spec fn view(&self) -> AskedMode {
        match *self {
            Mode::Text(text) => AskedMode::Text(text@),
            Mode::File(path) => AskedMode::File(path@),
            Mode::Get => AskedMode::Get,
        }
    }
}

// ---------------------------------------------------------------------------
// Arguments
// ---------------------------------------------------------------------------

/// The exit status of a call without arguments.
pub const USAGE_STATUS: i32 = 2;

/// The lines that explain the tool to a caller who gave no arguments.
pub open spec fn usage_lines() -> Seq<Seq<char>> {
    seq![
        "sf —— 用二维码在手机和电脑之间传东西"@,
        Seq::empty(),
        "用法:"@,
        "  sf \"消息\"        扫码后把文本复制到手机剪贴板"@,
        "  sf <文件路径>     扫码后下载文件到手机"@,
        "  sf get            扫码后把手机上的文本/文件发送到电脑"@,
    ]
}

/// The lines that explain the tool to a caller who gave no arguments.
pub fn usage() -> (r: Vec<String>)
    ensures
        views(r@) == usage_lines(),
{
    let mut lines: Vec<String> = Vec::new();
    lines.push("sf —— 用二维码在手机和电脑之间传东西".to_owned());
    lines.push(String::new());
    lines.push("用法:".to_owned());
    lines.push("  sf \"消息\"        扫码后把文本复制到手机剪贴板".to_owned());
    lines.push("  sf <文件路径>     扫码后下载文件到手机".to_owned());
    lines.push("  sf get            扫码后把手机上的文本/文件发送到电脑".to_owned());
    proof {
        assert(views(lines@) =~= usage_lines());
    }
    lines
}

/// Whether `is_file` can give `answer` for the given path.
pub open spec fn judged<F: Fn(&str) -> bool>(is_file: F, path: Seq<char>, answer: bool) -> bool {
    exists|p: &str| p@ == path && #[trigger] is_file.ensures((p,), answer)
}

/// Whether the arguments leave open what is meant, until it is known whether there is a
/// file at the path they give.
pub open spec fn may_be_path(args: Seq<Seq<char>>) -> bool {
    args.len() == 1 && args[0] != "get"@
}

/// What the arguments ask for; nothing where there are none. A single argument is the word
/// `get`, or the path of a file where `at_file` says that there is one; everything else is
/// a message, made of all arguments with a space between any two.
pub open spec fn asked_mode(args: Seq<Seq<char>>, at_file: bool) -> Option<AskedMode> {
    if args.len() == 0 {
        None
    } else if args.len() == 1 && args[0] == "get"@ {
        Some(AskedMode::Get)
    } else if args.len() == 1 && at_file {
        Some(AskedMode::File(args[0]))
    } else {
        Some(AskedMode::Text(joined(args, seq![' '])))
    }
}

/// The view of an optional mode.
pub open spec fn mode_view(mode: Option<Mode>) -> Option<AskedMode> {
    match mode {
        Some(m) => Some(m@),
        None => None,
    }
}

/// What the arguments ask for; nothing where there are none, which calls for the usage
/// lines. Only a single argument other than `get` is shown to `is_file`.
pub fn parse_args<F: Fn(&str) -> bool>(args: &[String], is_file: F) -> (r: Option<Mode>)
    requires
        forall|p: &str| #[trigger] is_file.requires((p,)),
    ensures
        if may_be_path(views(args@)) {
            ||| judged(is_file, args@[0]@, true) && mode_view(r) == asked_mode(views(args@), true)
            ||| judged(is_file, args@[0]@, false) && mode_view(r) == asked_mode(
                views(args@),
                false,
            )
        } else {
            mode_view(r) == asked_mode(views(args@), false)
        },
{
    let ghost words = views(args@);
    if args.len() == 0 {
        return None;
    }
    if args.len() == 1 {
        let arg = args[0].as_str();
        proof {
            assert(words[0] == arg@);
        }
        if same_text(arg, "get") {
            return Some(Mode::Get);
        }
        if is_file(arg) {
            proof {
                assert(judged(is_file, args@[0]@, true));
            }
            return Some(Mode::File(arg.to_owned()));
        }
        proof {
            assert(judged(is_file, args@[0]@, false));
        }
    }
    proof {
        reveal_strlit(" ");
        assert(" "@ =~= seq![' ']);
    }
    Some(Mode::Text(join(args, " ")))
}

// ---------------------------------------------------------------------------
// What is printed
// ---------------------------------------------------------------------------

/// The line that says what scanning the code will do.
pub open spec fn hint_of(mode: AskedMode) -> Seq<char> {
    match mode {
        AskedMode::Text(_) => "  📱 用手机扫码，文本会自动复制到手机剪贴板"@,
        AskedMode::File(path) => "  📱 用手机扫码下载: "@ + path,
        AskedMode::Get => "  📱 用手机扫码，粘贴文本或选择文件发送到电脑"@,
    }
}

/// The lines that follow the printed code.
pub open spec fn announcement_of(mode: AskedMode, url: Seq<char>) -> Seq<Seq<char>> {
    seq![
        Seq::empty(),
        "  🌐 "@ + url,
        Seq::empty(),
        hint_of(mode),
        "  按 Ctrl+C 退出"@,
        Seq::empty(),
    ]
}

fn hint(mode: &Mode) -> (r: String)
    ensures
        r@ == hint_of(mode@),
{
    match mode {
        Mode::Text(_) => "  📱 用手机扫码，文本会自动复制到手机剪贴板".to_owned(),
        Mode::File(path) => {
            let mut line = "  📱 用手机扫码下载: ".to_owned();
            line.append(path.as_str());
            line
        },
        Mode::Get => "  📱 用手机扫码，粘贴文本或选择文件发送到电脑".to_owned(),
    }
}

/// The lines that follow the printed code: the URL, what scanning it will do, and how to
/// end the program.
pub fn announcement(mode: &Mode, url: &str) -> (r: Vec<String>)
    ensures
        views(r@) == announcement_of(mode@, url@),
{
    let mut address = "  🌐 ".to_owned();
    address.append(url);
    let mut lines: Vec<String> = Vec::new();
    lines.push(String::new());
    lines.push(address);
    lines.push(String::new());
    lines.push(hint(mode));
    lines.push("  按 Ctrl+C 退出".to_owned());
    lines.push(String::new());
    proof {
        assert(views(lines@) =~= announcement_of(mode@, url@));
    }
    lines
}

/// Whether the program ends by itself once it has received something, rather than running
/// until it is interrupted.
pub fn ends_on_reception(mode: &Mode) -> (r: bool)
    ensures
        r == (mode@ is Get),
{
    match mode {
        Mode::Get => true,
        _ => false,
    }
}

/// The last line that is printed.
pub fn farewell(mode: &Mode) -> (r: String)
    ensures
        r@ == if mode@ is Get {
            "✅ 已收到内容，退出。"@
        } else {
            "👋 退出。"@
        },
{
    if ends_on_reception(mode) {
        "✅ 已收到内容，退出。".to_owned()
    } else {
        "👋 退出。".to_owned()
    }
}

// ---------------------------------------------------------------------------
// What is served
// ---------------------------------------------------------------------------

/// What a request for the root gets.
pub enum RootReply {
    /// An HTML page.
    Page(String),
    /// The file at the path.
    Download(String),
}

/// What a request for the root gets: the page with the text, the form, or the file.
pub fn root(mode: &Mode) -> (r: RootReply)
    ensures
        match mode@ {
            AskedMode::Text(text) => r matches RootReply::Page(page) && page@ == text_page_of(text),
            AskedMode::Get => r matches RootReply::Page(page) && page@ == SEND_FORM@,
            AskedMode::File(path) => r matches RootReply::Download(p) && p@ == path,
        },
{
    match mode {
        Mode::Text(text) => RootReply::Page(text_page(text.as_str())),
        Mode::Get => RootReply::Page(get_page()),
        Mode::File(path) => RootReply::Download(path.clone()),
    }
}

/// The header of a download.
pub struct FileHead {
    pub status: u16,
    pub content_type: String,
    pub content_length: String,
    pub content_disposition: String,
}

/// The name under which the phone is offered the file at a path: the last component of the
/// path, or `download` where it has none.
pub open spec fn offered_name(path: Seq<char>) -> Seq<char> {
    match file_name_of(path) {
        Some(name) => name,
        None => "download"@,
    }
}

/// The header of the download of a file of `len` bytes.
pub fn serve_file(path: &str, len: u64) -> (r: FileHead)
    ensures
        r.status == 200,
        r.content_type@ == "application/octet-stream"@,
        r.content_length@ == decimal(len as nat),
        r.content_disposition@ == disposition_of(offered_name(path@)),
{
    let name = match file_name(path) {
        Some(name) => name,
        None => "download".to_owned(),
    };
    FileHead {
        status: 200,
        content_type: "application/octet-stream".to_owned(),
        content_length: decimal_text(len),
        content_disposition: content_disposition(name.as_str()),
    }
}

/// Why a file could not be opened, as the phone is told.
pub fn open_failure(path: &str) -> (r: String)
    ensures
        r@ == "打开文件失败: "@ + path@,
{
    let mut text = "打开文件失败: ".to_owned();
    text.append(path);
    text
}

/// The answer in place of a file that cannot be read: its status and its text.
pub fn download_failure(why: &str) -> (r: (u16, String))
    ensures
        r.0 == 500,
        r.1@ == "读取文件失败: "@ + why@,
{
    let mut text = "读取文件失败: ".to_owned();
    text.append(why);
    (500, text)
}

// ---------------------------------------------------------------------------
// What the arguments guarantee
// ---------------------------------------------------------------------------

/// Any arguments at all ask for something, and every message is one of two or more words,
/// or a single word that is neither `get` nor the path of a file.
pub proof fn arguments_are_never_refused(args: Seq<Seq<char>>, at_file: bool)
    ensures
        asked_mode(args, at_file) is None <==> args.len() == 0,
        asked_mode(args, at_file) matches Some(AskedMode::Get) <==> args.len() == 1 && args[0]
            == "get"@,
        asked_mode(args, at_file) matches Some(AskedMode::File(_)) <==> may_be_path(args)
            && at_file,
        asked_mode(args, at_file) matches Some(AskedMode::Text(_)) <==> args.len() > 1 || (
        may_be_path(args) && !at_file),
{
}

/// A single word that is a message is handed over as it is.
pub proof fn single_word_is_the_message(word: Seq<char>)
    requires
        word != "get"@,
    ensures
        asked_mode(seq![word], false) == Some(AskedMode::Text(word)),
{
}

/// A message holds every argument, in order, with one space between neighbours: a further
/// word comes behind what there was and a space.
pub proof fn message_holds_every_word(
    args: Seq<Seq<char>>,
    word: Seq<char>,
    at_file: bool,
    message: Seq<char>,
)
    requires
        args.len() >= 1,
        args.len() == 1 ==> message == args[0],
        args.len() > 1 ==> asked_mode(args, at_file) == Some(AskedMode::Text(message)),
    ensures
        asked_mode(args.push(word), at_file) == Some(
            AskedMode::Text(message + seq![' '] + word),
        ),
{
    assert(args.push(word).drop_last() =~= args);
}

/// Two or more arguments are a message, whatever they are: the first, and each further one
/// behind a space. Nothing is looked up.
pub proof fn words_are_sent_as_one_message<F: Fn(&str) -> bool>(
    args: &[String],
    more: &[String],
    is_file: F,
    r: Option<Mode>,
    longer: Option<Mode>,
)
    requires
        call_ensures(parse_args::<F>, (args, is_file), r),
        call_ensures(parse_args::<F>, (more, is_file), longer),
        args@.len() >= 1,
        more@.len() == args@.len() + 1,
        forall|i: int| 0 <= i < args@.len() ==> (#[trigger] more@[i])@ == args@[i]@,
    ensures
        args@.len() == 1 ==> (longer matches Some(Mode::Text(m)) && m@ == args@[0]@ + seq![' ']
            + more@[1]@),
        args@.len() >= 2 ==> (r matches Some(Mode::Text(m)) && longer matches Some(Mode::Text(n))
            && n@ == m@ + seq![' '] + more@.last()@),
{
    let a = views(args@);
    let b = views(more@);
    assert(b =~= a.push(more@.last()@));
    assert(a[0] == args@[0]@);
    if args@.len() == 1 {
        message_holds_every_word(a, more@.last()@, false, a[0]);
    } else {
        message_holds_every_word(a, more@.last()@, false, joined(a, seq![' ']));
    }
}

/// A single argument is the word `get`; or the path of a file, where there is one; or else
/// the message. Without arguments nothing is asked for.
pub proof fn single_argument_is_judged<F: Fn(&str) -> bool>(
    args: &[String],
    is_file: F,
    r: Option<Mode>,
    files: spec_fn(Seq<char>) -> bool,
)
    requires
        call_ensures(parse_args::<F>, (args, is_file), r),
        forall|p: &str, answer: bool| #[trigger]
            is_file.ensures((p,), answer) ==> answer == files(p@),
    ensures
        args@.len() == 0 <==> r is None,
        args@.len() == 1 ==> {
            let word = args@[0]@;
            if word == seq!['g', 'e', 't'] {
                r matches Some(Mode::Get)
            } else if files(word) {
                r matches Some(Mode::File(path)) && path@ == word
            } else {
                r matches Some(Mode::Text(message)) && message@ == word
            }
        },
{
    reveal_strlit("get");
    assert("get"@ =~= seq!['g', 'e', 't']);
    let words = views(args@);
    if args@.len() == 1 {
        assert(words[0] == args@[0]@);
        assert(words =~= seq![words[0]]);
    }
}

/// A file is offered under its name, whether it is given by the bare name or with any
/// directory before it; `download` takes its place only where there is no name.
pub proof fn file_is_offered_under_its_name(dir: Seq<char>, name: Seq<char>, path: Seq<char>)
    requires
        name.len() > 0,
        forall|i: int| 0 <= i < name.len() ==> #[trigger] name[i] != '/',
        name != seq!['.'],
        name != seq!['.', '.'],
    ensures
        offered_name(name) == name,
        offered_name(dir + seq!['/'] + name) == name,
        offered_name(path) == "download"@ ==> file_name_of(path) is None || file_name_of(path)
            == Some("download"@),
{
    last_segment_decides(dir, name);
}

/// The header of a download names the file as the header field for its name does, whatever
/// directory it is in, and gives its length in digits that read back as it.
pub proof fn download_has_name_and_length(
    path: &str,
    len: u64,
    head: FileHead,
    dir: Seq<char>,
    name: &str,
    field: String,
)
    requires
        call_ensures(serve_file, (path, len), head),
        call_ensures(content_disposition, (name,), field),
        name@.len() > 0,
        forall|i: int| 0 <= i < name@.len() ==> #[trigger] name@[i] != '/',
        name@ != seq!['.'],
        name@ != seq!['.', '.'],
        path@ == name@ || path@ == dir + seq!['/'] + name@,
    ensures
        head.content_disposition@ == field@,
        forall|i: int|
            0 <= i < head.content_length@.len() ==> '0' <= #[trigger] head.content_length@[i]
                <= '9',
        head.content_length@.len() > 1 ==> head.content_length@[0] != '0',
        decimal_value(head.content_length@) == len,
        head.status == 200,
{
    file_is_offered_under_its_name(dir, name@, path@);
    decimal_is_digits(len as nat);
    decimal_reads_back(len as nat);
}

/// A path without a last component is offered as `download`.
pub proof fn nameless_path_is_offered_as_download(
    path: &str,
    len: u64,
    head: FileHead,
    name: &str,
    field: String,
    dir: Seq<char>,
)
    requires
        call_ensures(serve_file, (path, len), head),
        call_ensures(content_disposition, (name,), field),
        name@ == "download"@,
        path@.len() == 0 || path@ == seq!['.'] || path@ == seq!['.', '.'] || path@ == dir + seq![
            '/',
            '.',
            '.',
        ],
    ensures
        head.content_disposition@ == field@,
{
    last_segment_decides(dir, seq!['.', '.']);
    last_segment_decides(dir, seq!['.']);
    last_segment_decides(dir, Seq::empty());
    assert(dir + seq!['/', '.', '.'] =~= dir + seq!['/'] + seq!['.', '.']);
    assert(path@.len() == 0 ==> path@ =~= Seq::<char>::empty());
    assert(seq!['.', '.'].len() == 2);
}

/// The printed lines hold the whole URL, and the whole path of a file that is offered.
pub proof fn announcement_holds_url_and_path(mode: &Mode, url: &str, r: Vec<String>)
    requires
        call_ensures(announcement, (mode, url), r),
    ensures
        r@.len() == 6,
        r@[1]@ == "  🌐 "@ + url@,
        mode matches Mode::File(path) ==> r@[3]@ == "  📱 用手机扫码下载: "@ + path@,
        mode matches Mode::Text(_) ==> r@[3]@ == "  📱 用手机扫码，文本会自动复制到手机剪贴板"@,
        mode matches Mode::Get ==> r@[3]@
            == "  📱 用手机扫码，粘贴文本或选择文件发送到电脑"@,
        r@[0]@.len() == 0 && r@[2]@.len() == 0 && r@[5]@.len() == 0,
        r@[4]@ == "  按 Ctrl+C 退出"@,
{
    let lines = views(r@);
    assert(lines == announcement_of(mode@, url@));
    assert(lines[0] == r@[0]@ && lines[1] == r@[1]@ && lines[2] == r@[2]@ && lines[3] == r@[3]@
        && lines[4] == r@[4]@ && lines[5] == r@[5]@);
}

/// A request for the root gets the page of the text that is shared, or the form, or the file
/// at the path that was given.
pub proof fn root_serves_what_is_shared(mode: &Mode, r: RootReply, text: &str, page: String, form: String)
    requires
        call_ensures(root, (mode,), r),
        call_ensures(text_page, (text,), page),
        call_ensures(get_page, (), form),
        mode matches Mode::Text(shared) ==> shared@ == text@,
    ensures
        mode matches Mode::Text(_) ==> (r matches RootReply::Page(p) && p@ == page@),
        mode matches Mode::Get ==> (r matches RootReply::Page(p) && p@ == form@),
        mode matches Mode::File(path) ==> (r matches RootReply::Download(p) && p@ == path@),
{
}

/// Whatever the path, the download is named as the header field for its last component is;
/// as that for `download` where it has none.
pub proof fn download_is_named_by_the_last_component(
    path: &str,
    len: u64,
    head: FileHead,
    found: Option<String>,
    name: &str,
    field: String,
)
    requires
        call_ensures(serve_file, (path, len), head),
        call_ensures(file_name, (path,), found),
        call_ensures(content_disposition, (name,), field),
        found matches Some(f) ==> name@ == f@,
        found is None ==> name@ == "download"@,
    ensures
        head.content_disposition@ == field@,
{
}

} // verus!
