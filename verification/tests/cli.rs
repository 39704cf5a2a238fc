use sf::cli::{
    announcement, download_failure, ends_on_reception, farewell, open_failure, parse_args, root,
    serve_file, usage, Mode, RootReply, USAGE_STATUS,
};
use sf::pages::{get_page, text_page};
use std::cell::RefCell;

fn args(words: &[&str]) -> Vec<String> {
    words.iter().map(|w| w.to_string()).collect()
}

fn shown(mode: Option<Mode>) -> String {
    match mode {
        None => "usage".to_string(),
        Some(Mode::Get) => "get".to_string(),
        Some(Mode::File(p)) => format!("file {}", p),
        Some(Mode::Text(t)) => format!("text {}", t),
    }
}

#[test]
fn arguments_choose_the_mode() {
    let is_file = |p: &str| p == "/tmp/a.txt";
    assert_eq!(shown(parse_args(&args(&[]), is_file)), "usage");
    assert_eq!(shown(parse_args(&args(&["get"]), is_file)), "get");
    assert_eq!(shown(parse_args(&args(&["/tmp/a.txt"]), is_file)), "file /tmp/a.txt");
    assert_eq!(shown(parse_args(&args(&["hello"]), is_file)), "text hello");
    assert_eq!(shown(parse_args(&args(&["hello", "world"]), is_file)), "text hello world");
    assert_eq!(shown(parse_args(&args(&["get", "it"]), is_file)), "text get it");
    assert_eq!(shown(parse_args(&args(&["/tmp/a.txt", "x"]), is_file)), "text /tmp/a.txt x");
    assert_eq!(shown(parse_args(&args(&[""]), is_file)), "text ");
}

#[test]
fn only_a_single_word_is_looked_up() {
    let asked: RefCell<Vec<String>> = RefCell::new(Vec::new());
    let is_file = |p: &str| {
        asked.borrow_mut().push(p.to_string());
        true
    };
    parse_args(&args(&["get"]), is_file);
    parse_args(&args(&["a", "b"]), is_file);
    parse_args(&args(&[]), is_file);
    assert!(asked.borrow().is_empty());
    parse_args(&args(&["a"]), is_file);
    assert_eq!(*asked.borrow(), vec!["a"]);
}

#[test]
fn the_usage_lines_explain_the_three_forms() {
    assert_eq!(
        usage(),
        vec![
            "sf —— 用二维码在手机和电脑之间传东西",
            "",
            "用法:",
            "  sf \"消息\"        扫码后把文本复制到手机剪贴板",
            "  sf <文件路径>     扫码后下载文件到手机",
            "  sf get            扫码后把手机上的文本/文件发送到电脑",
        ]
    );
    assert_eq!(USAGE_STATUS, 2);
}

#[test]
fn the_announcement_follows_the_mode() {
    let url = "http://10.0.0.2:80/";
    let lines = announcement(&Mode::File("a/b.txt".to_string()), url);
    assert_eq!(
        lines,
        vec!["", "  🌐 http://10.0.0.2:80/", "", "  📱 用手机扫码下载: a/b.txt", "  按 Ctrl+C 退出", ""]
    );
    assert_eq!(
        announcement(&Mode::Text("x".to_string()), url)[3],
        "  📱 用手机扫码，文本会自动复制到手机剪贴板"
    );
    assert_eq!(
        announcement(&Mode::Get, url)[3],
        "  📱 用手机扫码，粘贴文本或选择文件发送到电脑"
    );
}

#[test]
fn only_a_reception_ends_by_itself() {
    assert!(ends_on_reception(&Mode::Get));
    assert!(!ends_on_reception(&Mode::Text("x".to_string())));
    assert!(!ends_on_reception(&Mode::File("x".to_string())));
    assert_eq!(farewell(&Mode::Get), "✅ 已收到内容，退出。");
    assert_eq!(farewell(&Mode::Text("x".to_string())), "👋 退出。");
}

#[test]
fn the_root_serves_what_the_mode_says() {
    match root(&Mode::Text("<hi>".to_string())) {
        RootReply::Page(page) => assert_eq!(page, text_page("<hi>")),
        RootReply::Download(_) => panic!("a text is a page"),
    }
    match root(&Mode::Get) {
        RootReply::Page(page) => assert_eq!(page, get_page()),
        RootReply::Download(_) => panic!("the form is a page"),
    }
    match root(&Mode::File("a/b".to_string())) {
        RootReply::Page(_) => panic!("a file is no page"),
        RootReply::Download(path) => assert_eq!(path, "a/b"),
    }
}

#[test]
fn a_download_has_its_header() {
    let head = serve_file("/home/me/a b.txt", 1234);
    assert_eq!(head.status, 200);
    assert_eq!(head.content_type, "application/octet-stream");
    assert_eq!(head.content_length, "1234");
    assert_eq!(
        head.content_disposition,
        "attachment; filename=\"a b.txt\"; filename*=UTF-8''a%20b.txt"
    );
}

#[test]
fn a_path_without_a_name_is_offered_as_download() {
    assert_eq!(
        serve_file("..", 0).content_disposition,
        "attachment; filename=\"download\"; filename*=UTF-8''download"
    );
    assert_eq!(serve_file("..", 0).content_length, "0");
}

#[test]
fn a_file_that_cannot_be_read_is_a_server_error() {
    assert_eq!(open_failure("a/b"), "打开文件失败: a/b");
    assert_eq!(
        download_failure(&open_failure("a/b")),
        (500, "读取文件失败: 打开文件失败: a/b".to_string())
    );
}
