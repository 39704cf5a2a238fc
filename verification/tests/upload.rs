use sf::pages::result_page;
use sf::upload::{Action, Answer, Event, Upload};

fn field(name: Option<&str>, file_name: Option<&str>) -> Event<String> {
    Event::FieldBegan {
        name: name.map(|s| s.to_string()),
        file_name: file_name.map(|s| s.to_string()),
    }
}

fn feed(upload: &mut Upload, event: Event<String>) -> (Vec<String>, Action<String>) {
    assert!(upload.expects(&event));
    let step = upload.step(event);
    (step.console, step.action)
}

fn answer(action: Action<String>) -> Answer<String> {
    match action {
        Action::Give(answer) => answer,
        _ => panic!("an answer was due"),
    }
}

#[test]
fn a_text_is_copied_and_reported() {
    let mut u = Upload::new();
    let (_, action) = feed(&mut u, field(Some("text"), None));
    assert!(matches!(action, Action::ReadText));
    let (console, action) = feed(&mut u, Event::TextRead(" hi\n".to_string()));
    assert_eq!(console, vec!["📝 收到文本:", " hi\n", ""]);
    assert!(matches!(action, Action::CopyText(t) if t == " hi\n"));
    let (_, action) = feed(&mut u, Event::Copied(true));
    assert!(matches!(action, Action::NextField));
    let (_, action) = feed(&mut u, Event::FormEnded);
    let a = answer(action);
    assert_eq!((a.status, a.html, a.done), (200, true, true));
    assert_eq!(a.body, result_page("发送成功", &["文本已复制到电脑剪贴板"]));
}

#[test]
fn a_text_without_a_clipboard_still_counts() {
    let mut u = Upload::new();
    feed(&mut u, field(Some("text"), None));
    feed(&mut u, Event::TextRead("x".to_string()));
    feed(&mut u, Event::Copied(false));
    let a = answer(feed(&mut u, Event::FormEnded).1);
    assert!(a.done);
    assert_eq!(a.body, result_page("发送成功", &["文本已打印在电脑终端（未找到剪贴板工具）"]));
}

#[test]
fn a_file_is_stored_and_reported() {
    let mut u = Upload::new();
    let (_, action) = feed(&mut u, field(Some("file"), Some("a.txt")));
    assert!(matches!(action, Action::ReadFile));
    let (_, action) = feed(&mut u, Event::FileRead(1234));
    assert!(matches!(action, Action::StoreFile(name) if name == "a.txt"));
    let (console, action) = feed(&mut u, Event::Stored("/tmp/a.txt".to_string()));
    assert_eq!(console, vec!["📁 已保存文件: /tmp/a.txt (1234 字节)"]);
    assert!(matches!(action, Action::NextField));
    let a = answer(feed(&mut u, Event::FormEnded).1);
    assert!(a.done);
    assert_eq!(a.body, result_page("发送成功", &["文件已保存到 /tmp/a.txt"]));
}

#[test]
fn an_empty_form_is_answered_as_such() {
    let mut u = Upload::new();
    feed(&mut u, field(Some("text"), None));
    let (console, action) = feed(&mut u, Event::TextRead(" \n\u{3000}".to_string()));
    assert!(console.is_empty());
    assert!(matches!(action, Action::NextField));
    feed(&mut u, field(Some("file"), Some("a.txt")));
    let (_, action) = feed(&mut u, Event::FileRead(0));
    assert!(matches!(action, Action::NextField));
    let a = answer(feed(&mut u, Event::FormEnded).1);
    assert_eq!((a.status, a.html, a.done), (200, true, false));
    assert_eq!(a.body, result_page("没有收到任何内容", &[]));
}

#[test]
fn a_file_that_cannot_be_stored_does_not_count() {
    let mut u = Upload::new();
    feed(&mut u, field(None, Some("a")));
    feed(&mut u, Event::FileRead(1));
    let (_, action) = feed(&mut u, Event::StoringFailed("disk full".to_string()));
    assert!(matches!(action, Action::NextField));
    let a = answer(feed(&mut u, Event::FormEnded).1);
    assert!(!a.done);
    assert_eq!(a.body, result_page("没有收到任何内容", &[]));
}

#[test]
fn failures_are_noted_beside_what_was_received() {
    let mut u = Upload::new();
    feed(&mut u, field(None, Some("a")));
    feed(&mut u, Event::FileRead(1));
    feed(&mut u, Event::StoringFailed("disk full".to_string()));
    feed(&mut u, field(Some("text"), Some("")));
    feed(&mut u, Event::TextRead("t".to_string()));
    feed(&mut u, Event::Copied(true));
    let a = answer(feed(&mut u, Event::FormEnded).1);
    assert_eq!(
        a.body,
        result_page("发送成功", &["保存文件失败: disk full", "文本已复制到电脑剪贴板"])
    );
}

#[test]
fn fields_are_told_apart() {
    let mut u = Upload::new();
    assert!(matches!(feed(&mut u, field(Some("other"), None)).1, Action::NextField));
    assert!(matches!(feed(&mut u, field(None, None)).1, Action::NextField));
    assert!(matches!(feed(&mut u, field(Some("file"), Some(""))).1, Action::NextField));
    assert!(matches!(feed(&mut u, field(Some("text"), Some("f"))).1, Action::ReadFile));
}

#[test]
fn a_form_that_cannot_be_read_is_refused() {
    let mut u = Upload::new();
    let a = answer(feed(&mut u, Event::FormBroken("cut off".to_string())).1);
    assert_eq!((a.status, a.html, a.done), (400, false, false));
    assert_eq!(a.body, "解析上传失败: cut off");

    let mut u = Upload::new();
    feed(&mut u, field(None, Some("a")));
    let a = answer(feed(&mut u, Event::FileBroken("cut off".to_string())).1);
    assert_eq!((a.status, a.body.as_str()), (400, "读取文件失败: cut off"));

    let mut u = Upload::new();
    feed(&mut u, field(Some("text"), None));
    let a = answer(feed(&mut u, Event::TextBroken("cut off".to_string())).1);
    assert_eq!((a.status, a.body.as_str()), (400, "读取文本失败: cut off"));
}

#[test]
fn a_broken_form_does_not_end_the_program_though_something_came() {
    let mut u = Upload::new();
    feed(&mut u, field(Some("text"), None));
    feed(&mut u, Event::TextRead("x".to_string()));
    feed(&mut u, Event::Copied(true));
    let a = answer(feed(&mut u, Event::FormBroken("cut off".to_string())).1);
    assert!(!a.done);
}

#[test]
fn events_are_expected_in_their_turn() {
    let mut u = Upload::new();
    assert!(!u.expects(&Event::FileRead(1)));
    assert!(!u.expects(&Event::Copied(true)));
    assert!(!u.expects(&Event::TextRead(String::new())));
    feed(&mut u, field(None, Some("a")));
    assert!(!u.expects(&Event::FormEnded));
    assert!(u.expects(&Event::FileBroken(String::new())));
    feed(&mut u, Event::FileRead(3));
    assert!(u.expects(&Event::Stored(String::new())));
    feed(&mut u, Event::Stored("a".to_string()));
    feed(&mut u, Event::FormEnded);
    assert!(!u.expects(&Event::FormEnded));
    assert!(!u.expects(&field(None, None)));
}
