use sf::network::HostAddr;
use sf::server::{
    failure_page, fetched_page, file_page, last_component, name_or_default, parse_mode, read_source, root_handler,
    start, start_receiving, start_step, Fetched, Mode, ServerState, ServiceSlot, StartAction,
    StartEvent,
};
use std::cell::RefCell;

fn shown(mode: &Mode) -> String {
    match mode {
        Mode::Text(t) => format!("text {}", t),
        Mode::File(s) => format!("file {}", s),
    }
}

#[test]
fn requests_are_told_apart_by_their_prefix() {
    assert_eq!(shown(&parse_mode("text:hello")), "text hello");
    assert_eq!(shown(&parse_mode("file:/a/b")), "file /a/b");
    assert_eq!(shown(&parse_mode("file:content://x/1")), "file content://x/1");
    assert_eq!(shown(&parse_mode("hello")), "text hello");
    assert_eq!(shown(&parse_mode("text:file:x")), "text file:x");
    assert_eq!(shown(&parse_mode("")), "text ");
    assert_eq!(shown(&parse_mode("Text:x")), "text Text:x");
}

#[test]
fn a_server_starts_with_mode_and_url() {
    let s = start("file:/a", Some(HostAddr { a: 10, b: 1, c: 2, d: 3 }), 8080);
    assert_eq!(shown(&s.state.mode), "file /a");
    assert_eq!(s.url, "http://10.1.2.3:8080/");
    let s = start("hi", None, 1);
    assert_eq!(shown(&s.state.mode), "text hi");
    assert_eq!(s.url, "http://127.0.0.1:1/");
}

#[test]
fn a_new_server_displaces_the_old_one() {
    let mut slot: ServiceSlot<u32> = ServiceSlot::new();
    assert_eq!(slot.retire(), None);
    assert_eq!(slot.install(1), None);
    assert_eq!(slot.retire(), Some(1));
    assert_eq!(slot.retire(), None);
    assert_eq!(slot.install(2), None);
    assert_eq!(slot.install(3), Some(2));
    assert_eq!(slot.retire(), Some(3));
}

fn fetch(source: &str, read: Result<Vec<u8>, String>, name: Option<&str>) -> (Fetched, Vec<String>) {
    let log: RefCell<Vec<String>> = RefCell::new(Vec::new());
    let fetched = read_source(
        source,
        last_component,
        |s: &str| {
            log.borrow_mut().push(format!("name {}", s));
            name.map(|n| n.to_string())
        },
        |s: &str| {
            log.borrow_mut().push(format!("content {}", s));
            read.clone()
        },
        |s: &str| {
            log.borrow_mut().push(format!("file {}", s));
            read.clone()
        },
    );
    (fetched, log.into_inner())
}

#[test]
fn a_content_uri_goes_to_the_resolver() {
    let uri = "content://media/1";
    let (fetched, log) = fetch(uri, Ok(vec![1, 2]), Some("照片.jpg"));
    assert_eq!(fetched, Ok((vec![1, 2], "照片.jpg".to_string())));
    assert_eq!(log, vec!["name content://media/1", "content content://media/1"]);
    let (fetched, _) = fetch(uri, Ok(vec![]), None);
    assert_eq!(fetched, Ok((vec![], "file".to_string())));
    let (fetched, _) = fetch(uri, Err("no".to_string()), Some("x"));
    assert_eq!(fetched, Err("no".to_string()));
}

#[test]
fn anything_else_is_a_file() {
    let (fetched, log) = fetch("/home/me/a.txt", Ok(vec![7]), Some("unused"));
    assert_eq!(fetched, Ok((vec![7], "a.txt".to_string())));
    assert_eq!(log, vec!["file /home/me/a.txt"]);
    let (fetched, log) = fetch("file:///home/me/a.txt/", Ok(vec![7]), None);
    assert_eq!(fetched, Ok((vec![7], "a.txt".to_string())));
    assert_eq!(log, vec!["file /home/me/a.txt/"]);
    let (fetched, _) = fetch("file://..", Ok(vec![]), None);
    assert_eq!(fetched, Ok((vec![], "file".to_string())));
    let (fetched, _) = fetch("a", Err("not found".to_string()), None);
    assert_eq!(fetched, Err("not found".to_string()));
}

#[test]
fn a_missing_name_is_file() {
    assert_eq!(name_or_default(None), "file");
    assert_eq!(name_or_default(Some("a".to_string())), "a");
}

#[test]
fn a_text_is_shown_escaped() {
    let state = ServerState { mode: Mode::Text("<b>&".to_string()) };
    let page = root_handler(&state, |_: &str| panic!("nothing to fetch"));
    assert_eq!(
        page,
        "<!DOCTYPE html><html><head><meta charset='UTF-8'>\
         <meta name='viewport' content='width=device-width,initial-scale=1'>\
         <title>SoFast</title></head>\
         <body style='text-align:center;padding:40px;font-family:sans-serif;word-break:break-all'>\
         <h2>收到文本</h2><p style='font-size:20px'>&lt;b&gt;&amp;</p></body></html>"
    );
}

#[test]
fn a_file_is_offered_with_its_content() {
    let state = ServerState { mode: Mode::File("src".to_string()) };
    let page = root_handler(&state, |s: &str| {
        assert_eq!(s, "src");
        Ok((b"hello world~".to_vec(), "a<b.txt".to_string()))
    });
    assert_eq!(
        page,
        "<!DOCTYPE html><html><head><meta charset='UTF-8'>\
         <meta name='viewport' content='width=device-width,initial-scale=1'>\
         <title>a&lt;b.txt</title></head>\
         <body style='text-align:center;padding:40px;font-family:sans-serif'>\
         <h2>文件已就绪</h2><p>a&lt;b.txt</p>\
         <a href='data:application/octet-stream;base64,aGVsbG8gd29ybGR+' download='a&lt;b.txt'>\
         点击下载</a></body></html>"
    );
}

#[test]
fn a_failure_is_shown_escaped() {
    let state = ServerState { mode: Mode::File("src".to_string()) };
    let page = root_handler(&state, |_: &str| Err("<none>".to_string()));
    assert_eq!(
        page,
        "<!DOCTYPE html><html><head><meta charset='UTF-8'></head>\
         <body style='text-align:center;padding:40px;font-family:sans-serif'>\
         <h2>文件读取失败</h2><p style='color:#999;font-size:12px'>&lt;none&gt;</p></body></html>"
    );
    assert_eq!(page, failure_page("<none>"));
    assert_eq!(page, fetched_page(&Err("<none>".to_string())));
}

fn data_of(bytes: &[u8]) -> String {
    let page = file_page(bytes, "n");
    let from = page.find("base64,").unwrap() + 7;
    let to = from + page[from..].find('\'').unwrap();
    page[from..to].to_string()
}

#[test]
fn contents_are_in_standard_base64() {
    assert_eq!(data_of(b""), "");
    assert_eq!(data_of(b"f"), "Zg==");
    assert_eq!(data_of(b"fo"), "Zm8=");
    assert_eq!(data_of(b"foo"), "Zm9v");
    assert_eq!(data_of(b"foob"), "Zm9vYg==");
    assert_eq!(data_of(b"fooba"), "Zm9vYmE=");
    assert_eq!(data_of(b"foobar"), "Zm9vYmFy");
    assert_eq!(data_of(&[0xff, 0xfe, 0xfd, 0xfb]), "//79+w==");
}

fn six_bits(v: u8) -> char {
    let alphabet = b"ABCDEFGHIJKLMNOPQRSTUVWXYZabcdefghijklmnopqrstuvwxyz0123456789+/";
    alphabet[v as usize] as char
}

#[test]
fn long_contents_follow_the_same_rule() {
    for n in 0..200usize {
        let bytes: Vec<u8> = (0..n).map(|i| (i * 37 + n * 11) as u8).collect();
        let mut expected = String::new();
        for part in bytes.chunks(3) {
            let a = part[0];
            let b = if part.len() > 1 { part[1] } else { 0 };
            let c = if part.len() > 2 { part[2] } else { 0 };
            expected.push(six_bits(a / 4));
            expected.push(six_bits(a % 4 * 16 + b / 16));
            expected.push(if part.len() > 1 { six_bits(b % 16 * 4 + c / 64) } else { '=' });
            expected.push(if part.len() > 2 { six_bits(c % 64) } else { '=' });
        }
        assert_eq!(data_of(&bytes), expected);
    }
}

#[test]
fn the_link_reads_back_as_the_file() {
    for n in [0usize, 1, 2, 3, 26, 27, 1000] {
        let bytes: Vec<u8> = (0..n).map(|i| (i * 101 + 7) as u8).collect();
        let engine = &base64::engine::general_purpose::STANDARD;
        assert_eq!(base64::Engine::decode(engine, data_of(&bytes)).unwrap(), bytes);
    }
}

#[test]
fn the_name_stands_in_the_download_attribute() {
    let page = file_page(b"x", "a \"b\" & c.txt");
    assert!(page.contains("download='a &quot;b&quot; &amp; c.txt'>"));
}

#[test]
fn an_apostrophe_in_the_name_does_not_end_the_attribute() {
    let page = file_page(b"x", "a'b.txt");
    assert!(page.contains("<title>a'b.txt</title>"));
    assert!(page.contains("<p>a'b.txt</p>"));
    assert!(page.contains(" download='a&#39;b.txt'>点击下载</a>"));
    let page = file_page(b"x", "x' onclick='alert(1)");
    let from = page.find("download='").unwrap() + 10;
    let to = from + page[from..].find('\'').unwrap();
    assert_eq!(&page[from..to], "x&#39; onclick=&#39;alert(1)");
    assert!(page[to..].starts_with("'>"));
}

#[test]
fn names_read_back_from_the_page() {
    for name in ["a'b.txt", "<'\"&\">", "&#39;", "''", "plain"] {
        let page = file_page(b"x", name);
        let from = page.find("download='").unwrap() + 10;
        let to = from + page[from..].find('\'').unwrap();
        let back = page[from..to]
            .replace("&#39;", "'")
            .replace("&quot;", "\"")
            .replace("&gt;", ">")
            .replace("&lt;", "<")
            .replace("&amp;", "&");
        assert_eq!(back, name);
    }
}

#[test]
fn a_receiving_server_shows_the_form() {
    let r = start_receiving(Some(HostAddr { a: 10, b: 1, c: 2, d: 3 }), 8080);
    assert_eq!(r.page, sf::pages::get_page());
    assert_eq!(r.url, "http://10.1.2.3:8080/");
    assert_eq!(start_receiving(None, 1).url, "http://127.0.0.1:1/");
}

#[test]
fn a_file_url_fetches_what_its_path_does() {
    for path in ["/a/b.txt", "b", "/", "..", "a\\b", "C:\\a\\b.txt", "C:/a", "//h/s/f", "a:b/c"] {
        let (by_path, log) = fetch(path, Ok(vec![1]), None);
        let (by_url, url_log) = fetch(&format!("file://{}", path), Ok(vec![1]), None);
        assert_eq!(by_path, by_url);
        assert_eq!(log, url_log);
        assert_eq!(log, vec![format!("file {}", path)]);
        let expected = std::path::Path::new(path).file_name().map(|n| n.to_string_lossy().into_owned());
        assert_eq!(by_path, Ok((vec![1], expected.unwrap_or("file".to_string()))));
    }
}

#[test]
fn the_name_is_what_the_last_component_is_said_to_be() {
    let asked: RefCell<Vec<String>> = RefCell::new(Vec::new());
    let fetched = read_source(
        "file://C:\\a\\b.txt",
        |p: &str| {
            asked.borrow_mut().push(p.to_string());
            Some("b.txt".to_string())
        },
        |_: &str| panic!("no content URI"),
        |_: &str| panic!("no content URI"),
        |_: &str| Ok(vec![9]),
    );
    assert_eq!(fetched, Ok((vec![9], "b.txt".to_string())));
    assert_eq!(asked.into_inner(), vec!["C:\\a\\b.txt"]);
}

#[test]
fn last_components_are_those_of_the_platform() {
    for p in ["/a/b.txt", "a/b/", "..", "", "a\\b", "C:\\x", "//h/s/f"] {
        let expected = std::path::Path::new(p).file_name().map(|n| n.to_string_lossy().into_owned());
        assert_eq!(last_component(p), expected);
    }
}

#[test]
fn a_start_stops_the_old_server_before_it_binds() {
    for bound in [Ok(8080), Err("in use".to_string())] {
        let mut slot: ServiceSlot<u32> = ServiceSlot::new();
        slot.install(1);
        let mut log: Vec<String> = Vec::new();
        let mut event: StartEvent<String> = StartEvent::Asked;
        loop {
            event = match start_step(event) {
                StartAction::StopOld => {
                    log.push(format!("stop {:?}", slot.retire()));
                    StartEvent::OldStopped
                }
                StartAction::Bind => {
                    log.push("bind".to_string());
                    match &bound {
                        Ok(port) => StartEvent::Bound(*port),
                        Err(why) => StartEvent::BindFailed(why.clone()),
                    }
                }
                StartAction::Serve(port) => {
                    log.push(format!("serve {}", port));
                    assert_eq!(slot.install(2), None);
                    break;
                }
                StartAction::Fail(why) => {
                    log.push(format!("fail {}", why));
                    break;
                }
            };
        }
        match bound {
            Ok(_) => {
                assert_eq!(log, vec!["stop Some(1)", "bind", "serve 8080"]);
                assert_eq!(slot.retire(), Some(2));
            }
            Err(_) => {
                assert_eq!(log, vec!["stop Some(1)", "bind", "fail in use"]);
                assert_eq!(slot.retire(), None);
            }
        }
    }
}
