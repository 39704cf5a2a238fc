use sf::content_uri::{
    append_chunk, check_stream, content_uri_filename, display_name_step, read_content_uri,
    ContentError, NameAction, NameEvent, NAME_COLUMN,
};

#[test]
fn without_a_resolver_there_is_no_content() {
    match read_content_uri("content://x/1") {
        Err(why) => {
            assert!(matches!(&why, ContentError::Unsupported(uri) if uri == "content://x/1"));
            assert_eq!(why.message(), "当前平台不支持 content:// URI: content://x/1");
        }
        Ok(_) => panic!("no resolver here"),
    }
    assert_eq!(content_uri_filename("content://x/1"), None);
}

#[test]
fn a_missing_stream_is_an_error() {
    assert!(check_stream(false).is_ok());
    match check_stream(true) {
        Err(why) => assert_eq!(why.message(), "无法打开文件流（URI 可能无效或权限不足）"),
        Ok(()) => panic!("there is no stream"),
    }
}

#[test]
fn chunks_are_collected_until_the_end() {
    let mut acc: Vec<u8> = Vec::new();
    assert!(append_chunk(&mut acc, &[1, 2, 3, 4], 4));
    assert!(append_chunk(&mut acc, &[5, 6, 3, 4], 2));
    assert!(!append_chunk(&mut acc, &[5, 6, 3, 4], -1));
    assert!(!append_chunk(&mut acc, &[5, 6, 3, 4], 0));
    assert_eq!(acc, vec![1, 2, 3, 4, 5, 6]);
}

fn shown(action: NameAction<String>) -> String {
    match action {
        NameAction::MoveToFirst => "move".to_string(),
        NameAction::FindColumn => "find".to_string(),
        NameAction::ReadColumn(i) => format!("read {}", i),
        NameAction::Finish { name, close } => format!("finish {:?} {}", name, close),
    }
}

#[test]
fn the_name_is_read_step_by_step() {
    assert_eq!(shown(display_name_step(NameEvent::Queried { is_null: false })), "move");
    assert_eq!(shown(display_name_step(NameEvent::Moved(true))), "find");
    assert_eq!(shown(display_name_step(NameEvent::Column(0))), "read 0");
    assert_eq!(
        shown(display_name_step(NameEvent::Read(Some("a.jpg".to_string())))),
        "finish Some(\"a.jpg\") true"
    );
    assert_eq!(NAME_COLUMN, "_display_name");
}

fn searched(
    is_null: Option<bool>,
    row: Option<bool>,
    column: Option<i32>,
    cell: Option<Option<&str>>,
) -> (Option<String>, bool) {
    let mut event = match is_null {
        Some(is_null) => NameEvent::Queried { is_null },
        None => NameEvent::CallFailed,
    };
    loop {
        event = match display_name_step(event) {
            NameAction::MoveToFirst => row.map_or(NameEvent::CallFailed, NameEvent::Moved),
            NameAction::FindColumn => column.map_or(NameEvent::CallFailed, NameEvent::Column),
            NameAction::ReadColumn(index) => {
                assert_eq!(Some(index), column);
                match cell {
                    Some(name) => NameEvent::Read(name.map(|n| n.to_string())),
                    None => NameEvent::CallFailed,
                }
            }
            NameAction::Finish { name, close } => return (name, close),
        };
    }
}

#[test]
fn a_name_comes_out_exactly_where_there_is_one() {
    for is_null in [None, Some(true), Some(false)] {
        for row in [None, Some(true), Some(false)] {
            for column in [None, Some(-1), Some(0), Some(5)] {
                for cell in [None, Some(None), Some(Some("a.jpg"))] {
                    let (name, close) = searched(is_null, row, column, cell);
                    let there = is_null == Some(false)
                        && row == Some(true)
                        && column.map_or(false, |i| i >= 0)
                        && cell == Some(Some("a.jpg"));
                    assert_eq!(name, there.then_some("a.jpg".to_string()));
                    let failed = row.is_none()
                        || row == Some(true) && column.is_none()
                        || row == Some(true) && column.unwrap_or(-1) >= 0 && cell.is_none();
                    assert_eq!(close, is_null == Some(false) && !failed);
                }
            }
        }
    }
}

#[test]
fn every_way_without_a_name_ends() {
    assert_eq!(shown(display_name_step(NameEvent::CallFailed)), "finish None false");
    assert_eq!(shown(display_name_step(NameEvent::Queried { is_null: true })), "finish None false");
    assert_eq!(shown(display_name_step(NameEvent::Moved(false))), "finish None true");
    assert_eq!(shown(display_name_step(NameEvent::Column(-1))), "finish None true");
    assert_eq!(shown(display_name_step(NameEvent::Read(None))), "finish None true");
}
