use sf::disposition::content_disposition;

#[test]
fn a_plain_name_stands_twice() {
    assert_eq!(
        content_disposition("report-1.txt"),
        "attachment; filename=\"report-1.txt\"; filename*=UTF-8''report-1.txt"
    );
}

#[test]
fn a_name_outside_ascii_is_encoded() {
    assert_eq!(
        content_disposition("文件 a.txt"),
        "attachment; filename=\"__ a.txt\"; filename*=UTF-8''%E6%96%87%E4%BB%B6%20a.txt"
    );
    assert_eq!(
        content_disposition("é😀"),
        "attachment; filename=\"__\"; filename*=UTF-8''%C3%A9%F0%9F%98%80"
    );
}

#[test]
fn quotes_backslashes_and_controls_are_replaced() {
    assert_eq!(
        content_disposition("a\"b\\c\r\nd\u{7f}"),
        "attachment; filename=\"a_b_c__d_\"; filename*=UTF-8''a%22b%5Cc%0D%0Ad%7F"
    );
}

#[test]
fn the_empty_name_gives_empty_parts() {
    assert_eq!(content_disposition(""), "attachment; filename=\"\"; filename*=UTF-8''");
}

#[test]
fn every_ascii_character_is_treated_by_its_class() {
    for b in 0u8..128 {
        let c = b as char;
        let field = content_disposition(&c.to_string());
        let shown = if c != '"' && c != '\\' && !c.is_control() { c } else { '_' };
        let coded = if c.is_ascii_alphanumeric() || "-._~".contains(c) {
            c.to_string()
        } else {
            format!("%{:02X}", b)
        };
        assert_eq!(
            field,
            format!("attachment; filename=\"{}\"; filename*=UTF-8''{}", shown, coded)
        );
        assert!(field.bytes().all(|x| (0x20..=0x7e).contains(&x)));
    }
}

fn decoded(s: &str) -> String {
    let b = s.as_bytes();
    let mut out: Vec<u8> = Vec::new();
    let mut i = 0;
    while i < b.len() {
        if b[i] == b'%' {
            out.push(u8::from_str_radix(&s[i + 1..i + 3], 16).unwrap());
            i += 3;
        } else {
            out.push(b[i]);
            i += 1;
        }
    }
    String::from_utf8(out).unwrap()
}

#[test]
fn the_name_reads_back_from_its_field() {
    for name in ["a.txt", "100%.txt", "报告 (1).pdf", "a\"b'c\\d\n", "😀", "~-._"] {
        let field = content_disposition(name);
        let at = field.rfind("''").unwrap() + 2;
        assert_eq!(decoded(&field[at..]), name);
    }
}

#[test]
fn fields_are_distinct_and_hold_two_quotes() {
    let names = ["", "_", "\"", "\\", "''", "%27%27", "a''b", "é", "è", "a b", "a_b"];
    for a in names {
        let field = content_disposition(a);
        assert_eq!(field.matches('"').count(), 2);
        assert!(!field.contains('\\'));
        for b in names {
            assert_eq!(field == content_disposition(b), a == b);
        }
    }
}
