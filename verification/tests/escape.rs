use sf::escape::{html_escape, quote_escape};

#[test]
fn the_four_characters_become_entities() {
    assert_eq!(
        html_escape("<a href=\"x\">R&D</a>"),
        "&lt;a href=&quot;x&quot;&gt;R&amp;D&lt;/a&gt;"
    );
}

#[test]
fn entities_are_escaped_once() {
    assert_eq!(html_escape("&lt;"), "&amp;lt;");
    assert_eq!(html_escape("&amp;amp;"), "&amp;amp;amp;");
}

#[test]
fn other_characters_are_left_alone() {
    assert_eq!(html_escape(""), "");
    assert_eq!(html_escape("it's 100% 文本 😀\n"), "it's 100% 文本 😀\n");
}

#[test]
fn escaping_is_four_replacements_in_turn() {
    let samples = ["<&>\"", "a&b<c>d\"e'f", "&&&&", "\"<<>>\"", "文&本", "plain", "&quot;<"];
    for s in samples {
        let in_turn = s
            .replace('&', "&amp;")
            .replace('<', "&lt;")
            .replace('>', "&gt;")
            .replace('"', "&quot;");
        assert_eq!(html_escape(s), in_turn);
    }
}

#[test]
fn escaped_text_reads_back() {
    let s = "<p class=\"a\">1 & 2 &lt; 3</p>";
    let back = html_escape(s)
        .replace("&quot;", "\"")
        .replace("&gt;", ">")
        .replace("&lt;", "<")
        .replace("&amp;", "&");
    assert_eq!(back, s);
}

#[test]
fn escaped_text_holds_no_markup() {
    let escaped = html_escape("<<>>\"\"&&'");
    assert!(!escaped.contains('<') && !escaped.contains('>') && !escaped.contains('"'));
    for (at, _) in escaped.match_indices('&') {
        let tail = &escaped[at..];
        assert!(["&amp;", "&lt;", "&gt;", "&quot;"].iter().any(|e| tail.starts_with(e)));
    }
}

#[test]
fn parts_are_escaped_like_the_whole() {
    let whole = "a<b&c\"d";
    for at in 0..=whole.len() {
        let (front, back) = whole.split_at(at);
        assert_eq!(html_escape(whole), html_escape(front) + &html_escape(back));
    }
}

#[test]
fn quoted_text_holds_no_quotes() {
    assert_eq!(quote_escape("it's \"<b>\" & 'c'"), "it&#39;s &quot;&lt;b&gt;&quot; &amp; &#39;c&#39;");
    assert_eq!(quote_escape("&#39;"), "&amp;#39;");
    assert_eq!(quote_escape(""), "");
    for s in ["plain", "a<b", "a & \"b\"", "文件"] {
        assert_eq!(quote_escape(s), html_escape(s));
    }
}
