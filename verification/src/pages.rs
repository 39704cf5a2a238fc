//! The pages that a phone is shown.
use crate::escape::{
    escaped, escaping_loses_nothing, html_escape, unescaped, word_comes_from_the_text,
};
use crate::text::{occurs_at, replace_all, replaced, replaced_without_occurrence, slice_views};
use vstd::prelude::*;
#[allow(unused_imports)]
use vstd::string::*;

verus! {

/// The page that hands over a text, up to the text.
pub const TEXT_HEAD: &'static str = r#"<!DOCTYPE html>
<html lang="zh">
<head>
<meta charset="utf-8">
<meta name="viewport" content="width=device-width,initial-scale=1">
<title>sf · 文本</title>
<style>
  *{box-sizing:border-box}
  body{margin:0;padding:20px;background:#111;color:#eee;
       font-family:system-ui,-apple-system,"PingFang SC","Microsoft YaHei",sans-serif}
  .wrap{max-width:640px;margin:0 auto}
  textarea{width:100%;height:40vh;padding:12px;font-size:16px;line-height:1.5;
           border-radius:10px;border:1px solid #444;background:#1c1c1c;color:#eee;resize:vertical}
  button{margin-top:12px;width:100%;padding:15px;font-size:17px;border:0;border-radius:10px;
         background:#3b82f6;color:#fff;font-weight:600}
  button:active{background:#2563eb}
  .ok{margin-top:10px;text-align:center;color:#4ade80;height:1.3em;font-size:15px}
</style>
</head>
<body>
<div class="wrap">
  <textarea id="t" readonly>"#;

/// The page that hands over a text, from behind the text.
pub const TEXT_TAIL: &'static str = r#"</textarea>
  <button id="b">复制到剪贴板</button>
  <div class="ok" id="s"></div>
</div>
<script>
var ta = document.getElementById('t');
var st = document.getElementById('s');

function fallbackCopy(){
  ta.removeAttribute('readonly');
  ta.focus();
  ta.select();
  ta.setSelectionRange(0, ta.value.length);
  var ok = false;
  try { ok = document.execCommand('copy'); } catch(e) {}
  ta.setAttribute('readonly','readonly');
  return ok;
}

async function doCopy(){
  var ok = false;
  // HTTP + 局域网 IP 不是 secure context，navigator.clipboard 通常不可用
  try {
    if (navigator.clipboard && window.isSecureContext) {
      await navigator.clipboard.writeText(ta.value);
      ok = true;
    }
  } catch(e) {}
  if (!ok) ok = fallbackCopy();
  st.textContent = ok ? '✓ 已复制到剪贴板' : '✗ 复制失败，请长按文本手动复制';
  st.style.color = ok ? '#4ade80' : '#f87171';
}

document.getElementById('b').addEventListener('click', doCopy);
window.addEventListener('load', doCopy);
</script>
</body>
</html>"#;

/// The page with the form that sends a text or a file to the computer.
pub const SEND_FORM: &'static str = r#"<!DOCTYPE html>
<html lang="zh">
<head>
<meta charset="utf-8">
<meta name="viewport" content="width=device-width,initial-scale=1">
<title>sf · 发送到电脑</title>
<style>
  *{box-sizing:border-box}
  body{margin:0;padding:20px;background:#111;color:#eee;
       font-family:system-ui,-apple-system,"PingFang SC","Microsoft YaHei",sans-serif}
  .wrap{max-width:640px;margin:0 auto}
  h1{font-size:20px;margin:0 0 16px}
  textarea{width:100%;height:30vh;padding:12px;font-size:16px;line-height:1.5;
           border-radius:10px;border:1px solid #444;background:#1c1c1c;color:#eee;resize:vertical}
  .file{margin:16px 0;padding:18px;border:1px dashed #555;border-radius:10px;text-align:center}
  .file .tip{margin-bottom:10px;color:#aaa;font-size:14px}
  input[type=file]{width:100%;color:#eee;font-size:15px}
  button{margin-top:8px;width:100%;padding:15px;font-size:17px;border:0;border-radius:10px;
         background:#3b82f6;color:#fff;font-weight:600}
  button:active{background:#2563eb}
  button:disabled{background:#555}
</style>
</head>
<body>
<div class="wrap">
  <h1>发送到电脑</h1>
  <form id="f" method="POST" action="/upload" enctype="multipart/form-data">
    <textarea name="text" placeholder="在这里粘贴文本…"></textarea>
    <div class="file">
      <div class="tip">或者选择一个文件</div>
      <input type="file" name="file">
    </div>
    <button type="submit" id="b">发送</button>
  </form>
</div>
<script>
document.getElementById('f').addEventListener('submit', function(){
  var b = document.getElementById('b');
  b.disabled = true;
  b.textContent = '发送中…';
});
</script>
</body>
</html>"#;

/// The page that reports on an upload, up to its title.
pub const RESULT_HEAD: &'static str = r#"<!DOCTYPE html>
<html lang="zh">
<head>
<meta charset="utf-8">
<meta name="viewport" content="width=device-width,initial-scale=1">
<title>sf · 完成</title>
<style>
  body{margin:0;padding:40px 20px;background:#111;color:#eee;text-align:center;
       font-family:system-ui,-apple-system,"PingFang SC","Microsoft YaHei",sans-serif}
  .big{font-size:52px;margin-bottom:8px}
  h1{font-size:20px;margin:0 0 20px}
  p{color:#aaa;font-size:15px;word-break:break-all;margin:6px 0}
</style>
</head>
<body>
  <div class="big">✅</div>
  <h1>"#;

/// The page that reports on an upload, between its title and its lines.
pub const RESULT_MIDDLE: &'static str = r#"</h1>
  "#;

/// The page that reports on an upload, from behind its lines.
pub const RESULT_TAIL: &'static str = r#"
</body>
</html>"#;

/// The mark for which the lines of a report are put in.
pub const BODY_MARK: &'static str = "__BODY__";

/// The page that hands over a text.
pub open spec fn text_page_of(text: Seq<char>) -> Seq<char> {
    TEXT_HEAD@ + escaped(text) + TEXT_TAIL@
}

/// The page that hands over a text: it holds the text, escaped, in its text area.
pub fn text_page(text: &str) -> (r: String)
    ensures
        r@ == text_page_of(text@),
{
    let mut page = TEXT_HEAD.to_owned();
    page.append(html_escape(text).as_str());
    page.append(TEXT_TAIL);
    page
}

/// The page with the form that sends a text or a file to the computer.
pub fn get_page() -> (r: String)
    ensures
        r@ == SEND_FORM@,
{
    SEND_FORM.to_owned()
}

/// One line of a report as a paragraph.
pub open spec fn paragraph(line: Seq<char>) -> Seq<char> {
    "<p>"@ + escaped(line) + "</p>"@
}

/// The lines of a report, each a paragraph, one behind the other.
pub open spec fn paragraphs(lines: Seq<Seq<char>>) -> Seq<char>
    decreases lines.len(),
{
    if lines.len() == 0 {
        Seq::empty()
    } else {
        paragraphs(lines.drop_last()) + paragraph(lines.last())
    }
}

/// The page that reports on an upload. The lines are put in for every body mark: for the
/// one between the two last parts of the page, and for any that the title itself holds.
pub open spec fn result_page_of(title: Seq<char>, lines: Seq<Seq<char>>) -> Seq<char> {
    RESULT_HEAD@ + replaced(escaped(title), BODY_MARK@, paragraphs(lines)) + RESULT_MIDDLE@
        + paragraphs(lines) + RESULT_TAIL@
}

fn paragraphs_text(lines: &[&str]) -> (r: String)
    ensures
        r@ == paragraphs(slice_views(lines@)),
{
    let mut out = String::new();
    let ghost all = slice_views(lines@);
    for i in 0..lines.len()
        invariant
            all == slice_views(lines@),
            out@ == paragraphs(all.take(i as int)),
    {
        let ghost before = out@;
        out.append("<p>");
        out.append(html_escape(lines[i]).as_str());
        out.append("</p>");
        proof {
            assert(all.take(i + 1).drop_last() =~= all.take(i as int));
            assert(out@ =~= before + paragraph(all[i as int]));
        }
    }
    proof {
        assert(all.take(lines@.len() as int) =~= all);
    }
    out
}

/// The page that reports on an upload: its title, and one paragraph for each line.
pub fn result_page(title: &str, lines: &[&str]) -> (r: String)
    ensures
        r@ == result_page_of(title@, slice_views(lines@)),
{
    let body = paragraphs_text(lines);
    let mut page = RESULT_HEAD.to_owned();
    proof {
        reveal_strlit("__BODY__");
    }
    page.append(replace_all(html_escape(title).as_str(), BODY_MARK, body.as_str()).as_str());
    page.append(RESULT_MIDDLE);
    page.append(body.as_str());
    page.append(RESULT_TAIL);
    page
}

// ---------------------------------------------------------------------------
// What the pages guarantee
// ---------------------------------------------------------------------------

/// What stands in the text area of a text page, with its entities read back, is the text that
/// was shared, whatever it holds; and the fixed parts of the page are those of every text page.
pub proof fn text_page_hands_over_the_text(text: Seq<char>)
    ensures
        ({
            let page = text_page_of(text);
            let end = page.len() - TEXT_TAIL@.len();
            &&& page.take(TEXT_HEAD@.len() as int) == TEXT_HEAD@
            &&& unescaped(page.subrange(TEXT_HEAD@.len() as int, end)) == text
            &&& page.skip(end) == TEXT_TAIL@
        }),
{
    let page = text_page_of(text);
    let end = page.len() - TEXT_TAIL@.len();
    escaping_loses_nothing(text);
    assert(page.take(TEXT_HEAD@.len() as int) =~= TEXT_HEAD@);
    assert(page.subrange(TEXT_HEAD@.len() as int, end) =~= escaped(text));
    assert(page.skip(end) =~= TEXT_TAIL@);
}

/// A title that does not hold the body mark stands in the report as it is, escaped.
pub proof fn report_shows_its_title(title: Seq<char>, lines: Seq<Seq<char>>)
    requires
        forall|at: int| !occurs_at(title, BODY_MARK@, at),
    ensures
        result_page_of(title, lines) == RESULT_HEAD@ + escaped(title) + RESULT_MIDDLE@
            + paragraphs(lines) + RESULT_TAIL@,
{
    reveal_strlit("__BODY__");
    assert forall|at: int| !occurs_at(escaped(title), BODY_MARK@, at) by {
        if occurs_at(escaped(title), BODY_MARK@, at) {
            word_comes_from_the_text(title, BODY_MARK@, at);
        }
    }
    replaced_without_occurrence(escaped(title), BODY_MARK@, paragraphs(lines));
}

/// The lines of a report are paragraphs in their order: a further line is one more paragraph
/// behind the others, and reads back as the line.
pub proof fn further_line_is_a_further_paragraph(lines: Seq<Seq<char>>, line: Seq<char>)
    ensures
        paragraphs(Seq::empty()).len() == 0,
        paragraphs(lines.push(line)) == paragraphs(lines) + "<p>"@ + escaped(line) + "</p>"@,
        unescaped(escaped(line)) == line,
{
    escaping_loses_nothing(line);
    assert(lines.push(line).drop_last() =~= lines);
    assert(paragraphs(lines) + paragraph(line) =~= paragraphs(lines) + "<p>"@ + escaped(line)
        + "</p>"@);
}

/// The page that hands over a text is the same for every text but for the text itself, which
/// stands in it escaped.
pub proof fn text_stands_in_its_page(text: &str, page: String, safe: String)
    requires
        call_ensures(text_page, (text,), page),
        call_ensures(html_escape, (text,), safe),
    ensures
        page@ == TEXT_HEAD@ + safe@ + TEXT_TAIL@,
        unescaped(safe@) == text@,
{
    escaping_loses_nothing(text@);
}

/// A report with one line more is the same page with one more paragraph at its end, in which
/// the line stands escaped; one without lines holds just its title.
pub proof fn report_holds_every_line(
    title: &str,
    lines: &[&str],
    more: &[&str],
    page: String,
    longer: String,
    safe_title: String,
    safe_line: String,
)
    requires
        call_ensures(result_page, (title, lines), page),
        call_ensures(result_page, (title, more), longer),
        call_ensures(html_escape, (title,), safe_title),
        more@.len() == lines@.len() + 1,
        forall|i: int| 0 <= i < lines@.len() ==> (#[trigger] more@[i])@ == lines@[i]@,
        call_ensures(html_escape, (more@[more@.len() - 1],), safe_line),
        forall|at: int| !occurs_at(title@, BODY_MARK@, at),
    ensures
        lines@.len() == 0 ==> page@ == RESULT_HEAD@ + safe_title@ + RESULT_MIDDLE@ + RESULT_TAIL@,
        page@.len() >= RESULT_TAIL@.len(),
        longer@ == page@.take(page@.len() - RESULT_TAIL@.len()) + "<p>"@ + safe_line@ + "</p>"@
            + RESULT_TAIL@,
{
    let a = slice_views(lines@);
    let b = slice_views(more@);
    let line = more@[more@.len() - 1]@;
    assert(b =~= a.push(line));
    report_shows_its_title(title@, a);
    report_shows_its_title(title@, b);
    further_line_is_a_further_paragraph(a, line);
    let front = RESULT_HEAD@ + escaped(title@) + RESULT_MIDDLE@ + paragraphs(a);
    assert(page@ == front + RESULT_TAIL@);
    assert(page@.take(page@.len() - RESULT_TAIL@.len()) =~= front);
    assert(longer@ =~= front + "<p>"@ + escaped(line) + "</p>"@ + RESULT_TAIL@);
    if lines@.len() == 0 {
        assert(a =~= Seq::empty());
        assert(front =~= RESULT_HEAD@ + escaped(title@) + RESULT_MIDDLE@);
    }
}

} // verus!
