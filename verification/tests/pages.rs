use sf::pages::{get_page, result_page, text_page};

const TEXT: &str = r#"<!DOCTYPE html>
<html lang="zh">
<head>
<meta charset="utf-8">
<meta name="viewport" content="width=device-width,initial-scale=1">
<title>sf · 文本</title>
<style>
  *{box-sizing:border-box}
  body{margin:0;padding:20px;background:#111;color:#eee;
       font-family:system-ui,-apple-system,"PingFang SC","Microsoft YaHei",sans-serif}
  .wrap{max-width:640px;margin:0 auto}
  textarea{width:100%;height:40vh;padding:12px;font-size:16px;line-height:1.5;
           border-radius:10px;border:1px solid #444;background:#1c1c1c;color:#eee;resize:vertical}
  button{margin-top:12px;width:100%;padding:15px;font-size:17px;border:0;border-radius:10px;
         background:#3b82f6;color:#fff;font-weight:600}
  button:active{background:#2563eb}
  .ok{margin-top:10px;text-align:center;color:#4ade80;height:1.3em;font-size:15px}
</style>
</head>
<body>
<div class="wrap">
  <textarea id="t" readonly>__TEXT__</textarea>
  <button id="b">复制到剪贴板</button>
  <div class="ok" id="s"></div>
</div>
<script>
var ta = document.getElementById('t');
var st = document.getElementById('s');

function fallbackCopy(){
  ta.removeAttribute('readonly');
  ta.focus();
  ta.select();
  ta.setSelectionRange(0, ta.value.length);
  var ok = false;
  try { ok = document.execCommand('copy'); } catch(e) {}
  ta.setAttribute('readonly','readonly');
  return ok;
}

async function doCopy(){
  var ok = false;
  // HTTP + 局域网 IP 不是 secure context，navigator.clipboard 通常不可用
  try {
    if (navigator.clipboard && window.isSecureContext) {
      await navigator.clipboard.writeText(ta.value);
      ok = true;
    }
  } catch(e) {}
  if (!ok) ok = fallbackCopy();
  st.textContent = ok ? '✓ 已复制到剪贴板' : '✗ 复制失败，请长按文本手动复制';
  st.style.color = ok ? '#4ade80' : '#f87171';
}

document.getElementById('b').addEventListener('click', doCopy);
window.addEventListener('load', doCopy);
</script>
</body>
</html>"#;

const FORM: &str = r#"<!DOCTYPE html>
<html lang="zh">
<head>
<meta charset="utf-8">
<meta name="viewport" content="width=device-width,initial-scale=1">
<title>sf · 发送到电脑</title>
<style>
  *{box-sizing:border-box}
  body{margin:0;padding:20px;background:#111;color:#eee;
       font-family:system-ui,-apple-system,"PingFang SC","Microsoft YaHei",sans-serif}
  .wrap{max-width:640px;margin:0 auto}
  h1{font-size:20px;margin:0 0 16px}
  textarea{width:100%;height:30vh;padding:12px;font-size:16px;line-height:1.5;
           border-radius:10px;border:1px solid #444;background:#1c1c1c;color:#eee;resize:vertical}
  .file{margin:16px 0;padding:18px;border:1px dashed #555;border-radius:10px;text-align:center}
  .file .tip{margin-bottom:10px;color:#aaa;font-size:14px}
  input[type=file]{width:100%;color:#eee;font-size:15px}
  button{margin-top:8px;width:100%;padding:15px;font-size:17px;border:0;border-radius:10px;
         background:#3b82f6;color:#fff;font-weight:600}
  button:active{background:#2563eb}
  button:disabled{background:#555}
</style>
</head>
<body>
<div class="wrap">
  <h1>发送到电脑</h1>
  <form id="f" method="POST" action="/upload" enctype="multipart/form-data">
    <textarea name="text" placeholder="在这里粘贴文本…"></textarea>
    <div class="file">
      <div class="tip">或者选择一个文件</div>
      <input type="file" name="file">
    </div>
    <button type="submit" id="b">发送</button>
  </form>
</div>
<script>
document.getElementById('f').addEventListener('submit', function(){
  var b = document.getElementById('b');
  b.disabled = true;
  b.textContent = '发送中…';
});
</script>
</body>
</html>"#;

const RESULT: &str = r#"<!DOCTYPE html>
<html lang="zh">
<head>
<meta charset="utf-8">
<meta name="viewport" content="width=device-width,initial-scale=1">
<title>sf · 完成</title>
<style>
  body{margin:0;padding:40px 20px;background:#111;color:#eee;text-align:center;
       font-family:system-ui,-apple-system,"PingFang SC","Microsoft YaHei",sans-serif}
  .big{font-size:52px;margin-bottom:8px}
  h1{font-size:20px;margin:0 0 20px}
  p{color:#aaa;font-size:15px;word-break:break-all;margin:6px 0}
</style>
</head>
<body>
  <div class="big">✅</div>
  <h1>__TITLE__</h1>
  __BODY__
</body>
</html>"#;

fn escaped(s: &str) -> String {
    s.replace('&', "&amp;").replace('<', "&lt;").replace('>', "&gt;").replace('"', "&quot;")
}

fn report(title: &str, lines: &[&str]) -> String {
    let body: String = lines.iter().map(|l| format!("<p>{}</p>", escaped(l))).collect();
    RESULT.replace("__TITLE__", &escaped(title)).replace("__BODY__", &body)
}

#[test]
fn the_text_stands_escaped_in_its_page() {
    for text in ["", "hello", "</textarea><script>", "a & \"b\"", "__TEXT__", "多行\n文本"] {
        assert_eq!(text_page(text), TEXT.replace("__TEXT__", &escaped(text)));
    }
}

#[test]
fn the_form_is_fixed() {
    assert_eq!(get_page(), FORM);
}

#[test]
fn the_report_holds_title_and_lines() {
    assert_eq!(result_page("没有收到任何内容", &[]), report("没有收到任何内容", &[]));
    assert_eq!(
        result_page("发送成功", &["文件已保存到 /tmp/<a>", "b & c"]),
        report("发送成功", &["文件已保存到 /tmp/<a>", "b & c"])
    );
    assert!(result_page("t", &["a<b"]).contains("<h1>t</h1>\n  <p>a&lt;b</p>\n</body>"));
}

#[test]
fn a_body_mark_in_the_title_is_filled_too() {
    for title in ["__BODY__", "x__BODY__y", "____BODY____", "__BODY____BODY__", "__BODY", "__TITLE__"] {
        assert_eq!(result_page(title, &["l", "m"]), report(title, &["l", "m"]));
    }
}

#[test]
fn a_body_mark_in_a_line_is_left_alone() {
    assert_eq!(result_page("t", &["__BODY__"]), report("t", &["__BODY__"]));
}
