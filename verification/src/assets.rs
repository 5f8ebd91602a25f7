//! The page template, its stylesheet, and the table of files served to the
//! webview through the `mdv-asset://` scheme (KaTeX, its fonts, Inter).
use vstd::prelude::*;
use crate::text::{chars_of, eq_chars, push_range, starts_with};

verus! {

/// The page skeleton. `build_page` fills `__TITLE__`, `__STYLE__`,
/// `__BANNERS__` and `__CONTENT__` and puts a class on `<body>`.
pub const HTML_TEMPLATE: &'static str = "<!DOCTYPE html>
<html lang=\"en\">
<head>
<meta charset=\"utf-8\">
<meta name=\"viewport\" content=\"width=device-width, initial-scale=1\">
<title>__TITLE__</title>
<link rel=\"stylesheet\" href=\"mdv-asset://local/katex/katex.min.css\">
<style>__STYLE__</style>
<script src=\"mdv-asset://local/katex/katex.min.js\"></script>
<script src=\"mdv-asset://local/katex/auto-render.min.js\"></script>
</head>
<body>
<nav class=\"mdv-nav\">
<button id=\"mdv-back\" disabled>&lt; BACK</button>
<button id=\"mdv-fwd\" disabled>FORWARD &gt;</button>
</nav>
<div class=\"mdv-banners\">__BANNERS__</div>
<main class=\"mdv-content\" id=\"mdv-content\">__CONTENT__<div id=\"streaming-tail\"></div></main>
<div class=\"mdv-review\" id=\"mdv-review\" hidden>
<textarea id=\"mdv-review-text\" rows=\"2\" placeholder=\"feedback\"></textarea>
<div class=\"mdv-review-buttons\">
<button id=\"mdv-accept\" class=\"mdv-primary\" disabled>ACCEPT</button>
<button id=\"mdv-reject\" disabled>REJECT</button>
</div>
</div>
<script>
(function () {
  function post(msg) {
    if (window.ipc && window.ipc.postMessage) { window.ipc.postMessage(JSON.stringify(msg)); }
  }
  function renderMath(el) {
    if (window.renderMathInElement) {
      window.renderMathInElement(el, {
        delimiters: [
          {left: '$$', right: '$$', display: true},
          {left: '\\\\[', right: '\\\\]', display: true},
          {left: '\\\\(', right: '\\\\)', display: false},
          {left: '$', right: '$', display: false}
        ],
        throwOnError: false
      });
    }
  }
  window.mdv = {
    setHistory: function (back, fwd) {
      document.getElementById('mdv-back').disabled = !back;
      document.getElementById('mdv-fwd').disabled = !fwd;
    },
    enableReview: function () {
      document.body.classList.add('mdv-review-on');
      document.getElementById('mdv-review').hidden = false;
    },
    appendChunk: function (html) {
      var tail = document.getElementById('streaming-tail');
      var part = document.createElement('div');
      part.innerHTML = html;
      tail.appendChild(part);
      renderMath(part);
      post({kind: 'chunk_ack', next: 0});
    },
    streamDone: function () {
      var b = document.querySelector('.mdv-banner-stream');
      if (b) { b.classList.add('mdv-fade'); }
    }
  };
  document.addEventListener('click', function (ev) {
    var a = ev.target.closest ? ev.target.closest('a') : null;
    if (!a) { return; }
    var href = a.getAttribute('href') || '';
    if (href.indexOf('mdv://nav/') === 0) {
      ev.preventDefault();
      var rest = href.substring(10);
      var hash = rest.indexOf('#');
      if (hash >= 0) { rest = rest.substring(0, hash); }
      post({kind: 'nav', target: decodeURIComponent(rest)});
    } else if (/^https?:\\/\\//i.test(href)) {
      ev.preventDefault();
      post({kind: 'nav', target: href});
    }
  });
  document.addEventListener('DOMContentLoaded', function () {
    renderMath(document.getElementById('mdv-content'));
    document.getElementById('mdv-back').onclick = function () { post({kind: 'history', dir: 'back'}); };
    document.getElementById('mdv-fwd').onclick = function () { post({kind: 'history', dir: 'fwd'}); };
    var text = document.getElementById('mdv-review-text');
    var accept = document.getElementById('mdv-accept');
    var reject = document.getElementById('mdv-reject');
    text.oninput = function () {
      var empty = text.value.trim() === '';
      accept.disabled = empty;
      reject.disabled = empty;
      text.rows = Math.min(8, Math.max(2, text.value.split('\\n').length));
    };
    function submit(choice) {
      var msg = {kind: 'review', text: text.value};
      msg.verdict = choice;
      post(msg);
      document.getElementById('mdv-review').innerHTML = '<div class=\"mdv-pill\">&#10003; feedback submitted</div>';
    }
    accept.onclick = function () { submit('accept'); };
    reject.onclick = function () { submit('reject'); };
    post({kind: 'ready'});
  });
})();
</script>
</body>
</html>
";

/// The page stylesheet: a dark theme with tabular numerals.
pub const STYLE_CSS: &'static str = ":root {
  --bg: #0e0f11;
  --surface: #17191c;
  --fg: #e6e6e6;
  --muted: #8a8f98;
  --accent: #ffb000;
  --warn: #ff5c39;
  --code-bg: #2b303b;
}
@font-face { font-family: 'Inter'; src: url('mdv-asset://local/fonts/InterVariable.woff2') format('woff2'); font-style: normal; }
@font-face { font-family: 'Inter'; src: url('mdv-asset://local/fonts/InterVariable-Italic.woff2') format('woff2'); font-style: italic; }
html, body { margin: 0; background: var(--bg); color: var(--fg); }
body { font-family: 'Inter', sans-serif; font-variant-numeric: tabular-nums; line-height: 1.6; }
body.mdv-review-on .mdv-content { padding-bottom: 160px; }
.mdv-nav { position: sticky; top: 0; display: flex; gap: 8px; padding: 8px 24px; background: var(--surface); }
.mdv-nav button, .mdv-review button { background: var(--surface); color: var(--fg); border: 1px solid var(--muted); padding: 4px 12px; font: inherit; }
.mdv-nav button:disabled, .mdv-review button:disabled { opacity: 0.4; }
.mdv-content { max-width: 860px; margin: 0 auto; padding: 24px; }
.mdv-content a { color: var(--accent); }
.mdv-content pre, .mdv-content code { font-family: monospace; }
.mdv-content table { border-collapse: collapse; }
.mdv-content td, .mdv-content th { border: 1px solid var(--muted); padding: 4px 8px; }
.mdv-code pre { padding: 12px; overflow-x: auto; }
pre.plain { white-space: pre; overflow-x: auto; }
.mdv-banner { margin: 0 auto; max-width: 860px; padding: 8px 24px; font-family: monospace; }
.mdv-banner-warn { border-left: 4px solid var(--warn); }
.mdv-banner-stream { border-left: 4px solid var(--accent); transition: opacity 1s; }
.mdv-banner-info { border-left: 4px solid var(--muted); }
.mdv-fade { opacity: 0; }
.mdv-nonrender { margin: 48px auto; max-width: 640px; padding: 24px; background: var(--surface); border: 1px solid var(--warn); font-family: monospace; }
.mdv-nonrender-title { text-transform: uppercase; color: var(--warn); font-weight: bold; }
.mdv-review { position: fixed; left: 0; right: 0; bottom: 0; padding: 12px 24px; background: var(--surface); border-top: 1px solid var(--accent); }
.mdv-review textarea { width: 100%; box-sizing: border-box; word-wrap: break-word; font-variant-numeric: normal; background: var(--bg); color: var(--fg); }
.mdv-review .mdv-primary { border-color: var(--accent); color: var(--accent); }
.mdv-pill { display: inline-block; padding: 4px 12px; border: 1px solid var(--accent); border-radius: 12px; }
";

/// The KaTeX font files, served under `katex/fonts/`.
pub const KATEX_FONTS: [&'static str; 20] = [
    "KaTeX_AMS-Regular.woff2",
    "KaTeX_Caligraphic-Bold.woff2",
    "KaTeX_Caligraphic-Regular.woff2",
    "KaTeX_Fraktur-Bold.woff2",
    "KaTeX_Fraktur-Regular.woff2",
    "KaTeX_Main-BoldItalic.woff2",
    "KaTeX_Main-Bold.woff2",
    "KaTeX_Main-Italic.woff2",
    "KaTeX_Main-Regular.woff2",
    "KaTeX_Math-BoldItalic.woff2",
    "KaTeX_Math-Italic.woff2",
    "KaTeX_SansSerif-Bold.woff2",
    "KaTeX_SansSerif-Italic.woff2",
    "KaTeX_SansSerif-Regular.woff2",
    "KaTeX_Script-Regular.woff2",
    "KaTeX_Size1-Regular.woff2",
    "KaTeX_Size2-Regular.woff2",
    "KaTeX_Size3-Regular.woff2",
    "KaTeX_Size4-Regular.woff2",
    "KaTeX_Typewriter-Regular.woff2",
];

/// A file embedded in the binary; the bytes live with the program, the
/// library names them.
#[derive(Debug, Clone, Copy, PartialEq, Eq)]
pub enum Asset {
    KatexCss,
    KatexJs,
    KatexAutoRender,
    InterVariable,
    InterVariableItalic,
    /// Index into `KATEX_FONTS`.
    KatexFont(usize),
}

pub open spec fn css_mime() -> Seq<char> {
    "text/css; charset=utf-8"@
}

pub open spec fn js_mime() -> Seq<char> {
    "application/javascript; charset=utf-8"@
}

pub open spec fn woff2_mime() -> Seq<char> {
    "font/woff2"@
}

/// `p` without its leading slashes.
pub open spec fn strip_slashes(p: Seq<char>) -> Seq<char>
    decreases p.len(),
{
    if p.len() > 0 && p[0] == '/' {
        strip_slashes(p.drop_first())
    } else {
        p
    }
}

pub open spec fn fonts_prefix() -> Seq<char> {
    "katex/fonts/"@
}

/// Index of the first font in `KATEX_FONTS[i..]` named `name`, or `-1`.
pub open spec fn font_index(name: Seq<char>, i: int) -> int
    decreases 20 - i,
{
    if i < 0 || i >= 20 {
        -1
    } else if KATEX_FONTS[i]@ == name {
        i
    } else {
        font_index(name, i + 1)
    }
}

/// The asset that an `mdv-asset://` path names, and its MIME type.
pub open spec fn resolve_spec(path: Seq<char>) -> Option<(Seq<char>, Asset)> {
    let p = strip_slashes(path);
    if p == "katex/katex.min.css"@ {
        Some((css_mime(), Asset::KatexCss))
    } else if p == "katex/katex.min.js"@ {
        Some((js_mime(), Asset::KatexJs))
    } else if p == "katex/auto-render.min.js"@ {
        Some((js_mime(), Asset::KatexAutoRender))
    } else if p == "fonts/InterVariable.woff2"@ {
        Some((woff2_mime(), Asset::InterVariable))
    } else if p == "fonts/InterVariable-Italic.woff2"@ {
        Some((woff2_mime(), Asset::InterVariableItalic))
    } else if starts_with(p, fonts_prefix()) && font_index(p.skip(fonts_prefix().len() as int), 0)
        >= 0 {
        Some(
            (
                woff2_mime(),
                Asset::KatexFont(font_index(p.skip(fonts_prefix().len() as int), 0) as usize),
            ),
        )
    } else {
        None
    }
}

/// Leading slashes do not matter: `/p` names what `p` names.
pub proof fn law_resolve_ignores_leading_slash(p: Seq<char>)
    ensures
        resolve_spec(seq!['/'] + p) == resolve_spec(p),
{
    assert((seq!['/'] + p).drop_first() =~= p);
}

/// The path, below `mdv-asset://`, of the file each asset is.
pub open spec fn asset_path(a: Asset) -> Seq<char> {
    match a {
        Asset::KatexCss => "katex/katex.min.css"@,
        Asset::KatexJs => "katex/katex.min.js"@,
        Asset::KatexAutoRender => "katex/auto-render.min.js"@,
        Asset::InterVariable => "fonts/InterVariable.woff2"@,
        Asset::InterVariableItalic => "fonts/InterVariable-Italic.woff2"@,
        Asset::KatexFont(i) => "katex/fonts/"@ + KATEX_FONTS[i as int]@,
    }
}

proof fn lemma_font_index(name: Seq<char>, i: int)
    requires
        0 <= i,
    ensures
        font_index(name, i) >= 0 ==> i <= font_index(name, i) < 20 && KATEX_FONTS[font_index(
            name,
            i,
        )]@ == name,
    decreases 20 - i,
{
    if i < 20 && KATEX_FONTS[i]@ != name {
        lemma_font_index(name, i + 1);
    }
}

/// Each path names its own file: whatever a path (leading slashes aside)
/// resolves to is the asset stored at that very path, and its MIME type is
/// the one of the file's extension.
pub proof fn law_resolve_names_its_own_file(path: Seq<char>)
    ensures
        resolve_spec(path) matches Some((mime, a)) ==> {
            &&& strip_slashes(path) == asset_path(a)
            &&& (a matches Asset::KatexFont(i) ==> i < 20)
            &&& mime == (match a {
                Asset::KatexCss => "text/css; charset=utf-8"@,
                Asset::KatexJs | Asset::KatexAutoRender => "application/javascript; charset=utf-8"@,
                _ => "font/woff2"@,
            })
        },
{
    let p = strip_slashes(path);
    let n = fonts_prefix().len() as int;
    lemma_font_index(p.skip(n), 0);
    if resolve_spec(path) is Some && starts_with(p, fonts_prefix()) && font_index(p.skip(n), 0) >= 0 {
        assert(p =~= fonts_prefix() + p.skip(n));
    }
}

/// Two paths that resolve to the same asset are the same path, leading
/// slashes aside: no file is served under another file's name.
pub proof fn law_resolve_is_one_to_one(p: Seq<char>, q: Seq<char>)
    requires
        resolve_spec(p) is Some,
        resolve_spec(q) is Some,
        (resolve_spec(p)->0).1 == (resolve_spec(q)->0).1,
    ensures
        strip_slashes(p) == strip_slashes(q),
{
    law_resolve_names_its_own_file(p);
    law_resolve_names_its_own_file(q);
}

fn find_font(name: &Vec<char>) -> (r: Option<usize>)
    ensures
        match r {
            Some(i) => font_index(name@, 0) == i as int,
            None => font_index(name@, 0) < 0,
        },
{
    let mut i: usize = 0;
    while i < 20
        invariant
            i <= 20,
            font_index(name@, i as int) == font_index(name@, 0),
        decreases 20 - i,
    {
        if eq_chars(name, &chars_of(KATEX_FONTS[i])) {
            return Some(i);
        }
        i = i + 1;
    }
    None
}

/// Resolve an `mdv-asset://` path (leading slashes ignored) to its MIME type
/// and the embedded file; `None` for anything else.
pub fn resolve(path: &str) -> (r: Option<(&'static str, Asset)>)
    ensures
        match r {
            Some((mime, a)) => resolve_spec(path@) == Some((mime@, a)),
            None => resolve_spec(path@) is None,
        },
{
    let s = chars_of(path);
    let mut k: usize = 0;
    assert(s@.skip(0) =~= s@);
    while k < s.len() && s[k] == '/'
        invariant
            k <= s.len(),
            strip_slashes(s@.skip(k as int)) == strip_slashes(s@),
        decreases s.len() - k,
    {
        assert(s@.skip(k as int).drop_first() =~= s@.skip(k + 1));
        k = k + 1;
    }
    let mut p: Vec<char> = Vec::new();
    push_range(&mut p, &s, k, s.len());
    assert(p@ =~= s@.skip(k as int));
    assert(strip_slashes(p@) == p@);
    if eq_chars(&p, &chars_of("katex/katex.min.css")) {
        return Some(("text/css; charset=utf-8", Asset::KatexCss));
    }
    if eq_chars(&p, &chars_of("katex/katex.min.js")) {
        return Some(("application/javascript; charset=utf-8", Asset::KatexJs));
    }
    if eq_chars(&p, &chars_of("katex/auto-render.min.js")) {
        return Some(("application/javascript; charset=utf-8", Asset::KatexAutoRender));
    }
    if eq_chars(&p, &chars_of("fonts/InterVariable.woff2")) {
        return Some(("font/woff2", Asset::InterVariable));
    }
    if eq_chars(&p, &chars_of("fonts/InterVariable-Italic.woff2")) {
        return Some(("font/woff2", Asset::InterVariableItalic));
    }
    let pre = chars_of("katex/fonts/");
    if p.len() >= pre.len() && crate::text::matches_at(&p, 0, &pre) {
        assert(p@.take(pre@.len() as int) =~= p@.subrange(0, pre@.len() as int));
        let mut name: Vec<char> = Vec::new();
        push_range(&mut name, &p, pre.len(), p.len());
        assert(name@ =~= p@.skip(pre@.len() as int));
        if let Some(i) = find_font(&name) {
            return Some(("font/woff2", Asset::KatexFont(i)));
        }
    }
    None
}

} // verus!
