//! The render pipeline's results: a document's title, body HTML, banners and
//! streaming state; the page around them; and the chunks that stream the
//! rest of a large document.
use vstd::prelude::*;
use crate::assets::{HTML_TEMPLATE, STYLE_CSS};
use crate::html::{escape_html, escape_html_chars};
use crate::markdown::md_to_html_spec;
use crate::paths::{file_name, file_name_exec};
use crate::size::{human_size, human_size_spec, kilobytes, one_decimal, f64_of};
use crate::text::{
    chars_of, decimal, decimal_chars, join, lemma_join_push, line_at, lines, lines_from, push_all,
    replace_all, replace_all_exec, replace_first, replace_first_exec, string_of, string_views,
};
use crate::warnings::warnings_spec;

pub use crate::classify::{classify, Classification, DocKind, SNIFF_BYTES};
pub use crate::html::html_escape;
pub use crate::markdown::md_to_html;
pub use crate::warnings::detect_warnings;

verus! {

/// Files above this size stream in chunks.
pub const STREAM_THRESHOLD: u64 = 524288;

/// Lines rendered at once for a streamed document.
pub const STREAM_INITIAL_LINES: usize = 400;

/// Lines per later streamed chunk.
pub const STREAM_CHUNK_LINES: usize = 200;

#[derive(Debug, Clone, Copy)]
pub enum BannerLevel {
    Warn,
    Stream,
    Info,
}

/// A notice shown above the content.
#[derive(Debug, Clone)]
pub struct Banner {
    pub level: BannerLevel,
    pub text: String,
}

impl View for Banner {
    type V = (BannerLevel, Seq<char>);

    open spec fn view(&self) -> (BannerLevel, Seq<char>) {
        (self.level, self.text@)
    }
}

/// Progress of a document that streams: its size, the lines already shown,
/// and all its lines.
#[derive(Debug, Clone)]
pub struct StreamState {
    pub total_bytes: u64,
    pub emitted_lines: usize,
    pub total_lines: usize,
}

/// A rendered document, ready to go into the page.
pub struct RenderResult {
    pub title: String,
    pub body_html: String,
    pub banners: Vec<Banner>,
    pub streaming: Option<StreamState>,
}

pub struct RenderSpec {
    pub title: Seq<char>,
    pub body: Seq<char>,
    pub banners: Seq<(BannerLevel, Seq<char>)>,
    pub streaming: Option<StreamState>,
}

impl View for RenderResult {
    type V = RenderSpec;

    open spec fn view(&self) -> RenderSpec {
        RenderSpec {
            title: self.title@,
            body: self.body_html@,
            banners: self.banners@.map_values(|b: Banner| b@),
            streaming: self.streaming,
        }
    }
}

// ---------------------------------------------------------------------------
// Specifications
// ---------------------------------------------------------------------------
/// The window title of the document at `path`: its file name, else `mdv`.
pub open spec fn title_spec(path: Seq<char>) -> Seq<char> {
    match file_name(path) {
        Some(n) => n,
        None => "mdv"@,
    }
}

/// The card shown for a file that is neither markdown nor text.
pub open spec fn nonrender_card_spec(path: Seq<char>, label: Seq<char>, size: u64) -> Seq<char> {
    "<div class=\"mdv-nonrender\"><div class=\"mdv-nonrender-title\">[ NON-RENDERABLE ]</div><dl><dt>kind</dt><dd>"@
        + escape_html(label) + "</dd><dt>size</dt><dd>"@ + human_size_spec(size as nat)
        + "</dd><dt>path</dt><dd>"@ + escape_html(path)
        + "</dd></dl><p>mdv displays markdown and text files. this file is neither.</p></div>"@
}

pub open spec fn plain_notice() -> Seq<char> {
    "plain text - no markdown structure detected"@
}

pub open spec fn min_nat(a: nat, b: nat) -> nat {
    if a < b {
        a
    } else {
        b
    }
}

/// The streaming banner: lines shown of all lines, and the size in KB.
pub open spec fn stream_notice(emitted: nat, total: nat, bytes: u64) -> Seq<char> {
    "STREAMING - "@ + decimal(emitted) + " of "@ + decimal(total) + " lines ("@ + one_decimal(
        f64_of(bytes as nat),
        1024,
    ) + " KB)"@
}

pub open spec fn warn_banners(ws: Seq<Seq<char>>) -> Seq<(BannerLevel, Seq<char>)> {
    ws.map_values(|w: Seq<char>| (BannerLevel::Warn, w))
}

/// A markdown document of `size` bytes with text `raw`: a file above the
/// streaming threshold shows its first 400 lines now and streams the rest;
/// parse notices come first among the banners, the streaming banner last.
pub open spec fn render_markdown_spec(path: Seq<char>, size: u64, raw: Seq<char>) -> RenderSpec {
    let ls = lines(raw);
    let total = ls.len();
    let shown = min_nat(STREAM_INITIAL_LINES as nat, total);
    let streams = size > STREAM_THRESHOLD;
    let initial = if streams {
        join(ls.take(shown as int), seq!['\n'])
    } else {
        raw
    };
    RenderSpec {
        title: title_spec(path),
        body: md_to_html_spec(initial, path),
        banners: warn_banners(warnings_spec(raw)) + if streams {
            seq![(BannerLevel::Stream, stream_notice(shown, total, size))]
        } else {
            Seq::<(BannerLevel, Seq<char>)>::empty()
        },
        streaming: if streams {
            Some(
                StreamState {
                    total_bytes: size,
                    emitted_lines: shown as usize,
                    total_lines: total as usize,
                },
            )
        } else {
            None
        },
    }
}

/// A classified file at `path` whose text (when it is text) is `contents`.
pub open spec fn render_file_spec(path: Seq<char>, kind: DocKind, size: u64, contents: Seq<char>) -> RenderSpec {
    match kind {
        DocKind::NonText { label } => RenderSpec {
            title: title_spec(path),
            body: nonrender_card_spec(path, label@, size),
            banners: seq![],
            streaming: None,
        },
        DocKind::PlainText => RenderSpec {
            title: title_spec(path),
            body: "<pre class=\"plain\">"@ + escape_html(contents) + "</pre>"@,
            banners: seq![(BannerLevel::Info, plain_notice())],
            streaming: None,
        },
        DocKind::Markdown => render_markdown_spec(path, size, contents),
    }
}

pub open spec fn banner_class(l: BannerLevel) -> Seq<char> {
    match l {
        BannerLevel::Warn => "mdv-banner-warn"@,
        BannerLevel::Stream => "mdv-banner-stream"@,
        BannerLevel::Info => "mdv-banner-info"@,
    }
}

pub open spec fn banner_prefix(l: BannerLevel) -> Seq<char> {
    match l {
        BannerLevel::Warn => "[ PARSE NOTICES ] "@,
        BannerLevel::Stream => seq![],
        BannerLevel::Info => "[ NOTE ] "@,
    }
}

pub open spec fn banner_html(b: (BannerLevel, Seq<char>)) -> Seq<char> {
    "<div class=\"mdv-banner "@ + banner_class(b.0) + "\"><b>"@ + banner_prefix(b.0) + "</b>"@
        + escape_html(b.1) + "</div>"@
}

pub open spec fn banners_html(bs: Seq<(BannerLevel, Seq<char>)>) -> Seq<char>
    decreases bs.len(),
{
    if bs.len() == 0 {
        seq![]
    } else {
        banners_html(bs.drop_last()) + banner_html(bs.last())
    }
}

/// The banner section is one banner div per banner, in order: the section
/// for two lists one after the other is the section of the first followed by
/// that of the second.
pub proof fn law_banners_concatenate(a: Seq<(BannerLevel, Seq<char>)>, b: Seq<(BannerLevel, Seq<char>)>)
    ensures
        banners_html(a + b) == banners_html(a) + banners_html(b),
    decreases b.len(),
{
    if b.len() == 0 {
        assert(a + b =~= a);
    } else {
        law_banners_concatenate(a, b.drop_last());
        assert((a + b).drop_last() =~= a + b.drop_last());
        assert((a + b).last() == b.last());
    }
}

/// The section for a single banner is its div: the level's class, the
/// level's prefix in bold, and the notice escaped; none is the empty section.
pub proof fn law_banner_div(b: (BannerLevel, Seq<char>))
    ensures
        banners_html(seq![b]) == "<div class=\"mdv-banner "@ + banner_class(b.0) + "\"><b>"@
            + banner_prefix(b.0) + "</b>"@ + escape_html(b.1) + "</div>"@,
        banners_html(Seq::<(BannerLevel, Seq<char>)>::empty()) == Seq::<char>::empty(),
{
    let none = Seq::<(BannerLevel, Seq<char>)>::empty();
    assert(seq![b].drop_last() =~= none);
    assert(banners_html(none) == Seq::<char>::empty());
    assert(banners_html(seq![b]) == banners_html(none) + banner_html(b));
    assert(Seq::<char>::empty() + banner_html(b) =~= banner_html(b));
}

/// Every banner contributes its own div: the section for `bs` is as long as
/// the divs of all its banners together, so none is dropped or repeated.
pub proof fn law_banners_each_counted(bs: Seq<(BannerLevel, Seq<char>)>, k: int)
    requires
        0 <= k < bs.len(),
    ensures
        banners_html(bs) == banners_html(bs.take(k)) + banners_html(seq![bs[k]]) + banners_html(
            bs.skip(k + 1),
        ),
{
    law_banners_concatenate(bs.take(k), seq![bs[k]]);
    law_banners_concatenate(bs.take(k) + seq![bs[k]], bs.skip(k + 1));
    assert(bs.take(k) + seq![bs[k]] + bs.skip(k + 1) =~= bs);
}

pub open spec fn body_class(review_mode: bool) -> Seq<char> {
    if review_mode {
        " class=\"mdv-review-on\""@
    } else {
        seq![]
    }
}

/// The page: the template with title (escaped), stylesheet, banners and
/// content filled in, in that order, and the body class on the first `<body>`.
pub open spec fn page_spec(r: RenderSpec, review_mode: bool) -> Seq<char> {
    let t1 = replace_all(HTML_TEMPLATE@, "__TITLE__"@, escape_html(r.title));
    let t2 = replace_all(t1, "__STYLE__"@, STYLE_CSS@);
    let t3 = replace_all(t2, "__BANNERS__"@, banners_html(r.banners));
    let t4 = replace_all(t3, "__CONTENT__"@, r.body);
    replace_first(t4, "<body>"@, "<body"@ + body_class(review_mode) + ">"@)
}

// ---------------------------------------------------------------------------
// Executable
// ---------------------------------------------------------------------------
fn title_of(path: &Vec<char>) -> (t: String)
    ensures
        t@ == title_spec(path@),
{
    match file_name_exec(path) {
        Some(n) => string_of(&n),
        None => string_of(&chars_of("mdv")),
    }
}

fn nonrender_card(path: &Vec<char>, label: &str, size: u64) -> (r: Vec<char>)
    ensures
        r@ == nonrender_card_spec(path@, label@, size),
{
    let mut r = chars_of(
        "<div class=\"mdv-nonrender\"><div class=\"mdv-nonrender-title\">[ NON-RENDERABLE ]</div><dl><dt>kind</dt><dd>",
    );
    push_all(&mut r, &escape_html_chars(&chars_of(label)));
    push_all(&mut r, &chars_of("</dd><dt>size</dt><dd>"));
    push_all(&mut r, &human_size(size));
    push_all(&mut r, &chars_of("</dd><dt>path</dt><dd>"));
    push_all(&mut r, &escape_html_chars(path));
    push_all(
        &mut r,
        &chars_of("</dd></dl><p>mdv displays markdown and text files. this file is neither.</p></div>"),
    );
    r
}

/// The lines of `s`, as `str::lines` gives them.
pub fn split_lines(s: &Vec<char>) -> (ls: Vec<Vec<char>>)
    ensures
        ls@.map_values(|l: Vec<char>| l@) == lines(s@),
{
    let mut ls: Vec<Vec<char>> = Vec::new();
    let mut start: usize = 0;
    assert(ls@.map_values(|l: Vec<char>| l@) + lines_from(s@, 0) =~= lines(s@));
    while start < s.len()
        invariant
            start <= s.len(),
            ls@.map_values(|l: Vec<char>| l@) + lines_from(s@, start as int) == lines(s@),
        decreases s.len() - start,
    {
        let (ce, next) = line_at(s, start);
        let mut l: Vec<char> = Vec::new();
        crate::text::push_range(&mut l, s, start, ce);
        let ghost before = ls@.map_values(|l: Vec<char>| l@);
        ls.push(l);
        assert(ls@.map_values(|l: Vec<char>| l@) =~= before.push(
            s@.subrange(start as int, ce as int),
        ));
        assert(before.push(s@.subrange(start as int, ce as int)) + lines_from(s@, next as int)
            =~= before + lines_from(s@, start as int));
        start = next;
    }
    assert(lines_from(s@, start as int) =~= Seq::<Seq<char>>::empty());
    assert(ls@.map_values(|l: Vec<char>| l@) + Seq::<Seq<char>>::empty() =~= ls@.map_values(
        |l: Vec<char>| l@,
    ));
    ls
}

/// `parts[from..to]` joined by newlines.
fn join_newline(parts: &Vec<Vec<char>>, from: usize, to: usize) -> (r: Vec<char>)
    requires
        from <= to <= parts.len(),
    ensures
        r@ == join(parts@.map_values(|l: Vec<char>| l@).subrange(from as int, to as int), seq!['\n']),
{
    let ghost views = parts@.map_values(|l: Vec<char>| l@);
    let mut r: Vec<char> = Vec::new();
    let mut k = from;
    assert(views.subrange(from as int, from as int) =~= Seq::<Seq<char>>::empty());
    while k < to
        invariant
            from <= k <= to <= parts.len(),
            views == parts@.map_values(|l: Vec<char>| l@),
            r@ == join(views.subrange(from as int, k as int), seq!['\n']),
        decreases to - k,
    {
        proof {
            lemma_join_push(views.subrange(from as int, k as int), seq!['\n'], views[k as int]);
            assert(views.subrange(from as int, (k + 1) as int) =~= views.subrange(
                from as int,
                k as int,
            ).push(views[k as int]));
        }
        if k > from {
            r.push('\n');
        }
        push_all(&mut r, &parts[k]);
        k = k + 1;
    }
    r
}

/// Render a markdown document from its text.
fn render_markdown(path: &Vec<char>, size: u64, raw: &str) -> (r: RenderResult)
    ensures
        r@ == render_markdown_spec(path@, size, raw@),
{
    let rawc = chars_of(raw);
    let ls = split_lines(&rawc);
    let total = ls.len();
    let shown = if STREAM_INITIAL_LINES < total {
        STREAM_INITIAL_LINES
    } else {
        total
    };
    let streams = size > STREAM_THRESHOLD;
    let path_s = string_of(path);
    let initial = if streams {
        let head = join_newline(&ls, 0, shown);
        assert(ls@.map_values(|l: Vec<char>| l@).subrange(0, shown as int) =~= lines(
            raw@,
        ).take(shown as int));
        string_of(&head)
    } else {
        string_of(&rawc)
    };
    let body = md_to_html(initial.as_str(), path_s.as_str());
    let warns = detect_warnings(raw);
    let mut banners: Vec<Banner> = Vec::new();
    let mut i: usize = 0;
    while i < warns.len()
        invariant
            i <= warns.len(),
            banners@.map_values(|b: Banner| b@) == warn_banners(string_views(warns@).take(i as int)),
        decreases warns.len() - i,
    {
        let ghost before = banners@.map_values(|b: Banner| b@);
        let t = string_of(&chars_of(warns[i].as_str()));
        banners.push(Banner { level: BannerLevel::Warn, text: t });
        assert(banners@.map_values(|b: Banner| b@) =~= before.push((BannerLevel::Warn, warns@[i as int]@)));
        assert(string_views(warns@).take((i + 1) as int) =~= string_views(warns@).take(i as int).push(warns@[i as int]@));
        assert(warn_banners(string_views(warns@).take((i + 1) as int)) =~= warn_banners(string_views(warns@).take(i as int)).push((BannerLevel::Warn, warns@[i as int]@)));
        i = i + 1;
    }
    assert(string_views(warns@).take(warns.len() as int) =~= string_views(warns@));
    let ghost wb = warn_banners(warnings_spec(raw@));
    assert(banners@.map_values(|b: Banner| b@) == wb);
    let streaming = if streams {
        let mut text = chars_of("STREAMING - ");
        push_all(&mut text, &decimal_chars(shown));
        push_all(&mut text, &chars_of(" of "));
        push_all(&mut text, &decimal_chars(total));
        push_all(&mut text, &chars_of(" lines ("));
        push_all(&mut text, &kilobytes(size));
        push_all(&mut text, &chars_of(" KB)"));
        let ghost before = banners@.map_values(|b: Banner| b@);
        banners.push(Banner { level: BannerLevel::Stream, text: string_of(&text) });
        assert(banners@.map_values(|b: Banner| b@) =~= before.push(
            (BannerLevel::Stream, stream_notice(shown as nat, total as nat, size)),
        ));
        assert(banners@.map_values(|b: Banner| b@) =~= wb + seq![
            (BannerLevel::Stream, stream_notice(shown as nat, total as nat, size)),
        ]);
        Some(StreamState { total_bytes: size, emitted_lines: shown, total_lines: total })
    } else {
        assert(banners@.map_values(|b: Banner| b@) =~= wb + Seq::<(BannerLevel, Seq<char>)>::empty());
        None
    };
    RenderResult { title: title_of(path), body_html: body, banners, streaming }
}

/// Render a classified file at `path`. `contents` is its text for plain
/// text and markdown (unused for other kinds).
pub fn render_file(path: &str, cls: &Classification, contents: &str) -> (r: RenderResult)
    ensures
        r@ == render_file_spec(path@, cls.kind, cls.size_bytes, contents@),
{
    let p = chars_of(path);
    match &cls.kind {
        DocKind::NonText { label } => {
            let body = nonrender_card(&p, label.as_str(), cls.size_bytes);
            let r = RenderResult {
                title: title_of(&p),
                body_html: string_of(&body),
                banners: Vec::new(),
                streaming: None,
            };
            assert(r@.banners =~= Seq::<(BannerLevel, Seq<char>)>::empty());
            r
        },
        DocKind::PlainText => {
            let mut body = chars_of("<pre class=\"plain\">");
            push_all(&mut body, &escape_html_chars(&chars_of(contents)));
            push_all(&mut body, &chars_of("</pre>"));
            let mut banners: Vec<Banner> = Vec::new();
            banners.push(
                Banner {
                    level: BannerLevel::Info,
                    text: string_of(&chars_of("plain text - no markdown structure detected")),
                },
            );
            let r = RenderResult {
                title: title_of(&p),
                body_html: string_of(&body),
                banners,
                streaming: None,
            };
            assert(r@.banners =~= seq![(BannerLevel::Info, plain_notice())]);
            r
        },
        DocKind::Markdown => render_markdown(&p, cls.size_bytes, contents),
    }
}

/// Render the streamed chunk that starts at line `cursor` of `all_lines`:
/// up to `STREAM_CHUNK_LINES` lines. Returns the HTML and the number of lines
/// taken; the caller advances its cursor by that number.
pub fn render_chunk(all_lines: &[String], cursor: usize, source_path: &str) -> (r: (String, usize))
    requires
        cursor <= all_lines@.len(),
    ensures
        r.1 == min_nat(STREAM_CHUNK_LINES as nat, (all_lines@.len() - cursor) as nat),
        r.0@ == md_to_html_spec(
            join(string_views(all_lines@).subrange(cursor as int, cursor + r.1), seq!['\n']),
            source_path@,
        ),
{
    let len = all_lines.len();
    let avail = len - cursor;
    let n = if STREAM_CHUNK_LINES < avail {
        STREAM_CHUNK_LINES
    } else {
        avail
    };
    let mut parts: Vec<Vec<char>> = Vec::new();
    let mut k: usize = 0;
    while k < n
        invariant
            k <= n,
            len == all_lines@.len(),
            cursor + n <= len,
            parts@.map_values(|l: Vec<char>| l@) == string_views(all_lines@).subrange(
                cursor as int,
                cursor + k,
            ),
        decreases n - k,
    {
        let ghost before = parts@.map_values(|l: Vec<char>| l@);
        parts.push(chars_of(all_lines[cursor + k].as_str()));
        assert(parts@.map_values(|l: Vec<char>| l@) =~= before.push(all_lines@[cursor + k]@));
        assert(string_views(all_lines@).subrange(cursor as int, cursor + k + 1) =~= string_views(
            all_lines@,
        ).subrange(cursor as int, cursor + k).push(all_lines@[cursor + k]@));
        k = k + 1;
    }
    let src = join_newline(&parts, 0, n);
    assert(parts@.map_values(|l: Vec<char>| l@).subrange(0, n as int) =~= parts@.map_values(
        |l: Vec<char>| l@,
    ));
    let html = md_to_html(string_of(&src).as_str(), source_path);
    (html, n)
}

fn banners_html_exec(bs: &Vec<Banner>) -> (r: Vec<char>)
    ensures
        r@ == banners_html(bs@.map_values(|b: Banner| b@)),
{
    let ghost views = bs@.map_values(|b: Banner| b@);
    let mut r: Vec<char> = Vec::new();
    let mut i: usize = 0;
    while i < bs.len()
        invariant
            i <= bs.len(),
            views == bs@.map_values(|b: Banner| b@),
            r@ == banners_html(views.take(i as int)),
        decreases bs.len() - i,
    {
        let b = &bs[i];
        let (class, prefix) = match b.level {
            BannerLevel::Warn => (chars_of("mdv-banner-warn"), chars_of("[ PARSE NOTICES ] ")),
            BannerLevel::Stream => (chars_of("mdv-banner-stream"), Vec::new()),
            BannerLevel::Info => (chars_of("mdv-banner-info"), chars_of("[ NOTE ] ")),
        };
        assert(prefix@ == banner_prefix(b.level));
        push_all(&mut r, &chars_of("<div class=\"mdv-banner "));
        push_all(&mut r, &class);
        push_all(&mut r, &chars_of("\"><b>"));
        push_all(&mut r, &prefix);
        push_all(&mut r, &chars_of("</b>"));
        push_all(&mut r, &escape_html_chars(&chars_of(b.text.as_str())));
        push_all(&mut r, &chars_of("</div>"));
        assert(views.take((i + 1) as int).drop_last() =~= views.take(i as int));
        i = i + 1;
    }
    assert(views.take(bs.len() as int) =~= views);
    r
}

/// The complete HTML page for a rendered document; in review mode the body
/// carries the `mdv-review-on` class.
pub fn build_page(result: &RenderResult, review_mode: bool) -> (page: String)
    ensures
        page@ == page_spec(result@, review_mode),
{
    let t0 = chars_of(HTML_TEMPLATE);
    let k_title = chars_of("__TITLE__");
    let k_style = chars_of("__STYLE__");
    let k_banners = chars_of("__BANNERS__");
    let k_content = chars_of("__CONTENT__");
    proof {
        reveal_strlit("__TITLE__");
        reveal_strlit("__STYLE__");
        reveal_strlit("__BANNERS__");
        reveal_strlit("__CONTENT__");
        reveal_strlit("<body>");
    }
    let t1 = replace_all_exec(&t0, &k_title, &escape_html_chars(&chars_of(result.title.as_str())));
    let t2 = replace_all_exec(&t1, &k_style, &chars_of(STYLE_CSS));
    let t3 = replace_all_exec(&t2, &k_banners, &banners_html_exec(&result.banners));
    let t4 = replace_all_exec(&t3, &k_content, &chars_of(result.body_html.as_str()));
    let mut tag = chars_of("<body");
    if review_mode {
        push_all(&mut tag, &chars_of(" class=\"mdv-review-on\""));
    } else {
        assert(tag@ + Seq::<char>::empty() =~= tag@);
    }
    push_all(&mut tag, &chars_of(">"));
    let page = replace_first_exec(&t4, &chars_of("<body>"), &tag);
    string_of(&page)
}

} // verus!
