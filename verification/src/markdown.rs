//! Markdown to HTML: math is stashed, the rest goes through pulldown-cmark
//! with code blocks swapped for syntect-highlighted HTML and local `.md` links
//! rewritten to `mdv://nav/`, and the math is put back verbatim.
use vstd::prelude::*;
use vstd::utf8::encode_utf8;
use pulldown_cmark::{CodeBlockKind, Event, Options, Parser, Tag, TagEnd};
use syntect::highlighting::{Theme, ThemeSet};
use syntect::parsing::SyntaxSet;
use crate::html::{escape_html, escape_html_chars};
use crate::math::{restore_math, restore_spec, stash_math, stash_spec};
use crate::paths::{join_rel, join_rel_exec, link_base, link_base_exec};
use crate::text::{
    chars_of, contains, contains_chars, ends_with, lower_ascii, matches_at, push_all, push_range,
    starts_at, starts_with, string_of, to_ascii_lower,
};

verus! {

// ---------------------------------------------------------------------------
// What the renderer reads of the CommonMark event stream
// ---------------------------------------------------------------------------
/// One CommonMark event as the renderer sees it: the start of a code block
/// (with its language, empty for an indented block), the end of a code block,
/// text, the start of a link (with its destination), or anything else.
pub enum EventView {
    CodeStart(String),
    CodeEnd,
    Text(String),
    LinkStart(String),
    Other,
}

pub enum EventSpec {
    CodeStart(Seq<char>),
    CodeEnd,
    Text(Seq<char>),
    LinkStart(Seq<char>),
    Other,
}

impl View for EventView {
    type V = EventSpec;

    open spec fn view(&self) -> EventSpec {
        match self {
            EventView::CodeStart(l) => EventSpec::CodeStart(l@),
            EventView::CodeEnd => EventSpec::CodeEnd,
            EventView::Text(t) => EventSpec::Text(t@),
            EventView::LinkStart(d) => EventSpec::LinkStart(d@),
            EventView::Other => EventSpec::Other,
        }
    }
}

/// One event of the stream handed to the HTML writer: event `k` of the
/// parse as it was, a raw HTML event, or link-start event `k` with a new
/// destination.
pub enum Piece {
    Event(usize),
    Html(String),
    Link(usize, String),
}

pub enum PieceSpec {
    Event(int),
    Html(Seq<char>),
    Link(int, Seq<char>),
}

impl View for Piece {
    type V = PieceSpec;

    open spec fn view(&self) -> PieceSpec {
        match self {
            Piece::Event(k) => PieceSpec::Event(*k as int),
            Piece::Html(h) => PieceSpec::Html(h@),
            Piece::Link(k, d) => PieceSpec::Link(*k as int, d@),
        }
    }
}

pub open spec fn event_specs(v: Seq<EventView>) -> Seq<EventSpec> {
    v.map_values(|e: EventView| e@)
}

pub open spec fn piece_specs(v: Seq<Piece>) -> Seq<PieceSpec> {
    v.map_values(|p: Piece| p@)
}

/// Every event index in `plan` is below `n`.
pub open spec fn plan_in_range(plan: Seq<PieceSpec>, n: nat) -> bool {
    forall|i: int|
        0 <= i < plan.len() ==> match #[trigger] plan[i] {
            PieceSpec::Event(k) => 0 <= k < n,
            PieceSpec::Html(_) => true,
            PieceSpec::Link(k, _) => 0 <= k < n,
        }
}

// ---------------------------------------------------------------------------
// pulldown-cmark
// ---------------------------------------------------------------------------
/// pulldown-cmark's option bits that the viewer turns on: tables,
/// footnotes, strikethrough and task lists.
pub const OPT_TABLES: u32 = 2;

pub const OPT_FOOTNOTES: u32 = 4;

pub const OPT_STRIKETHROUGH: u32 = 8;

pub const OPT_TASKLISTS: u32 = 16;

/// The option set every parse uses.
pub const CMARK_OPTIONS: u32 = OPT_TABLES | OPT_FOOTNOTES | OPT_STRIKETHROUGH | OPT_TASKLISTS;

/// The CommonMark events that pulldown-cmark parses from `src` with the
/// option bits `opts`, as the renderer sees them.
pub uninterp spec fn cmark_events(src: Seq<char>, opts: u32) -> Seq<EventSpec>;

/// The HTML that pulldown-cmark's `push_html` writes for the event stream
/// that `plan` assembles from the events parsed from `src` with `opts`.
pub uninterp spec fn cmark_html(src: Seq<char>, opts: u32, plan: Seq<PieceSpec>) -> Seq<char>;

/// `pulldown_cmark::Parser::new_ext` with the options whose bits are
/// `opts` (`Options::from_bits_truncate`): each event parsed from `src`
/// mapped to what the renderer reads of it. The contract names the result:
/// the same source and options always give the same events.
#[verifier::external_body]
fn cmark_event_views(src: &str, opts: u32) -> (v: Vec<EventView>)
    ensures
        event_specs(v@) == cmark_events(src@, opts),
{
    Parser::new_ext(src, Options::from_bits_truncate(opts)).map(|ev| match ev {
        Event::Start(Tag::CodeBlock(CodeBlockKind::Fenced(l))) => EventView::CodeStart(l.to_string()),
        Event::Start(Tag::CodeBlock(CodeBlockKind::Indented)) => EventView::CodeStart(String::new()),
        Event::End(TagEnd::CodeBlock) => EventView::CodeEnd,
        Event::Text(t) => EventView::Text(t.to_string()),
        Event::Start(Tag::Link { dest_url, .. }) => EventView::LinkStart(dest_url.to_string()),
        _ => EventView::Other,
    }).collect()
}

/// `pulldown_cmark::html::push_html` over the events that `plan` assembles
/// from the parse of `src` with the options `opts`. The contract names the
/// result; indices in `plan` must address parsed events.
#[verifier::external_body]
fn cmark_render(src: &str, opts: u32, plan: &Vec<Piece>) -> (html: String)
    requires
        plan_in_range(piece_specs(plan@), cmark_events(src@, opts).len()),
    ensures
        html@ == cmark_html(src@, opts, piece_specs(plan@)),
{
    let evs: Vec<Event> = Parser::new_ext(src, Options::from_bits_truncate(opts)).collect();
    let mut out = String::new();
    pulldown_cmark::html::push_html(&mut out, plan.iter().map(|p| match p {
        Piece::Event(k) => evs[*k].clone(),
        Piece::Html(h) => Event::Html(h.clone().into()),
        Piece::Link(k, d) => match evs[*k].clone() {
            Event::Start(Tag::Link { link_type, title, id, .. }) =>
                Event::Start(Tag::Link { link_type, dest_url: d.clone().into(), title, id }),
            other => other,
        },
    }));
    out
}

// ---------------------------------------------------------------------------
// syntect
// ---------------------------------------------------------------------------
#[verifier::external_type_specification]
#[verifier::external_body]
pub struct ExSyntaxSet(SyntaxSet);

#[verifier::external_type_specification]
#[verifier::external_body]
pub struct ExTheme(Theme);

/// Whether syntect's bundled syntax set (`load_defaults_newlines`) has a
/// syntax for the language token `token` (`find_syntax_by_token`).
pub uninterp spec fn syntect_knows(token: Seq<char>) -> bool;

/// The HTML that `highlighted_html_for_string` gives for `code` with the
/// bundled syntax found for `token` and the bundled theme named `theme`;
/// `None` when syntect reports an error.
pub uninterp spec fn syntect_token_html(theme: Seq<char>, code: Seq<char>, token: Seq<char>) -> Option<
    Seq<char>,
>;

/// The same with the bundled plain-text syntax.
pub uninterp spec fn syntect_plain_html(theme: Seq<char>, code: Seq<char>) -> Option<Seq<char>>;

/// The theme code blocks are drawn in.
pub open spec fn code_theme() -> Seq<char> {
    "base16-ocean.dark"@
}

/// syntect's bundled syntax set and one of its bundled themes, loaded once
/// per rendering; `theme_name` is the name the theme was loaded by.
pub struct Highlighter {
    syntaxes: SyntaxSet,
    theme: Theme,
    theme_name: Ghost<Seq<char>>,
}

impl Highlighter {
    /// `SyntaxSet::load_defaults_newlines` and the theme called `name` in
    /// `ThemeSet::load_defaults`, or `None` when the bundled set has no
    /// theme of that name. syntect documents `base16-ocean.dark` among the
    /// bundled themes, so that name always loads.
    #[verifier::external_body]
    fn load(name: &str) -> (r: Option<Highlighter>)
        ensures
            r matches Some(h) ==> h.theme_name@ == name@,
            name@ == "base16-ocean.dark"@ ==> r is Some,
    {
        match ThemeSet::load_defaults().themes.remove(name) {
            Some(theme) => Some(
                Highlighter {
                    syntaxes: SyntaxSet::load_defaults_newlines(),
                    theme,
                    theme_name: Ghost(name@),
                },
            ),
            None => None,
        }
    }

    /// `SyntaxSet::find_syntax_by_token` found a syntax for `token`.
    #[verifier::external_body]
    fn has_syntax(&self, token: &str) -> (b: bool)
        ensures
            b == syntect_knows(token@),
    {
        match self.syntaxes.find_syntax_by_token(token) {
            Some(_) => true,
            None => false,
        }
    }

    /// `syntect::html::highlighted_html_for_string` for `code` with the
    /// syntax `find_syntax_by_token` finds for `token`; the error becomes
    /// `None`. The contract names the result.
    #[verifier::external_body]
    fn highlight_token(&self, code: &str, token: &str) -> (r: Option<String>)
        requires
            syntect_knows(token@),
        ensures
            match r {
                Some(h) => syntect_token_html(self.theme_name@, code@, token@) == Some(h@),
                None => syntect_token_html(self.theme_name@, code@, token@) is None,
            },
    {
        let syntax = self.syntaxes.find_syntax_by_token(token).unwrap();
        syntect::html::highlighted_html_for_string(code, &self.syntaxes, syntax, &self.theme).ok()
    }

    /// `syntect::html::highlighted_html_for_string` for `code` with
    /// `find_syntax_plain_text`; the error becomes `None`. The contract names
    /// the result.
    #[verifier::external_body]
    fn highlight_plain(&self, code: &str) -> (r: Option<String>)
        ensures
            match r {
                Some(h) => syntect_plain_html(self.theme_name@, code@) == Some(h@),
                None => syntect_plain_html(self.theme_name@, code@) is None,
            },
    {
        let syntax = self.syntaxes.find_syntax_plain_text();
        syntect::html::highlighted_html_for_string(code, &self.syntaxes, syntax, &self.theme).ok()
    }
}

/// syntect's HTML for a code block in language `lang`: the language's
/// syntax when the token is not empty and syntect knows it, plain text
/// otherwise.
pub open spec fn syntect_html(code: Seq<char>, lang: Seq<char>) -> Option<Seq<char>> {
    if lang.len() > 0 && syntect_knows(lang) {
        syntect_token_html(code_theme(), code, lang)
    } else {
        syntect_plain_html(code_theme(), code)
    }
}

/// A code block as HTML: syntect's output wrapped in a `mdv-code` div that
/// carries the language, or escaped plain code when syntect fails.
pub open spec fn highlight_spec(code: Seq<char>, lang: Seq<char>) -> Seq<char> {
    match syntect_html(code, lang) {
        Some(h) => "<div class=\"mdv-code\" data-lang=\""@ + escape_html(lang) + "\">"@ + h
            + "</div>"@,
        None => "<pre><code>"@ + escape_html(code) + "</code></pre>"@,
    }
}

spec fn theme_ok(hl: Option<Highlighter>) -> bool {
    hl matches Some(h) ==> h.theme_name@ == code_theme()
}

fn highlight_code(hl: &mut Option<Highlighter>, code: &Vec<char>, lang: &Vec<char>) -> (r: Vec<
    char,
>)
    requires
        theme_ok(*old(hl)),
    ensures
        r@ == highlight_spec(code@, lang@),
        theme_ok(*final(hl)),
{
    if hl.is_none() {
        *hl = Highlighter::load("base16-ocean.dark");
    }
    let code_s = string_of(code);
    let lang_s = string_of(lang);
    assert(*hl is Some);
    let res = match &*hl {
        Some(h) => if lang.len() > 0 && h.has_syntax(lang_s.as_str()) {
            h.highlight_token(code_s.as_str(), lang_s.as_str())
        } else {
            h.highlight_plain(code_s.as_str())
        },
        None => None,
    };
    match res {
        Some(h) => {
            let mut r = chars_of("<div class=\"mdv-code\" data-lang=\"");
            let e = escape_html_chars(lang);
            push_all(&mut r, &e);
            push_all(&mut r, &chars_of("\">"));
            push_all(&mut r, &chars_of(h.as_str()));
            push_all(&mut r, &chars_of("</div>"));
            r
        },
        None => {
            let mut r = chars_of("<pre><code>");
            let e = escape_html_chars(code);
            push_all(&mut r, &e);
            push_all(&mut r, &chars_of("</code></pre>"));
            r
        },
    }
}

// ---------------------------------------------------------------------------
// urlencoding
// ---------------------------------------------------------------------------
/// The bytes that percent-encoding leaves alone.
pub open spec fn url_safe(b: u8) -> bool {
    (0x30 <= b <= 0x39) || (0x41 <= b <= 0x5a) || (0x61 <= b <= 0x7a) || b == 0x2d || b == 0x2e
        || b == 0x5f || b == 0x7e
}

pub open spec fn hex_upper(d: u8) -> char {
    if d < 10 {
        (d + 48) as char
    } else {
        (d + 55) as char
    }
}

/// Percent-encoding of each byte, upper-case hex.
pub open spec fn url_encode_bytes(bs: Seq<u8>) -> Seq<char>
    decreases bs.len(),
{
    if bs.len() == 0 {
        seq![]
    } else {
        let b = bs[0];
        (if url_safe(b) {
            seq![b as char]
        } else {
            seq!['%', hex_upper(b / 16), hex_upper(b % 16)]
        }) + url_encode_bytes(bs.drop_first())
    }
}

/// Percent-encoding of the UTF-8 bytes of `s`.
pub open spec fn url_encode(s: Seq<char>) -> Seq<char> {
    url_encode_bytes(encode_utf8(s))
}

/// `urlencoding::encode`: every UTF-8 byte of `s` except ASCII letters,
/// digits and `-`, `.`, `_`, `~` becomes `%XX` with upper-case hex.
#[verifier::external_body]
fn url_encode_str(s: &str) -> (r: String)
    ensures
        r@ == url_encode(s@),
{
    urlencoding::encode(s).into_owned()
}

// ---------------------------------------------------------------------------
// Link rewriting
// ---------------------------------------------------------------------------
pub open spec fn is_external(lower: Seq<char>) -> bool {
    starts_with(lower, "http://"@) || starts_with(lower, "https://"@) || starts_with(
        lower,
        "mailto:"@,
    ) || starts_with(lower, "ftp://"@) || starts_with(lower, "mdv://"@)
}

pub open spec fn is_md_link(lower: Seq<char>) -> bool {
    ends_with(lower, ".md"@) || contains(lower, ".md#"@)
}

/// Index of the first `#` at or after `i`, or `s.len()`.
pub open spec fn first_hash(s: Seq<char>, i: int) -> int
    decreases s.len() - i,
{
    if i < 0 || i >= s.len() {
        s.len() as int
    } else if s[i] == '#' {
        i
    } else {
        first_hash(s, i + 1)
    }
}

/// A link destination as the page uses it: web, mail, ftp and `mdv://` links
/// and links to anything but `.md` files are kept; a local `.md` link becomes
/// `mdv://nav/` followed by the percent-encoded path (resolved against `base`
/// unless absolute) and the anchor, if any.
pub open spec fn rewrite_link_spec(url: Seq<char>, base: Seq<char>) -> Seq<char> {
    let lower = to_ascii_lower(url);
    if is_external(lower) || !is_md_link(lower) {
        url
    } else {
        let h = first_hash(url, 0);
        let path = url.take(h);
        let anchor = url.skip(h);
        let cand = if path.len() > 0 && path[0] == '/' {
            path
        } else {
            join_rel(base, path)
        };
        "mdv://nav/"@ + url_encode(cand) + anchor
    }
}

/// Web, mail, ftp and `mdv://` links are left as they are, whatever their
/// case and whatever they point to.
pub proof fn law_external_links_kept(url: Seq<char>, base: Seq<char>)
    requires
        starts_with(to_ascii_lower(url), "http://"@) || starts_with(
            to_ascii_lower(url),
            "https://"@,
        ) || starts_with(to_ascii_lower(url), "mailto:"@) || starts_with(
            to_ascii_lower(url),
            "ftp://"@,
        ) || starts_with(to_ascii_lower(url), "mdv://"@),
    ensures
        rewrite_link_spec(url, base) == url,
{
}

/// A link to anything but a markdown file (no `.md` at its end and no
/// `.md#` in it, in any case) is left as it is.
pub proof fn law_other_files_kept(url: Seq<char>, base: Seq<char>)
    requires
        !ends_with(to_ascii_lower(url), ".md"@),
        !contains(to_ascii_lower(url), ".md#"@),
    ensures
        rewrite_link_spec(url, base) == url,
{
}

/// A local link to a markdown file navigates inside the viewer: it becomes
/// an `mdv://nav/` link that keeps the link's `#` anchor at its end.
pub proof fn law_local_markdown_links_navigate(url: Seq<char>, base: Seq<char>)
    requires
        !(starts_with(to_ascii_lower(url), "http://"@) || starts_with(
            to_ascii_lower(url),
            "https://"@,
        ) || starts_with(to_ascii_lower(url), "mailto:"@) || starts_with(
            to_ascii_lower(url),
            "ftp://"@,
        ) || starts_with(to_ascii_lower(url), "mdv://"@)),
        ends_with(to_ascii_lower(url), ".md"@),
    ensures
        starts_with(rewrite_link_spec(url, base), "mdv://nav/"@),
        ends_with(rewrite_link_spec(url, base), url.skip(first_hash(url, 0))),
{
    let r = rewrite_link_spec(url, base);
    let h = first_hash(url, 0);
    lemma_first_hash_bounds(url, 0);
    let cand = if url.take(h).len() > 0 && url.take(h)[0] == '/' {
        url.take(h)
    } else {
        join_rel(base, url.take(h))
    };
    let head = "mdv://nav/"@ + url_encode(cand);
    assert(r == head + url.skip(h));
    assert(r.take("mdv://nav/"@.len() as int) =~= "mdv://nav/"@);
    assert(r.skip(r.len() - url.skip(h).len()) =~= url.skip(h));
}

proof fn lemma_first_hash_bounds(s: Seq<char>, i: int)
    requires
        0 <= i,
    ensures
        i <= first_hash(s, i) <= s.len() || (i > s.len() && first_hash(s, i) == s.len()),
    decreases s.len() - i,
{
    if i < s.len() && s[i] != '#' {
        lemma_first_hash_bounds(s, i + 1);
    }
}

fn first_hash_exec(s: &Vec<char>) -> (h: usize)
    ensures
        h == first_hash(s@, 0),
        h <= s.len(),
{
    let mut i: usize = 0;
    while i < s.len() && s[i] != '#'
        invariant
            i <= s.len(),
            first_hash(s@, i as int) == first_hash(s@, 0),
        decreases s.len() - i,
    {
        i = i + 1;
    }
    i
}

fn ends_with_exec(s: &Vec<char>, p: &Vec<char>) -> (b: bool)
    ensures
        b == ends_with(s@, p@),
{
    if p.len() > s.len() {
        return false;
    }
    let b = matches_at(s, s.len() - p.len(), p);
    assert(s@.skip(s@.len() - p@.len()) =~= s@.subrange(s@.len() - p@.len(), s@.len() as int));
    b
}

/// Rewrite a link destination found in a document whose links resolve
/// against `base`.
pub fn rewrite_link(url: &Vec<char>, base: &Vec<char>) -> (r: Vec<char>)
    ensures
        r@ == rewrite_link_spec(url@, base@),
{
    let lower = lower_ascii(url);
    let n = lower.len();
    let ext = starts_at(&lower, 0, n, &chars_of("http://")) || starts_at(
        &lower,
        0,
        n,
        &chars_of("https://"),
    ) || starts_at(&lower, 0, n, &chars_of("mailto:")) || starts_at(
        &lower,
        0,
        n,
        &chars_of("ftp://"),
    ) || starts_at(&lower, 0, n, &chars_of("mdv://"));
    assert(lower@.subrange(0, n as int) =~= lower@);
    let md = ends_with_exec(&lower, &chars_of(".md")) || contains_chars(&lower, &chars_of(".md#"));
    if ext || !md {
        let mut r: Vec<char> = Vec::new();
        push_all(&mut r, url);
        return r;
    }
    let h = first_hash_exec(url);
    let mut path: Vec<char> = Vec::new();
    push_range(&mut path, url, 0, h);
    assert(path@ =~= url@.take(h as int));
    let cand = if path.len() > 0 && path[0] == '/' {
        path
    } else {
        join_rel_exec(base, &path)
    };
    let enc = url_encode_str(string_of(&cand).as_str());
    let mut r = chars_of("mdv://nav/");
    push_all(&mut r, &chars_of(enc.as_str()));
    push_range(&mut r, url, h, url.len());
    assert(url@.subrange(h as int, url@.len() as int) =~= url@.skip(h as int));
    r
}

// ---------------------------------------------------------------------------
// The event walk
// ---------------------------------------------------------------------------
/// The stream handed to the HTML writer for events `evs[k..]`: a code block's
/// start and text are held back and its end becomes highlighted HTML; a link
/// start gets its destination rewritten; every other event passes as it is.
/// `code` is the language of the open code block, `buf` its text so far.
pub open spec fn transform_from(
    evs: Seq<EventSpec>,
    k: int,
    code: Option<Seq<char>>,
    buf: Seq<char>,
    base: Seq<char>,
) -> Seq<PieceSpec>
    decreases evs.len() - k,
{
    if k < 0 || k >= evs.len() {
        seq![]
    } else {
        match evs[k] {
            EventSpec::CodeStart(lang) => transform_from(evs, k + 1, Some(lang), seq![], base),
            EventSpec::CodeEnd => seq![
                PieceSpec::Html(
                    highlight_spec(
                        buf,
                        match code {
                            Some(l) => l,
                            None => seq![],
                        },
                    ),
                ),
            ] + transform_from(evs, k + 1, None, buf, base),
            EventSpec::Text(t) => if code is Some {
                transform_from(evs, k + 1, code, buf + t, base)
            } else {
                seq![PieceSpec::Event(k)] + transform_from(evs, k + 1, code, buf, base)
            },
            EventSpec::LinkStart(d) => seq![PieceSpec::Link(k, rewrite_link_spec(d, base))]
                + transform_from(evs, k + 1, code, buf, base),
            EventSpec::Other => seq![PieceSpec::Event(k)] + transform_from(
                evs,
                k + 1,
                code,
                buf,
                base,
            ),
        }
    }
}

pub open spec fn transform_spec(evs: Seq<EventSpec>, base: Seq<char>) -> Seq<PieceSpec> {
    transform_from(evs, 0, None, seq![], base)
}

proof fn lemma_transform_in_range(
    evs: Seq<EventSpec>,
    k: int,
    code: Option<Seq<char>>,
    buf: Seq<char>,
    base: Seq<char>,
)
    requires
        0 <= k,
    ensures
        plan_in_range(transform_from(evs, k, code, buf, base), evs.len()),
    decreases evs.len() - k,
{
    if k < evs.len() {
        match evs[k] {
            EventSpec::CodeStart(lang) => lemma_transform_in_range(evs, k + 1, Some(lang), seq![], base),
            EventSpec::CodeEnd => lemma_transform_in_range(evs, k + 1, None, buf, base),
            EventSpec::Text(t) => if code is Some {
                lemma_transform_in_range(evs, k + 1, code, buf + t, base)
            } else {
                lemma_transform_in_range(evs, k + 1, code, buf, base)
            },
            _ => lemma_transform_in_range(evs, k + 1, code, buf, base),
        }
    }
}

/// The events handed to the HTML writer, in place of the parsed ones.
fn transform_events(views: &Vec<EventView>, base: &Vec<char>) -> (plan: Vec<Piece>)
    ensures
        piece_specs(plan@) == transform_spec(event_specs(views@), base@),
{
    let ghost evs = event_specs(views@);
    let mut plan: Vec<Piece> = Vec::new();
    let mut code: Option<Vec<char>> = None;
    let mut buf: Vec<char> = Vec::new();
    let mut hl: Option<Highlighter> = None;
    let mut k: usize = 0;
    assert(piece_specs(plan@) =~= Seq::<PieceSpec>::empty());
    while k < views.len()
        invariant
            k <= views.len(),
            evs == event_specs(views@),
            theme_ok(hl),
            piece_specs(plan@) + transform_from(
                evs,
                k as int,
                match code {
                    Some(l) => Some(l@),
                    None => None,
                },
                buf@,
                base@,
            ) == transform_spec(evs, base@),
        decreases views.len() - k,
    {
        let ghost before = piece_specs(plan@);
        match &views[k] {
            EventView::CodeStart(lang) => {
                code = Some(chars_of(lang.as_str()));
                buf = Vec::new();
            },
            EventView::CodeEnd => {
                let lang = match &code {
                    Some(l) => {
                        let mut c: Vec<char> = Vec::new();
                        push_all(&mut c, l);
                        c
                    },
                    None => Vec::new(),
                };
                let h = highlight_code(&mut hl, &buf, &lang);
                plan.push(Piece::Html(string_of(&h)));
                code = None;
                assert(piece_specs(plan@) =~= before.push(PieceSpec::Html(h@)));
            },
            EventView::Text(t) => {
                if code.is_some() {
                    let tc = chars_of(t.as_str());
                    push_all(&mut buf, &tc);
                } else {
                    plan.push(Piece::Event(k));
                    assert(piece_specs(plan@) =~= before.push(PieceSpec::Event(k as int)));
                }
            },
            EventView::LinkStart(d) => {
                let r = rewrite_link(&chars_of(d.as_str()), base);
                plan.push(Piece::Link(k, string_of(&r)));
                assert(piece_specs(plan@) =~= before.push(
                    PieceSpec::Link(k as int, rewrite_link_spec(d@, base@)),
                ));
            },
            EventView::Other => {
                plan.push(Piece::Event(k));
                assert(piece_specs(plan@) =~= before.push(PieceSpec::Event(k as int)));
            },
        }
        k = k + 1;
    }
    plan
}

// ---------------------------------------------------------------------------
// The pipeline
// ---------------------------------------------------------------------------
/// The HTML for markdown `md` of the document at `source_path`.
pub open spec fn md_to_html_spec(md: Seq<char>, source_path: Seq<char>) -> Seq<char> {
    let st = stash_spec(md);
    let base = link_base(source_path);
    restore_spec(
        cmark_html(st.0, CMARK_OPTIONS, transform_spec(cmark_events(st.0, CMARK_OPTIONS), base)),
        st.1,
    )
}

/// Markdown to HTML for the document at `source_path`: math spans reach the
/// page verbatim (only `&`, `<`, `>` escaped), code blocks are highlighted,
/// local `.md` links point to `mdv://nav/`.
pub fn md_to_html(md: &str, source_path: &str) -> (r: String)
    ensures
        r@ == md_to_html_spec(md@, source_path@),
{
    let src = chars_of(md);
    let (stashed, store) = stash_math(&src);
    let stashed_s = string_of(&stashed);
    let views = cmark_event_views(stashed_s.as_str(), CMARK_OPTIONS);
    let base = link_base_exec(&chars_of(source_path));
    let plan = transform_events(&views, &base);
    proof {
        lemma_transform_in_range(event_specs(views@), 0, None, seq![], base@);
        assert(event_specs(views@).len() == views@.len());
    }
    let html = cmark_render(stashed_s.as_str(), CMARK_OPTIONS, &plan);
    let out = restore_math(&chars_of(html.as_str()), &store);
    string_of(&out)
}

} // verus!
