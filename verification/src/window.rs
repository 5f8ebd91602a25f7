//! What a window remembers between events, and what it decides when the page
//! talks to it: history, streaming, review submission.
use vstd::prelude::*;
use crate::cli::{char_views, strings_of};
use crate::markdown::md_to_html_spec;
use crate::paths::{file_name, file_name_exec, join_rel, join_rel_exec, parent, parent_exec};
use crate::render::{
    min_nat, render_chunk, render_markdown_spec, split_lines, STREAM_CHUNK_LINES,
    STREAM_INITIAL_LINES, STREAM_THRESHOLD,
};
use crate::text::{
    chars_of, eq_chars, join, lines, lower_ascii, push_all, starts_with, string_of, string_views,
    to_ascii_lower, to_ascii_upper, upper_ascii,
};

verus! {

// ---------------------------------------------------------------------------
// History
// ---------------------------------------------------------------------------
/// The document shown in a window and the ones behind and ahead of it; the
/// last element of each stack is the nearest.
pub struct History {
    pub current: String,
    pub back: Vec<String>,
    pub fwd: Vec<String>,
}

pub struct HistoryView {
    pub current: Seq<char>,
    pub back: Seq<Seq<char>>,
    pub fwd: Seq<Seq<char>>,
}

impl View for History {
    type V = HistoryView;

    open spec fn view(&self) -> HistoryView {
        HistoryView {
            current: self.current@,
            back: string_views(self.back@),
            fwd: string_views(self.fwd@),
        }
    }
}

/// Following a link: the current document goes on the back stack and the
/// forward stack empties.
pub open spec fn navigate_spec(h: HistoryView, dest: Seq<char>) -> HistoryView {
    HistoryView { current: dest, back: h.back.push(h.current), fwd: seq![] }
}

pub open spec fn back_spec(h: HistoryView) -> Option<HistoryView> {
    if h.back.len() == 0 {
        None
    } else {
        Some(HistoryView { current: h.back.last(), back: h.back.drop_last(), fwd: h.fwd.push(h.current) })
    }
}

pub open spec fn forward_spec(h: HistoryView) -> Option<HistoryView> {
    if h.fwd.len() == 0 {
        None
    } else {
        Some(HistoryView { current: h.fwd.last(), back: h.back.push(h.current), fwd: h.fwd.drop_last() })
    }
}

/// `"back"` steps back; any other direction steps forward.
pub open spec fn step_spec(h: HistoryView, dir: Seq<char>) -> Option<HistoryView> {
    if dir == "back"@ {
        back_spec(h)
    } else {
        forward_spec(h)
    }
}

impl History {
    /// A window's history when it opens `current`.
    pub fn new(current: String) -> (h: History)
        ensures
            h@ == (HistoryView { current: current@, back: seq![], fwd: seq![] }),
    {
        let h = History { current, back: Vec::new(), fwd: Vec::new() };
        assert(h@.back =~= Seq::<Seq<char>>::empty());
        assert(h@.fwd =~= Seq::<Seq<char>>::empty());
        h
    }

    /// Show `dest` after following a link.
    pub fn navigate(&mut self, dest: String)
        ensures
            final(self)@ == navigate_spec(old(self)@, dest@),
    {
        let prev = self.current.clone();
        self.current = dest;
        self.back.push(prev);
        self.fwd.clear();
        assert(self@.back =~= old(self)@.back.push(old(self)@.current));
        assert(self@.fwd =~= Seq::<Seq<char>>::empty());
    }

    /// Step back (`dir` is `"back"`) or forward (anything else). Returns the
    /// document now shown, or `None`, leaving the history as it was, when
    /// there is nothing in that direction.
    pub fn step(&mut self, dir: &str) -> (r: Option<String>)
        ensures
            match step_spec(old(self)@, dir@) {
                Some(h) => final(self)@ == h && (r matches Some(d) && d@ == h.current),
                None => final(self)@ == old(self)@ && r is None,
            },
    {
        let ghost h0 = self@;
        if eq_chars(&chars_of(dir), &chars_of("back")) {
            match self.back.pop() {
                Some(dest) => {
                    let prev = self.current.clone();
                    self.current = dest.clone();
                    self.fwd.push(prev);
                    assert(self@.back =~= h0.back.drop_last());
                    assert(self@.fwd =~= h0.fwd.push(h0.current));
                    Some(dest)
                },
                None => {
                    assert(self@.back =~= h0.back);
                    None
                },
            }
        } else {
            match self.fwd.pop() {
                Some(dest) => {
                    let prev = self.current.clone();
                    self.current = dest.clone();
                    self.back.push(prev);
                    assert(self@.fwd =~= h0.fwd.drop_last());
                    assert(self@.back =~= h0.back.push(h0.current));
                    Some(dest)
                },
                None => {
                    assert(self@.fwd =~= h0.fwd);
                    None
                },
            }
        }
    }
}

/// Stepping back and then forward returns to where the window was.
pub proof fn law_back_then_forward(h: HistoryView)
    requires
        h.back.len() > 0,
    ensures
        back_spec(h) matches Some(b) && forward_spec(b) == Some(h),
{
    let b = back_spec(h).unwrap();
    assert(b.back.push(b.current) =~= h.back);
    assert(b.fwd.drop_last() =~= h.fwd);
}

/// Stepping forward and then back returns to where the window was.
pub proof fn law_forward_then_back(h: HistoryView)
    requires
        h.fwd.len() > 0,
    ensures
        forward_spec(h) matches Some(f) && back_spec(f) == Some(h),
{
    let f = forward_spec(h).unwrap();
    assert(f.fwd.push(f.current) =~= h.fwd);
    assert(f.back.drop_last() =~= h.back);
}

/// After following a link, back returns to the page the link was on, and
/// forward then leads to the link's target again.
pub proof fn law_navigate_then_back(h: HistoryView, dest: Seq<char>)
    ensures
        back_spec(navigate_spec(h, dest)) == Some(
            HistoryView { current: h.current, back: h.back, fwd: seq![dest] },
        ),
        forward_spec(navigate_spec(h, dest)) is None,
{
    assert(h.back.push(h.current).drop_last() =~= h.back);
    assert(Seq::<Seq<char>>::empty().push(dest) =~= seq![dest]);
}

// ---------------------------------------------------------------------------
// Link targets
// ---------------------------------------------------------------------------
/// Does the target go to the web (`http://` or `https://`, any case)?
pub open spec fn is_web_url(target: Seq<char>) -> bool {
    starts_with(to_ascii_lower(target), "http://"@) || starts_with(
        to_ascii_lower(target),
        "https://"@,
    )
}

/// Where a local link leads: an absolute target as it is; a relative one
/// joined to the directory of the current document (`.` when it has none),
/// which the caller then canonicalizes. The flag tells which.
pub open spec fn destination_spec(current: Seq<char>, target: Seq<char>) -> (Seq<char>, bool) {
    if target.len() > 0 && target[0] == '/' {
        (target, false)
    } else {
        let dir = match parent(current) {
            Some(d) => d,
            None => seq!['.'],
        };
        (join_rel(dir, target), true)
    }
}

/// The path a local link leads to from the document at `current`, and
/// whether it was relative.
pub fn nav_destination(current: &str, target: &str) -> (r: (String, bool))
    ensures
        (r.0@, r.1) == destination_spec(current@, target@),
{
    let t = chars_of(target);
    if t.len() > 0 && t[0] == '/' {
        (string_of(&t), false)
    } else {
        let dir = match parent_exec(&chars_of(current)) {
            Some(d) => d,
            None => {
                let mut d: Vec<char> = Vec::new();
                d.push('.');
                assert(d@ =~= seq!['.']);
                d
            },
        };
        (string_of(&join_rel_exec(&dir, &t)), true)
    }
}

fn prefix_eq(s: &Vec<char>, p: &str) -> (b: bool)
    ensures
        b == starts_with(s@, p@),
{
    let pc = chars_of(p);
    if s.len() < pc.len() {
        return false;
    }
    let mut head: Vec<char> = Vec::new();
    crate::text::push_range(&mut head, s, 0, pc.len());
    eq_chars(&head, &pc)
}

fn is_web_url_exec(target: &str) -> (b: bool)
    ensures
        b == is_web_url(target@),
{
    let lower = lower_ascii(&chars_of(target));
    prefix_eq(&lower, "http://") || prefix_eq(&lower, "https://")
}

// ---------------------------------------------------------------------------
// Review blocks
// ---------------------------------------------------------------------------
pub open spec fn review_escape_char(c: char) -> Seq<char> {
    if c == '\\' {
        seq!['\\', '\\']
    } else if c == '"' {
        seq!['\\', '"']
    } else {
        seq![c]
    }
}

/// The feedback text with `\` and `"` escaped by a backslash.
pub open spec fn review_escape(t: Seq<char>) -> Seq<char>
    decreases t.len(),
{
    if t.len() == 0 {
        seq![]
    } else {
        review_escape_char(t[0]) + review_escape(t.drop_first())
    }
}

/// Reading escaped feedback back: a backslash takes the character after it
/// literally.
pub open spec fn review_unescape(e: Seq<char>) -> Seq<char>
    decreases e.len(),
{
    if e.len() == 0 {
        seq![]
    } else if e[0] == '\\' && e.len() >= 2 {
        seq![e[1]] + review_unescape(e.skip(2))
    } else {
        seq![e[0]] + review_unescape(e.drop_first())
    }
}

/// The name a review block gives its document: the file name, else `?`.
pub open spec fn review_name(source: Seq<char>) -> Seq<char> {
    match file_name(source) {
        Some(n) => n,
        None => seq!['?'],
    }
}

/// The block appended to the review file.
pub open spec fn review_block_spec(source: Seq<char>, verdict: Seq<char>, text: Seq<char>) -> Seq<char> {
    "=======\n"@ + review_name(source) + " user feedback\n=======\n["@ + to_ascii_upper(verdict)
        + "] \""@ + review_escape(text) + "\"\n\n"@
}

proof fn lemma_review_escape_push(t: Seq<char>, c: char)
    ensures
        review_escape(t.push(c)) == review_escape(t) + review_escape_char(c),
    decreases t.len(),
{
    assert(t.push(c)[0] == if t.len() == 0 { c } else { t[0] });
    if t.len() == 0 {
        assert(t.push(c).drop_first() =~= Seq::<char>::empty());
        assert(review_escape(t.push(c).drop_first()) == Seq::<char>::empty());
        assert(review_escape_char(c) + Seq::<char>::empty() =~= review_escape_char(c));
        assert(Seq::<char>::empty() + review_escape_char(c) =~= review_escape_char(c));
    } else {
        lemma_review_escape_push(t.drop_first(), c);
        assert(t.push(c).drop_first() =~= t.drop_first().push(c));
        assert(review_escape_char(t[0]) + (review_escape(t.drop_first()) + review_escape_char(c))
            =~= (review_escape_char(t[0]) + review_escape(t.drop_first())) + review_escape_char(c));
    }
}

/// The feedback text can be read back from the block exactly: unescaping
/// what stands between the quotes gives the text.
pub proof fn law_review_text_recoverable(t: Seq<char>)
    ensures
        review_unescape(review_escape(t)) == t,
    decreases t.len(),
{
    if t.len() > 0 {
        law_review_text_recoverable(t.drop_first());
        let e = review_escape(t);
        let c = t[0];
        let rest = review_escape(t.drop_first());
        if c == '\\' || c == '"' {
            assert(e.skip(2) =~= rest);
            assert(e[0] == '\\' && e[1] == c);
        } else {
            assert(e.drop_first() =~= rest);
            assert(e[0] == c);
        }
        assert(t =~= seq![c] + t.drop_first());
    }
}

/// No quote in escaped feedback can end the quoted text early: each one
/// follows a backslash.
pub proof fn law_review_quotes_escaped(t: Seq<char>, i: int)
    requires
        0 <= i < review_escape(t).len(),
        review_escape(t)[i] == '"',
    ensures
        i > 0 && review_escape(t)[i - 1] == '\\',
    decreases t.len(),
{
    let e = review_escape(t);
    let c = t[0];
    let head = review_escape_char(c);
    let rest = review_escape(t.drop_first());
    assert(e == head + rest);
    if i < head.len() {
        if c == '\\' {
        } else if c == '"' {
        } else {
        }
    } else {
        law_review_quotes_escaped(t.drop_first(), i - head.len());
        if i - head.len() == 0 {
        }
    }
}

/// A review block opens with its rule line, carries the verdict in upper
/// case (no lower-case ASCII letter is left in it), and ends with the closing
/// quote and two newlines, so consecutive blocks stay apart.
pub proof fn law_review_block_shape(source: Seq<char>, verdict: Seq<char>, text: Seq<char>)
    ensures
        review_block_spec(source, verdict, text).take(8) == "=======\n"@,
        review_block_spec(source, verdict, text).skip(
            review_block_spec(source, verdict, text).len() - 3,
        ) == "\"\n\n"@,
        forall|i: int|
            0 <= i < verdict.len() ==> !('a' <= #[trigger] to_ascii_upper(verdict)[i] <= 'z'),
{
    let b = review_block_spec(source, verdict, text);
    let head = "=======\n"@;
    let tail = "\"\n\n"@;
    let mid = review_name(source) + " user feedback\n=======\n["@ + to_ascii_upper(verdict)
        + "] \""@ + review_escape(text);
    reveal_strlit("=======\n");
    reveal_strlit("\"\n\n");
    assert(b =~= head + mid + tail);
    assert(b.take(8) =~= head);
    assert(b.skip(b.len() - 3) =~= tail);
    assert forall|i: int| 0 <= i < verdict.len() implies !('a' <= #[trigger] to_ascii_upper(
        verdict,
    )[i] <= 'z') by {
        let c = verdict[i];
        if 'a' <= c && c <= 'z' {
            assert(((c as u32) - 32) as char == to_ascii_upper(verdict)[i]);
        }
    }
}

fn review_escape_exec(t: &Vec<char>) -> (r: Vec<char>)
    ensures
        r@ == review_escape(t@),
{
    let mut r: Vec<char> = Vec::new();
    let mut i: usize = 0;
    while i < t.len()
        invariant
            i <= t.len(),
            r@ == review_escape(t@.take(i as int)),
        decreases t.len() - i,
    {
        let c = t[i];
        proof {
            lemma_review_escape_push(t@.take(i as int), c);
            assert(t@.take(i + 1) =~= t@.take(i as int).push(c));
        }
        if c == '\\' {
            r.push('\\');
            r.push('\\');
        } else if c == '"' {
            r.push('\\');
            r.push('"');
        } else {
            r.push(c);
        }
        i = i + 1;
    }
    assert(t@.take(t.len() as int) =~= t@);
    r
}

/// The block that records a verdict on the document at `source`: its file
/// name, the verdict in upper case, and the text quoted.
pub fn review_block(source: &str, verdict: &str, text: &str) -> (b: String)
    ensures
        b@ == review_block_spec(source@, verdict@, text@),
{
    let name = match file_name_exec(&chars_of(source)) {
        Some(n) => n,
        None => {
            let mut q: Vec<char> = Vec::new();
            q.push('?');
            assert(q@ =~= seq!['?']);
            q
        },
    };
    let mut b = chars_of("=======\n");
    push_all(&mut b, &name);
    push_all(&mut b, &chars_of(" user feedback\n=======\n["));
    push_all(&mut b, &upper_ascii(&chars_of(verdict)));
    push_all(&mut b, &chars_of("] \""));
    push_all(&mut b, &review_escape_exec(&chars_of(text)));
    push_all(&mut b, &chars_of("\"\n\n"));
    string_of(&b)
}

// ---------------------------------------------------------------------------
// JSON string literals
// ---------------------------------------------------------------------------
#[verifier::external_type_specification]
#[verifier::external_body]
pub struct ExJsonError(serde_json::Error);

pub open spec fn hex_digit_lower(d: u32) -> char {
    if d < 10 {
        (48 + d) as char
    } else {
        (87 + d) as char
    }
}

/// How one character stands inside a JSON string literal.
pub open spec fn json_escape_char(c: char) -> Seq<char> {
    let u = c as u32;
    if c == '"' {
        seq!['\\', '"']
    } else if c == '\\' {
        seq!['\\', '\\']
    } else if u == 8 {
        seq!['\\', 'b']
    } else if u == 9 {
        seq!['\\', 't']
    } else if u == 10 {
        seq!['\\', 'n']
    } else if u == 12 {
        seq!['\\', 'f']
    } else if u == 13 {
        seq!['\\', 'r']
    } else if u < 32 {
        seq!['\\', 'u', '0', '0', hex_digit_lower(u / 16), hex_digit_lower(u % 16)]
    } else {
        seq![c]
    }
}

pub open spec fn json_body(s: Seq<char>) -> Seq<char>
    decreases s.len(),
{
    if s.len() == 0 {
        seq![]
    } else {
        json_escape_char(s[0]) + json_body(s.drop_first())
    }
}

/// The JSON string literal for `s`.
pub open spec fn json_quote(s: Seq<char>) -> Seq<char> {
    seq!['"'] + json_body(s) + seq!['"']
}

proof fn lemma_json_body_plain(s: Seq<char>, i: int)
    requires
        0 <= i < json_body(s).len(),
    ensures
        (json_body(s)[i] as u32) >= 32,
        json_body(s)[i] == '"' ==> i > 0 && json_body(s)[i - 1] == '\\',
    decreases s.len(),
{
    let e = json_escape_char(s[0]);
    let rest = json_body(s.drop_first());
    assert(json_body(s) == e + rest);
    if i >= e.len() {
        lemma_json_body_plain(s.drop_first(), i - e.len());
    } else {
        let u = s[0] as u32;
        if u < 32 && u != 8 && u != 9 && u != 10 && u != 12 && u != 13 {
            assert(u / 16 < 2 && u % 16 < 16);
        }
    }
}

/// The JSON literal a chunk travels in is safe to splice into a script: it
/// holds no raw control character (no line break), and every quote inside it
/// is escaped, so only its own closing quote ends it.
pub proof fn law_json_literal_is_closed(s: Seq<char>)
    ensures
        json_quote(s)[0] == '"',
        json_quote(s).last() == '"',
        forall|i: int|
            0 < i < json_quote(s).len() - 1 ==> (#[trigger] json_quote(s)[i] as u32) >= 32 && (
            json_quote(s)[i] == '"' ==> json_quote(s)[i - 1] == '\\'),
{
    let q = json_quote(s);
    let b = json_body(s);
    assert forall|i: int| 0 < i < q.len() - 1 implies (#[trigger] q[i] as u32) >= 32 && (q[i] == '"'
        ==> q[i - 1] == '\\') by {
        assert(q[i] == b[i - 1]);
        lemma_json_body_plain(s, i - 1);
        if q[i] == '"' {
            assert(q[i - 1] == b[i - 2]);
        }
    }
}

/// `serde_json::to_string` on a string slice. It writes the JSON string
/// literal for `s`: quotes around it, `"` and `\` escaped by a backslash,
/// characters below U+0020 as `\b \t \n \f \r` or `\u00xx` with lower-case
/// hex digits, everything else unchanged. It serialises into a `Vec<u8>`,
/// whose writes do not fail, so the result is `Ok`.
#[verifier::external_body]
fn json_string(s: &str) -> (r: Result<String, serde_json::Error>)
    ensures
        r is Ok,
        r matches Ok(j) ==> j@ == json_quote(s@),
{
    serde_json::to_string(s)
}

// ---------------------------------------------------------------------------
// Window state
// ---------------------------------------------------------------------------
/// What a window keeps between events: its history, the review file (in
/// review mode) and whether a verdict was written, and for a document that
/// streams, all its lines and the first one not yet sent.
pub struct WindowState {
    pub history: History,
    pub review_output: Option<String>,
    pub review_submitted: bool,
    pub stream_all_lines: Vec<String>,
    pub stream_cursor: usize,
}

pub struct WindowView {
    pub history: HistoryView,
    pub review_output: Option<Seq<char>>,
    pub review_submitted: bool,
    pub lines: Seq<Seq<char>>,
    pub cursor: nat,
}

pub open spec fn opt_view(o: Option<String>) -> Option<Seq<char>> {
    match o {
        Some(s) => Some(s@),
        None => None,
    }
}

impl View for WindowState {
    type V = WindowView;

    open spec fn view(&self) -> WindowView {
        WindowView {
            history: self.history@,
            review_output: opt_view(self.review_output),
            review_submitted: self.review_submitted,
            lines: string_views(self.stream_all_lines@),
            cursor: self.stream_cursor as nat,
        }
    }
}

/// Lines in one chunk sent from `cursor` of `total`.
pub open spec fn chunk_len(total: nat, cursor: nat) -> nat {
    min_nat(STREAM_CHUNK_LINES as nat, (total - cursor) as nat)
}

/// The window after loading a document: one that streams keeps its lines
/// (as `str::lines` gives them) with the first 400 already shown; any other
/// keeps none.
pub open spec fn stream_loaded(w: WindowView, streaming: bool, contents: Seq<char>) -> WindowView {
    WindowView {
        history: w.history,
        review_output: w.review_output,
        review_submitted: w.review_submitted,
        lines: if streaming {
            lines(contents)
        } else {
            seq![]
        },
        cursor: if streaming {
            min_nat(STREAM_INITIAL_LINES as nat, lines(contents).len())
        } else {
            0
        },
    }
}

/// The script that appends a rendered chunk to the page.
pub open spec fn chunk_script(html: Seq<char>) -> Seq<char> {
    "window.mdv && window.mdv.appendChunk("@ + json_quote(html) + ")"@
}

/// Sending the next chunk: the next up to 200 lines, rendered, and the
/// cursor moved past them; nothing once every line was sent.
pub open spec fn next_chunk_spec(w: WindowView) -> (WindowView, Option<Seq<char>>) {
    if w.cursor >= w.lines.len() {
        (w, None)
    } else {
        let k = chunk_len(w.lines.len(), w.cursor);
        let html = md_to_html_spec(
            join(w.lines.subrange(w.cursor as int, (w.cursor + k) as int), seq!['\n']),
            w.history.current,
        );
        (
            WindowView {
                history: w.history,
                review_output: w.review_output,
                review_submitted: w.review_submitted,
                lines: w.lines,
                cursor: w.cursor + k,
            },
            Some(chunk_script(html)),
        )
    }
}

pub open spec fn bool_text(b: bool) -> Seq<char> {
    if b {
        "true"@
    } else {
        "false"@
    }
}

/// The script run when a page is ready: it enables the history buttons that
/// have somewhere to go, and the review panel until a verdict is written.
pub open spec fn ready_script_spec(w: WindowView) -> Seq<char> {
    "window.mdv && window.mdv.setHistory("@ + bool_text(w.history.back.len() > 0) + ", "@
        + bool_text(w.history.fwd.len() > 0) + ")"@ + if w.review_output is Some
        && !w.review_submitted {
        ";window.mdv && window.mdv.enableReview()"@
    } else {
        seq![]
    }
}

/// The chunks a document streams from line `cursor` on: each the next up to
/// 200 lines.
pub open spec fn chunks_from(ls: Seq<Seq<char>>, cursor: nat) -> Seq<Seq<Seq<char>>>
    decreases ls.len() - cursor,
{
    if cursor >= ls.len() {
        seq![]
    } else {
        let k = chunk_len(ls.len(), cursor);
        seq![ls.subrange(cursor as int, (cursor + k) as int)] + chunks_from(ls, cursor + k)
    }
}

/// Streaming shows every line exactly once and in order: the lines shown
/// first, followed by the chunks sent after them, are the document's lines;
/// no chunk is empty or longer than 200 lines, and there are as many
/// chunks as the remaining lines divided by 200, rounded up.
pub proof fn law_chunks_cover_document(ls: Seq<Seq<char>>, shown: nat)
    requires
        shown <= ls.len(),
    ensures
        ls.take(shown as int) + chunks_from(ls, shown).flatten() == ls,
        chunks_from(ls, shown).len() == (ls.len() - shown + STREAM_CHUNK_LINES - 1)
            / STREAM_CHUNK_LINES as int,
        forall|i: int|
            0 <= i < chunks_from(ls, shown).len() ==> 0 < (#[trigger] chunks_from(ls, shown)[i]).len()
                <= STREAM_CHUNK_LINES,
    decreases ls.len() - shown,
{
    if shown >= ls.len() {
        assert(ls.take(shown as int) =~= ls);
        assert(chunks_from(ls, shown).flatten() =~= Seq::<Seq<char>>::empty());
    } else {
        let k = chunk_len(ls.len(), shown);
        let rest = chunks_from(ls, shown + k);
        law_chunks_cover_document(ls, shown + k);
        let cs = chunks_from(ls, shown);
        assert(cs == seq![ls.subrange(shown as int, (shown + k) as int)] + rest);
        assert(cs.drop_first() =~= rest);
        assert(cs.flatten() == cs[0] + rest.flatten());
        assert(ls.take(shown as int) + cs.flatten() =~= ls.take((shown + k) as int) + rest.flatten());
        let m: int = ls.len() - shown;
        assert((m + 199) / 200 == 1 + (m - k + 199) / 200) by (nonlinear_arith)
            requires
                0 < m,
                k == (if m < 200 { m } else { 200 }),
        ;
        assert forall|i: int| 0 <= i < cs.len() implies 0 < (#[trigger] cs[i]).len()
            <= STREAM_CHUNK_LINES by {
            if i > 0 {
                assert(cs[i] == rest[i - 1]);
            }
        }
    }
}

/// A large document is shown whole and once: the window starts streaming
/// right after the lines the first render showed, and those lines followed
/// by the chunks sent from there are the document's lines.
pub proof fn law_stream_continues_first_render(
    path: Seq<char>,
    size: u64,
    contents: Seq<char>,
    w: WindowView,
)
    requires
        size > STREAM_THRESHOLD,
    ensures
        render_markdown_spec(path, size, contents).streaming matches Some(st) && st.emitted_lines
            == stream_loaded(w, true, contents).cursor,
        lines(contents).take(stream_loaded(w, true, contents).cursor as int) + chunks_from(
            lines(contents),
            stream_loaded(w, true, contents).cursor,
        ).flatten() == lines(contents),
{
    let ls = lines(contents);
    let shown = min_nat(STREAM_INITIAL_LINES as nat, ls.len());
    assert((shown as usize) as nat == shown);
    law_chunks_cover_document(ls, shown);
}

// ---------------------------------------------------------------------------
// Messages from the page, and what the window does about them
// ---------------------------------------------------------------------------
/// A message the page posts.
#[derive(Debug)]
pub enum IpcMsg {
    Nav { target: String },
    History { dir: String },
    Review { verdict: String, text: String },
    Ready,
    ChunkAck { next: usize },
}

pub enum IpcView {
    Nav { target: Seq<char> },
    History { dir: Seq<char> },
    Review { verdict: Seq<char>, text: Seq<char> },
    Ready,
    ChunkAck { next: nat },
}

impl View for IpcMsg {
    type V = IpcView;

    open spec fn view(&self) -> IpcView {
        match self {
            IpcMsg::Nav { target } => IpcView::Nav { target: target@ },
            IpcMsg::History { dir } => IpcView::History { dir: dir@ },
            IpcMsg::Review { verdict, text } => IpcView::Review { verdict: verdict@, text: text@ },
            IpcMsg::Ready => IpcView::Ready,
            IpcMsg::ChunkAck { next } => IpcView::ChunkAck { next: *next as nat },
        }
    }
}

/// Something the window asks its host to do.
#[derive(Debug)]
pub enum Action {
    /// Hand a web address to the system browser.
    OpenExternal(String),
    /// Show the local document a link leads to.
    Navigate(String),
    /// Step back (`"back"`) or forward in history.
    GoHistory(String),
    /// Append `block` to the review file `output`; once written, print
    /// `notice` and call `review_written`.
    AppendReview { output: String, block: String, notice: String },
    /// Run a script in the page.
    Eval(String),
    /// Print a line to standard error.
    Log(String),
}

pub enum ActionView {
    OpenExternal(Seq<char>),
    Navigate(Seq<char>),
    GoHistory(Seq<char>),
    AppendReview { output: Seq<char>, block: Seq<char>, notice: Seq<char> },
    Eval(Seq<char>),
    Log(Seq<char>),
}

impl View for Action {
    type V = ActionView;

    open spec fn view(&self) -> ActionView {
        match self {
            Action::OpenExternal(u) => ActionView::OpenExternal(u@),
            Action::Navigate(p) => ActionView::Navigate(p@),
            Action::GoHistory(d) => ActionView::GoHistory(d@),
            Action::AppendReview { output, block, notice } => ActionView::AppendReview {
                output: output@,
                block: block@,
                notice: notice@,
            },
            Action::Eval(s) => ActionView::Eval(s@),
            Action::Log(l) => ActionView::Log(l@),
        }
    }
}

pub open spec fn action_views(a: Seq<Action>) -> Seq<ActionView> {
    a.map_values(|x: Action| x@)
}

pub open spec fn duplicate_review_notice() -> Seq<char> {
    "review: duplicate submission ignored"@
}

pub open spec fn not_review_mode_notice() -> Seq<char> {
    "review submit ignored: not in review mode"@
}

pub open spec fn stream_done_script() -> Seq<char> {
    "window.mdv && window.mdv.streamDone()"@
}

/// What the window does on a message: the state after it and the actions.
pub open spec fn ipc_spec(w: WindowView, m: IpcView) -> (WindowView, Seq<ActionView>) {
    match m {
        IpcView::Nav { target } => if is_web_url(target) {
            (w, seq![ActionView::OpenExternal(target)])
        } else {
            (w, seq![ActionView::Navigate(target)])
        },
        IpcView::History { dir } => (w, seq![ActionView::GoHistory(dir)]),
        IpcView::Review { verdict, text } => if w.review_submitted {
            (w, seq![ActionView::Log(duplicate_review_notice())])
        } else {
            match w.review_output {
                None => (w, seq![ActionView::Log(not_review_mode_notice())]),
                Some(out) => (
                    w,
                    seq![
                        ActionView::AppendReview {
                            output: out,
                            block: review_block_spec(w.history.current, verdict, text),
                            notice: "review: appended ["@ + to_ascii_upper(verdict) + "] to "@
                                + out,
                        },
                    ],
                ),
            }
        },
        IpcView::Ready => {
            let first = ActionView::Eval(ready_script_spec(w));
            if w.cursor < w.lines.len() {
                let (w2, s) = next_chunk_spec(w);
                (w2, seq![first, ActionView::Eval(s.unwrap())])
            } else {
                (w, seq![first])
            }
        },
        IpcView::ChunkAck { .. } => if w.cursor < w.lines.len() {
            let (w2, s) = next_chunk_spec(w);
            (w2, seq![ActionView::Eval(s.unwrap())])
        } else {
            (w, seq![ActionView::Eval(stream_done_script())])
        },
    }
}

/// A window appends at most one feedback block: once one is recorded, every
/// later submission is only reported as a duplicate and changes nothing.
pub proof fn law_one_review_per_window(w: WindowView, verdict: Seq<char>, text: Seq<char>)
    requires
        w.review_submitted,
    ensures
        ipc_spec(w, IpcView::Review { verdict, text }) == (w, seq![
            ActionView::Log(duplicate_review_notice()),
        ]),
{
}

/// Messages never move the window's history; only the host's navigation
/// does. Streaming only ever moves the cursor forward, never past the end.
pub proof fn law_messages_keep_history(w: WindowView, m: IpcView)
    requires
        w.cursor <= w.lines.len(),
    ensures
        ipc_spec(w, m).0.history == w.history,
        w.cursor <= ipc_spec(w, m).0.cursor <= w.lines.len(),
        ipc_spec(w, m).0.lines == w.lines,
{
}

fn bool_chars(b: bool) -> (r: Vec<char>)
    ensures
        r@ == bool_text(b),
{
    if b {
        chars_of("true")
    } else {
        chars_of("false")
    }
}

impl WindowState {
    /// The cursor never passes the last line.
    pub open spec fn wf(&self) -> bool {
        self.stream_cursor <= self.stream_all_lines@.len()
    }

    /// A window opening `path`, in review mode when a review file is given.
    pub fn new(path: String, review_output: Option<String>) -> (w: WindowState)
        ensures
            w.wf(),
            w@ == (WindowView {
                history: HistoryView { current: path@, back: seq![], fwd: seq![] },
                review_output: opt_view(review_output),
                review_submitted: false,
                lines: seq![],
                cursor: 0,
            }),
    {
        let w = WindowState {
            history: History::new(path),
            review_output,
            review_submitted: false,
            stream_all_lines: Vec::new(),
            stream_cursor: 0,
        };
        assert(w@.lines =~= Seq::<Seq<char>>::empty());
        w
    }

    /// Keep what streaming needs for the document just rendered, whose
    /// text is `contents`.
    pub fn load_stream(&mut self, streaming: bool, contents: &str)
        ensures
            final(self).wf(),
            final(self)@ == stream_loaded(old(self)@, streaming, contents@),
    {
        if streaming {
            let ls = split_lines(&chars_of(contents));
            assert(char_views(ls@) =~= ls@.map_values(|l: Vec<char>| l@));
            let all = strings_of(&ls);
            let n = all.len();
            self.stream_all_lines = all;
            self.stream_cursor = if STREAM_INITIAL_LINES < n {
                STREAM_INITIAL_LINES
            } else {
                n
            };
        } else {
            self.stream_all_lines = Vec::new();
            self.stream_cursor = 0;
            assert(self@.lines =~= Seq::<Seq<char>>::empty());
        }
    }

    /// The next chunk's script, moving the cursor past its lines; `None`
    /// once every line was sent.
    pub fn next_chunk(&mut self) -> (r: Option<String>)
        requires
            old(self).wf(),
        ensures
            final(self).wf(),
            final(self)@ == next_chunk_spec(old(self)@).0,
            opt_view(r) == next_chunk_spec(old(self)@).1,
    {
        if self.stream_cursor >= self.stream_all_lines.len() {
            return None;
        }
        let (html, consumed) = render_chunk(
            self.stream_all_lines.as_slice(),
            self.stream_cursor,
            self.history.current.as_str(),
        );
        self.stream_cursor = self.stream_cursor + consumed;
        let json = match json_string(html.as_str()) {
            Ok(j) => j,
            Err(_) => string_of(&chars_of("\"\"")),
        };
        let mut script = chars_of("window.mdv && window.mdv.appendChunk(");
        push_all(&mut script, &chars_of(json.as_str()));
        push_all(&mut script, &chars_of(")"));
        Some(string_of(&script))
    }

    /// The script for a page that has just loaded.
    pub fn ready_script(&self) -> (s: String)
        ensures
            s@ == ready_script_spec(self@),
    {
        let mut s = chars_of("window.mdv && window.mdv.setHistory(");
        push_all(&mut s, &bool_chars(self.history.back.len() > 0));
        push_all(&mut s, &chars_of(", "));
        push_all(&mut s, &bool_chars(self.history.fwd.len() > 0));
        push_all(&mut s, &chars_of(")"));
        if self.review_output.is_some() && !self.review_submitted {
            push_all(&mut s, &chars_of(";window.mdv && window.mdv.enableReview()"));
        } else {
            assert(s@ + Seq::<char>::empty() =~= s@);
        }
        string_of(&s)
    }

    /// Record that the verdict was written.
    pub fn review_written(&mut self)
        ensures
            final(self)@ == (WindowView { review_submitted: true, ..old(self)@ }),
            final(self).wf() == old(self).wf(),
    {
        self.review_submitted = true;
    }

    /// Decide what to do about a message from the page.
    pub fn handle_ipc(&mut self, msg: IpcMsg) -> (acts: Vec<Action>)
        requires
            old(self).wf(),
        ensures
            final(self).wf(),
            final(self)@ == ipc_spec(old(self)@, msg@).0,
            action_views(acts@) == ipc_spec(old(self)@, msg@).1,
    {
        let mut acts: Vec<Action> = Vec::new();
        match msg {
            IpcMsg::Nav { target } => {
                if is_web_url_exec(target.as_str()) {
                    acts.push(Action::OpenExternal(target));
                } else {
                    acts.push(Action::Navigate(target));
                }
            },
            IpcMsg::History { dir } => {
                acts.push(Action::GoHistory(dir));
            },
            IpcMsg::Review { verdict, text } => {
                if self.review_submitted {
                    acts.push(Action::Log(string_of(&chars_of("review: duplicate submission ignored"))));
                } else {
                    match &self.review_output {
                        None => {
                            acts.push(
                                Action::Log(
                                    string_of(&chars_of("review submit ignored: not in review mode")),
                                ),
                            );
                        },
                        Some(out) => {
                            let block = review_block(
                                self.history.current.as_str(),
                                verdict.as_str(),
                                text.as_str(),
                            );
                            let mut notice = chars_of("review: appended [");
                            push_all(&mut notice, &upper_ascii(&chars_of(verdict.as_str())));
                            push_all(&mut notice, &chars_of("] to "));
                            push_all(&mut notice, &chars_of(out.as_str()));
                            acts.push(
                                Action::AppendReview {
                                    output: out.clone(),
                                    block,
                                    notice: string_of(&notice),
                                },
                            );
                        },
                    }
                }
            },
            IpcMsg::Ready => {
                acts.push(Action::Eval(self.ready_script()));
                if self.stream_cursor < self.stream_all_lines.len() {
                    if let Some(s) = self.next_chunk() {
                        acts.push(Action::Eval(s));
                    }
                }
            },
            IpcMsg::ChunkAck { .. } => {
                if self.stream_cursor < self.stream_all_lines.len() {
                    if let Some(s) = self.next_chunk() {
                        acts.push(Action::Eval(s));
                    }
                } else {
                    acts.push(Action::Eval(string_of(&chars_of("window.mdv && window.mdv.streamDone()"))));
                }
            },
        }
        assert(action_views(acts@) =~= ipc_spec(old(self)@, msg@).1);
        acts
    }
}

} // verus!
