//! Math preservation. Before CommonMark parsing, every math span (`$$..$$`,
//! `\[..\]`, `\(..\)`, `$..$`) is swapped for an all-alphanumeric placeholder
//! so that backslash escapes inside it survive; after rendering, each
//! placeholder is swapped back for its span. Fenced code (backtick or tilde)
//! and inline code spans are copied verbatim and never searched for math.
use vstd::prelude::*;
use crate::text::{
    decimal, decimal_chars, find_newline, lemma_next_newline_bounds, matches_at, next_newline,
    occurs_at, push_all, push_range, replace_all, replace_all_exec,
};

verus! {

// ---------------------------------------------------------------------------
// Specifications
// ---------------------------------------------------------------------------
/// The placeholder that stands for the math span with index `idx`:
/// `MDV0MATH0<idx>0MDV`.
pub open spec fn placeholder(idx: nat) -> Seq<char> {
    seq!['M', 'D', 'V', '0', 'M', 'A', 'T', 'H', '0'] + decimal(idx) + seq!['0', 'M', 'D', 'V']
}

/// Number of consecutive backticks starting at `i`.
pub open spec fn backtick_run(s: Seq<char>, i: int) -> int
    decreases s.len() - i,
{
    if 0 <= i < s.len() && s[i] == '`' {
        1 + backtick_run(s, i + 1)
    } else {
        0
    }
}

/// Number of spaces (at most three) starting at `i`.
pub open spec fn lead_spaces(s: Seq<char>, i: int) -> int {
    if 0 <= i < s.len() && s[i] == ' ' {
        if i + 1 < s.len() && s[i + 1] == ' ' {
            if i + 2 < s.len() && s[i + 2] == ' ' {
                3
            } else {
                2
            }
        } else {
            1
        }
    } else {
        0
    }
}

/// The fence character when the line starting at `i` opens with up to three
/// spaces and then three backticks or three tildes.
pub open spec fn fence_at(s: Seq<char>, i: int) -> Option<char> {
    let j = i + lead_spaces(s, i);
    if j + 2 < s.len() && s[j] == '`' && s[j + 1] == '`' && s[j + 2] == '`' {
        Some('`')
    } else if j + 2 < s.len() && s[j] == '~' && s[j + 1] == '~' && s[j + 2] == '~' {
        Some('~')
    } else {
        None
    }
}

/// Fence state after a fence line with marker `ch`: a closed fence opens, the
/// open fence of the same marker closes, any other line leaves it alone.
pub open spec fn toggle_fence(fence: Option<char>, ch: char) -> Option<char> {
    match fence {
        None => Some(ch),
        Some(cur) => if cur == ch {
            None
        } else {
            Some(cur)
        },
    }
}

/// End (exclusive) of the line starting at `i`, its `'\n'` included.
pub open spec fn line_copy_end(s: Seq<char>, i: int) -> int {
    let e = next_newline(s, i);
    if e < s.len() {
        e + 1
    } else {
        s.len() as int
    }
}

/// End (exclusive) of the closing run of exactly `open` backticks, searching
/// from `i`; a longer run is skipped whole.
pub open spec fn inline_code_close(s: Seq<char>, i: int, open: int) -> Option<int>
    decreases s.len() - i,
{
    if open <= 0 || i < 0 || i + open > s.len() {
        None
    } else {
        let run = backtick_run(s, i);
        proof {
            lemma_backtick_run_bound(s, i);
        }
        if run >= open {
            if run == open {
                Some(i + open)
            } else {
                inline_code_close(s, i + run, open)
            }
        } else {
            inline_code_close(s, i + 1, open)
        }
    }
}

/// First position at or after `i` where `d` occurs.
pub open spec fn find_close(s: Seq<char>, i: int, d: Seq<char>) -> Option<int>
    decreases s.len() - i,
{
    if i < 0 || d.len() == 0 || i + d.len() > s.len() {
        None
    } else if occurs_at(s, d, i) {
        Some(i)
    } else {
        find_close(s, i + 1, d)
    }
}

pub open spec fn is_blank(c: char) -> bool {
    c == ' ' || c == '\t' || c == '\n'
}

/// The closing `$` of an inline `$..$` span, scanning from `i`: a `$` right
/// after a blank is not a closer, `$$` ends the search without a closer, a
/// backslash skips the character after it, and a newline stops the search.
pub open spec fn dollar_scan(s: Seq<char>, i: int) -> Option<int>
    decreases s.len() - i,
{
    if i < 1 || i >= s.len() {
        None
    } else if s[i] == '\n' {
        None
    } else if s[i] == '$' {
        if is_blank(s[i - 1]) {
            dollar_scan(s, i + 1)
        } else if i + 1 < s.len() && s[i + 1] == '$' {
            None
        } else {
            Some(i)
        }
    } else if s[i] == '\\' {
        if i + 2 > s.len() {
            None
        } else {
            dollar_scan(s, i + 2)
        }
    } else {
        dollar_scan(s, i + 1)
    }
}

/// The closing `$` of an inline span whose content starts at `start`; the
/// content may not start with a blank.
pub open spec fn inline_dollar_close(s: Seq<char>, start: int) -> Option<int> {
    if start < 1 || start >= s.len() || is_blank(s[start]) {
        None
    } else {
        dollar_scan(s, start)
    }
}

pub open spec fn dd() -> Seq<char> {
    seq!['$', '$']
}

pub open spec fn bracket_close() -> Seq<char> {
    seq!['\\', ']']
}

pub open spec fn paren_close() -> Seq<char> {
    seq!['\\', ')']
}

/// End (exclusive) of the math span that starts at `i`, trying `$$..$$`,
/// `\[..\]`, `\(..\)` and `$..$` in that order.
pub open spec fn math_end_at(s: Seq<char>, i: int) -> Option<int> {
    if 0 <= i && i + 1 < s.len() && s[i] == '$' && s[i + 1] == '$' && find_close(
        s,
        i + 2,
        dd(),
    ) is Some {
        Some(find_close(s, i + 2, dd())->0 + 2)
    } else if 0 <= i && i + 1 < s.len() && s[i] == '\\' && s[i + 1] == '[' && find_close(
        s,
        i + 2,
        bracket_close(),
    ) is Some {
        Some(find_close(s, i + 2, bracket_close())->0 + 2)
    } else if 0 <= i && i + 1 < s.len() && s[i] == '\\' && s[i + 1] == '(' && find_close(
        s,
        i + 2,
        paren_close(),
    ) is Some {
        Some(find_close(s, i + 2, paren_close())->0 + 2)
    } else if 0 <= i < s.len() && s[i] == '$' && inline_dollar_close(s, i + 1) is Some {
        Some(inline_dollar_close(s, i + 1)->0 + 1)
    } else {
        None
    }
}

/// Literal text copied from the source and math spans cut out of it,
/// interleaved: `t0 m0 t1 m1 .. tn` (one more text than spans).
pub open spec fn interleave(texts: Seq<Seq<char>>, spans: Seq<Seq<char>>) -> Seq<char>
    decreases spans.len(),
{
    if spans.len() == 0 {
        if texts.len() > 0 {
            texts[0]
        } else {
            seq![]
        }
    } else {
        interleave(texts.drop_last(), spans.drop_last()) + spans.last() + texts.last()
    }
}

pub open spec fn placeholders(n: nat) -> Seq<Seq<char>> {
    Seq::new(n, |k: int| placeholder(k as nat))
}

/// State of the scanner: position, open fence, whether `i` starts a line,
/// output so far, spans cut out so far, finished literal texts and the literal
/// text of the current segment.
pub struct Scan {
    pub i: int,
    pub fence: Option<char>,
    pub line_start: bool,
    pub out: Seq<char>,
    pub store: Seq<Seq<char>>,
    pub texts: Seq<Seq<char>>,
    pub cur: Seq<char>,
}

/// One step of the scanner from state `st` over source `s`.
pub open spec fn scan_step(s: Seq<char>, st: Scan) -> Scan {
    let i = st.i;
    if st.line_start && fence_at(s, i) is Some {
        let e = line_copy_end(s, i);
        let piece = s.subrange(i, e);
        Scan {
            i: e,
            fence: toggle_fence(st.fence, fence_at(s, i)->0),
            line_start: true,
            out: st.out + piece,
            cur: st.cur + piece,
            ..st
        }
    } else if st.fence is Some {
        Scan {
            i: i + 1,
            line_start: s[i] == '\n',
            out: st.out.push(s[i]),
            cur: st.cur.push(s[i]),
            ..st
        }
    } else if s[i] == '`' {
        let open = backtick_run(s, i);
        let end = match inline_code_close(s, i + open, open) {
            Some(e) => e,
            None => s.len() as int,
        };
        let piece = s.subrange(i, end);
        Scan { i: end, line_start: false, out: st.out + piece, cur: st.cur + piece, ..st }
    } else if math_end_at(s, i) is Some {
        let e = math_end_at(s, i)->0;
        Scan {
            i: e,
            line_start: false,
            out: st.out + placeholder(st.store.len()),
            store: st.store.push(s.subrange(i, e)),
            texts: st.texts.push(st.cur),
            cur: seq![],
            ..st
        }
    } else {
        Scan {
            i: i + 1,
            line_start: s[i] == '\n',
            out: st.out.push(s[i]),
            cur: st.cur.push(s[i]),
            ..st
        }
    }
}

/// Run the scanner from `st` to the end of `s`.
pub open spec fn scan_from(s: Seq<char>, st: Scan) -> Scan
    decreases s.len() - st.i,
{
    if st.i < 0 || st.i >= s.len() {
        st
    } else {
        let nx = scan_step(s, st);
        if nx.i <= st.i || nx.i > s.len() {
            st
        } else {
            scan_from(s, nx)
        }
    }
}

pub open spec fn scan_start() -> Scan {
    Scan {
        i: 0,
        fence: None,
        line_start: true,
        out: seq![],
        store: seq![],
        texts: seq![],
        cur: seq![],
    }
}

/// Source with math swapped for placeholders, and the math spans in order.
pub open spec fn stash_spec(s: Seq<char>) -> (Seq<char>, Seq<Seq<char>>) {
    let fin = scan_from(s, scan_start());
    (fin.out, fin.store)
}

/// A math span made safe for HTML: `&`, `<` and `>` become entities.
pub open spec fn escape_math_char(c: char) -> Seq<char> {
    if c == '&' {
        seq!['&', 'a', 'm', 'p', ';']
    } else if c == '<' {
        seq!['&', 'l', 't', ';']
    } else if c == '>' {
        seq!['&', 'g', 't', ';']
    } else {
        seq![c]
    }
}

pub open spec fn escape_math(m: Seq<char>) -> Seq<char>
    decreases m.len(),
{
    if m.len() == 0 {
        seq![]
    } else {
        escape_math(m.drop_last()) + escape_math_char(m.last())
    }
}

/// Placeholders `0..store.len()` replaced, in index order, by their escaped
/// spans.
pub open spec fn restore_spec(html: Seq<char>, store: Seq<Seq<char>>) -> Seq<char>
    decreases store.len(),
{
    if store.len() == 0 {
        html
    } else {
        replace_all(
            restore_spec(html, store.drop_last()),
            placeholder((store.len() - 1) as nat),
            escape_math(store.last()),
        )
    }
}

// ---------------------------------------------------------------------------
// Executable scanner
// ---------------------------------------------------------------------------
pub(crate) fn backtick_run_exec(s: &Vec<char>, i: usize) -> (r: usize)
    requires
        i <= s.len(),
    ensures
        r == backtick_run(s@, i as int),
        i + r <= s.len(),
{
    let mut k = i;
    while k < s.len() && s[k] == '`'
        invariant
            i <= k <= s.len(),
            backtick_run(s@, i as int) == (k - i) + backtick_run(s@, k as int),
        decreases s.len() - k,
    {
        k = k + 1;
    }
    k - i
}

fn fence_at_exec(s: &Vec<char>, i: usize) -> (r: Option<char>)
    requires
        i <= s.len(),
    ensures
        r == fence_at(s@, i as int),
{
    let mut j = i;
    let mut spaces: usize = 0;
    while j < s.len() && s[j] == ' ' && spaces < 3
        invariant
            i <= j <= s.len(),
            spaces == j - i,
            spaces <= 3,
            forall|k: int| i <= k < j ==> s@[k] == ' ',
        decreases 3 - spaces,
    {
        j = j + 1;
        spaces = spaces + 1;
    }
    assert(j == i + lead_spaces(s@, i as int));
    if j < s.len() && s.len() - j > 2 && s[j] == '`' && s[j + 1] == '`' && s[j + 2] == '`' {
        Some('`')
    } else if j < s.len() && s.len() - j > 2 && s[j] == '~' && s[j + 1] == '~' && s[j + 2] == '~' {
        Some('~')
    } else {
        None
    }
}

pub(crate) fn inline_code_close_exec(s: &Vec<char>, start: usize, open: usize) -> (r: Option<usize>)
    requires
        start <= s.len(),
        open >= 1,
    ensures
        match r {
            Some(e) => inline_code_close(s@, start as int, open as int) == Some(e as int),
            None => inline_code_close(s@, start as int, open as int) is None,
        },
        r matches Some(e) ==> start < e <= s.len(),
{
    let mut i = start;
    while open <= s.len() - i
        invariant
            start <= i <= s.len(),
            open >= 1,
            inline_code_close(s@, i as int, open as int) == inline_code_close(
                s@,
                start as int,
                open as int,
            ),
        decreases s.len() - i,
    {
        let run = backtick_run_exec(s, i);
        if run >= open {
            if run == open {
                return Some(i + open);
            }
            i = i + run;
        } else {
            i = i + 1;
        }
    }
    None
}

fn find_close_exec(s: &Vec<char>, start: usize, d: &Vec<char>) -> (r: Option<usize>)
    requires
        start <= s.len(),
        d.len() >= 1,
    ensures
        match r {
            Some(e) => find_close(s@, start as int, d@) == Some(e as int),
            None => find_close(s@, start as int, d@) is None,
        },
        r matches Some(e) ==> start <= e && e + d.len() <= s.len(),
{
    let mut i = start;
    while d.len() <= s.len() - i
        invariant
            start <= i <= s.len(),
            d.len() >= 1,
            find_close(s@, i as int, d@) == find_close(s@, start as int, d@),
        decreases s.len() - i,
    {
        if matches_at(s, i, d) {
            return Some(i);
        }
        i = i + 1;
    }
    None
}

fn is_blank_exec(c: char) -> (b: bool)
    ensures
        b == is_blank(c),
{
    c == ' ' || c == '\t' || c == '\n'
}

fn inline_dollar_close_exec(s: &Vec<char>, start: usize) -> (r: Option<usize>)
    requires
        1 <= start <= s.len(),
    ensures
        match r {
            Some(e) => inline_dollar_close(s@, start as int) == Some(e as int),
            None => inline_dollar_close(s@, start as int) is None,
        },
        r matches Some(e) ==> start <= e < s.len(),
{
    if start >= s.len() || is_blank_exec(s[start]) {
        return None;
    }
    let mut i = start;
    while i < s.len()
        invariant
            1 <= start <= i,
            start < s.len(),
            !is_blank(s@[start as int]),
            dollar_scan(s@, i as int) == dollar_scan(s@, start as int),
        decreases s.len() - i,
    {
        let c = s[i];
        if c == '\n' {
            return None;
        } else if c == '$' {
            if is_blank_exec(s[i - 1]) {
                i = i + 1;
            } else if i + 1 < s.len() && s[i + 1] == '$' {
                return None;
            } else {
                return Some(i);
            }
        } else if c == '\\' {
            if s.len() - i < 2 {
                return None;
            }
            i = i + 2;
        } else {
            i = i + 1;
        }
    }
    None
}

fn math_end_at_exec(s: &Vec<char>, i: usize) -> (r: Option<usize>)
    requires
        i < s.len(),
    ensures
        match r {
            Some(e) => math_end_at(s@, i as int) == Some(e as int),
            None => math_end_at(s@, i as int) is None,
        },
        r matches Some(e) ==> i < e <= s.len(),
{
    if i + 1 < s.len() && s[i] == '$' && s[i + 1] == '$' {
        let d = vec!['$', '$'];
        assert(d@ =~= dd());
        if let Some(e) = find_close_exec(s, i + 2, &d) {
            return Some(e + 2);
        }
    }
    if i + 1 < s.len() && s[i] == '\\' && s[i + 1] == '[' {
        let d = vec!['\\', ']'];
        assert(d@ =~= bracket_close());
        if let Some(e) = find_close_exec(s, i + 2, &d) {
            return Some(e + 2);
        }
    }
    if i + 1 < s.len() && s[i] == '\\' && s[i + 1] == '(' {
        let d = vec!['\\', ')'];
        assert(d@ =~= paren_close());
        if let Some(e) = find_close_exec(s, i + 2, &d) {
            return Some(e + 2);
        }
    }
    if s[i] == '$' {
        if let Some(e) = inline_dollar_close_exec(s, i + 1) {
            return Some(e + 1);
        }
    }
    None
}

pub fn placeholder_exec(idx: usize) -> (r: Vec<char>)
    ensures
        r@ == placeholder(idx as nat),
{
    let mut r = vec!['M', 'D', 'V', '0', 'M', 'A', 'T', 'H', '0'];
    let d = decimal_chars(idx);
    push_all(&mut r, &d);
    let tail = vec!['0', 'M', 'D', 'V'];
    push_all(&mut r, &tail);
    r
}


/// The views of a sequence of character vectors.
pub open spec fn views(v: Seq<Vec<char>>) -> Seq<Seq<char>> {
    v.map_values(|x: Vec<char>| x@)
}

/// Swap every math span of `src` for its placeholder. Returns the rewritten
/// source and the spans (with their delimiters) in order of appearance.
pub fn stash_math(src: &Vec<char>) -> (r: (Vec<char>, Vec<Vec<char>>))
    ensures
        r.0@ == stash_spec(src@).0,
        views(r.1@) == stash_spec(src@).1,
{
    let mut out: Vec<char> = Vec::new();
    let mut store: Vec<Vec<char>> = Vec::new();
    let mut i: usize = 0;
    let mut fence: Option<char> = None;
    let mut ls = true;
    let ghost mut texts: Seq<Seq<char>> = seq![];
    let ghost mut cur: Seq<char> = seq![];
    assert(views(store@) =~= Seq::<Seq<char>>::empty());
    while i < src.len()
        invariant
            i <= src.len(),
            scan_from(
                src@,
                Scan {
                    i: i as int,
                    fence,
                    line_start: ls,
                    out: out@,
                    store: views(store@),
                    texts,
                    cur,
                },
            ) == scan_from(src@, scan_start()),
        decreases src.len() - i,
    {
        let ghost st = Scan {
            i: i as int,
            fence,
            line_start: ls,
            out: out@,
            store: views(store@),
            texts,
            cur,
        };
        proof {
            lemma_step_advances(src@, st);
        }
        let ghost nx = scan_step(src@, st);
        let fa = if ls {
            fence_at_exec(src, i)
        } else {
            None
        };
        if let Some(ch) = fa {
            let e0 = find_newline(src, i);
            let e = if e0 < src.len() {
                e0 + 1
            } else {
                src.len()
            };
            push_range(&mut out, src, i, e);
            proof {
                cur = cur + src@.subrange(i as int, e as int);
            }
            fence = match fence {
                None => Some(ch),
                Some(c) => if c == ch {
                    None
                } else {
                    Some(c)
                },
            };
            i = e;
            ls = true;
        } else if fence.is_some() {
            let c = src[i];
            out.push(c);
            proof {
                cur = cur.push(c);
            }
            ls = c == '\n';
            i = i + 1;
        } else if src[i] == '`' {
            let open = backtick_run_exec(src, i);
            proof {
                lemma_backtick_run_pos(src@, i as int);
            }
            let end = match inline_code_close_exec(src, i + open, open) {
                Some(e) => e,
                None => src.len(),
            };
            push_range(&mut out, src, i, end);
            proof {
                cur = cur + src@.subrange(i as int, end as int);
            }
            ls = false;
            i = end;
        } else if let Some(e) = math_end_at_exec(src, i) {
            let ph = placeholder_exec(store.len());
            push_all(&mut out, &ph);
            let mut span: Vec<char> = Vec::new();
            push_range(&mut span, src, i, e);
            assert(span@ =~= src@.subrange(i as int, e as int));
            let ghost old_store = store@;
            store.push(span);
            assert(views(store@) =~= views(old_store).push(src@.subrange(i as int, e as int)));
            proof {
                texts = texts.push(cur);
                cur = seq![];
            }
            ls = false;
            i = e;
        } else {
            let c = src[i];
            out.push(c);
            proof {
                cur = cur.push(c);
            }
            ls = c == '\n';
            i = i + 1;
        }
        assert(Scan {
            i: i as int,
            fence,
            line_start: ls,
            out: out@,
            store: views(store@),
            texts,
            cur,
        } == nx);
    }
    (out, store)
}

fn escape_math_exec(m: &Vec<char>) -> (r: Vec<char>)
    ensures
        r@ == escape_math(m@),
{
    let mut r: Vec<char> = Vec::new();
    let mut i: usize = 0;
    while i < m.len()
        invariant
            i <= m.len(),
            r@ == escape_math(m@.take(i as int)),
        decreases m.len() - i,
    {
        let c = m[i];
        let piece = if c == '&' {
            vec!['&', 'a', 'm', 'p', ';']
        } else if c == '<' {
            vec!['&', 'l', 't', ';']
        } else if c == '>' {
            vec!['&', 'g', 't', ';']
        } else {
            vec![c]
        };
        assert(piece@ =~= escape_math_char(c));
        push_all(&mut r, &piece);
        assert(m@.take((i + 1) as int).drop_last() =~= m@.take(i as int));
        i = i + 1;
    }
    assert(m@.take(m@.len() as int) =~= m@);
    r
}

/// Put each stashed math span back in place of its placeholder, escaping
/// `&`, `<` and `>` inside it; placeholders are handled in index order.
pub fn restore_math(html: &Vec<char>, store: &Vec<Vec<char>>) -> (r: Vec<char>)
    ensures
        r@ == restore_spec(html@, views(store@)),
{
    let mut out: Vec<char> = Vec::new();
    push_all(&mut out, html);
    let mut idx: usize = 0;
    assert(views(store@).take(0) =~= Seq::<Seq<char>>::empty());
    while idx < store.len()
        invariant
            idx <= store.len(),
            out@ == restore_spec(html@, views(store@).take(idx as int)),
        decreases store.len() - idx,
    {
        let ph = placeholder_exec(idx);
        let safe = escape_math_exec(&store[idx]);
        out = replace_all_exec(&out, &ph, &safe);
        assert(views(store@).take((idx + 1) as int).drop_last() =~= views(store@).take(
            idx as int,
        ));
        idx = idx + 1;
    }
    assert(views(store@).take(store.len() as int) =~= views(store@));
    out
}

pub proof fn lemma_line_copy_end(s: Seq<char>, i: int)
    requires
        0 <= i < s.len(),
    ensures
        i < line_copy_end(s, i) <= s.len(),
{
    lemma_next_newline_bounds(s, i);
}

/// One scanner step always moves forward and stays inside the source.
pub proof fn lemma_step_advances(s: Seq<char>, st: Scan)
    requires
        0 <= st.i < s.len(),
    ensures
        st.i < scan_step(s, st).i <= s.len(),
{
    let i = st.i;
    lemma_line_copy_end(s, i);
    if !(st.line_start && fence_at(s, i) is Some) && st.fence is None && s[i] == '`' {
        let open = backtick_run(s, i);
        lemma_backtick_run_pos(s, i);
        lemma_inline_code_close_bounds(s, i + open, open);
    }
    if !(st.line_start && fence_at(s, i) is Some) && st.fence is None && s[i] != '`'
        && math_end_at(s, i) is Some {
        lemma_math_end_bounds(s, i);
    }
}

pub proof fn lemma_backtick_run_pos(s: Seq<char>, i: int)
    requires
        0 <= i < s.len(),
        s[i] == '`',
    ensures
        1 <= backtick_run(s, i),
        i + backtick_run(s, i) <= s.len(),
    decreases s.len() - i,
{
    lemma_backtick_run_bound(s, i + 1);
}

pub proof fn lemma_backtick_run_bound(s: Seq<char>, i: int)
    requires
        0 <= i <= s.len(),
    ensures
        0 <= backtick_run(s, i),
        i + backtick_run(s, i) <= s.len(),
    decreases s.len() - i,
{
    if i < s.len() && s[i] == '`' {
        lemma_backtick_run_bound(s, i + 1);
    }
}

pub proof fn lemma_inline_code_close_bounds(s: Seq<char>, i: int, open: int)
    requires
        0 <= i,
        open >= 1,
    ensures
        inline_code_close(s, i, open) matches Some(e) ==> i < e <= s.len(),
    decreases s.len() - i,
{
    if i + open <= s.len() {
        let run = backtick_run(s, i);
        lemma_backtick_run_bound(s, i);
        if run >= open {
            if run != open {
                lemma_inline_code_close_bounds(s, i + run, open);
            }
        } else {
            lemma_inline_code_close_bounds(s, i + 1, open);
        }
    }
}

pub proof fn lemma_find_close_bounds(s: Seq<char>, i: int, d: Seq<char>)
    ensures
        find_close(s, i, d) matches Some(e) ==> i <= e && e + d.len() <= s.len(),
    decreases s.len() - i,
{
    if i >= 0 && d.len() > 0 && i + d.len() <= s.len() && !occurs_at(s, d, i) {
        lemma_find_close_bounds(s, i + 1, d);
    }
}

pub proof fn lemma_dollar_scan_bounds(s: Seq<char>, i: int)
    ensures
        dollar_scan(s, i) matches Some(e) ==> i <= e < s.len(),
    decreases s.len() - i,
{
    if 1 <= i < s.len() && s[i] != '\n' {
        if s[i] == '$' {
            lemma_dollar_scan_bounds(s, i + 1);
        } else if s[i] == '\\' {
            if i + 2 <= s.len() {
                lemma_dollar_scan_bounds(s, i + 2);
            }
        } else {
            lemma_dollar_scan_bounds(s, i + 1);
        }
    }
}

pub proof fn lemma_math_end_bounds(s: Seq<char>, i: int)
    requires
        0 <= i < s.len(),
    ensures
        math_end_at(s, i) matches Some(e) ==> i < e <= s.len(),
{
    lemma_find_close_bounds(s, i + 2, dd());
    lemma_find_close_bounds(s, i + 2, bracket_close());
    lemma_find_close_bounds(s, i + 2, paren_close());
    lemma_dollar_scan_bounds(s, i + 1);
}

// ---------------------------------------------------------------------------
// What the stash keeps
// ---------------------------------------------------------------------------
/// What holds of every scanner state reached from the start.
pub open spec fn scan_inv(s: Seq<char>, st: Scan) -> bool {
    &&& 0 <= st.i <= s.len()
    &&& st.texts.len() == st.store.len()
    &&& s.take(st.i) == interleave(st.texts.push(st.cur), st.store)
    &&& st.out == interleave(st.texts.push(st.cur), placeholders(st.store.len()))
}

proof fn lemma_interleave_extend(t: Seq<Seq<char>>, sp: Seq<Seq<char>>, c: Seq<char>, p: Seq<char>)
    requires
        t.len() == sp.len(),
    ensures
        interleave(t.push(c + p), sp) == interleave(t.push(c), sp) + p,
{
    if sp.len() == 0 {
        assert(t.push(c + p)[0] == c + p);
        assert(t.push(c)[0] == c);
    } else {
        assert(t.push(c + p).drop_last() =~= t);
        assert(t.push(c).drop_last() =~= t);
        let head = interleave(t, sp.drop_last()) + sp.last();
        assert(head + (c + p) =~= (head + c) + p);
    }
}

proof fn lemma_interleave_cut(t: Seq<Seq<char>>, sp: Seq<Seq<char>>, c: Seq<char>, m: Seq<char>)
    requires
        t.len() == sp.len(),
    ensures
        interleave(t.push(c).push(seq![]), sp.push(m)) == interleave(t.push(c), sp) + m,
{
    assert(t.push(c).push(seq![]).drop_last() =~= t.push(c));
    assert(sp.push(m).drop_last() =~= sp);
    assert(interleave(t.push(c), sp) + m + Seq::<char>::empty() =~= interleave(t.push(c), sp) + m);
}

proof fn lemma_scan_step_inv(s: Seq<char>, st: Scan)
    requires
        scan_inv(s, st),
        st.i < s.len(),
    ensures
        scan_inv(s, scan_step(s, st)),
{
    lemma_step_advances(s, st);
    let nx = scan_step(s, st);
    let i = st.i;
    let n = st.store.len();
    assert(placeholders(n + 1).drop_last() =~= placeholders(n));
    if nx.store.len() == n {
        // literal text: the step appends the same piece to the output and
        // to the current text
        let piece = s.subrange(i, nx.i);
        assert(nx.store == st.store && nx.texts == st.texts);
        assert(nx.cur == st.cur + piece && nx.out == st.out + piece) by {
            if st.line_start && fence_at(s, i) is Some {
            } else if st.fence is Some {
                assert(piece =~= seq![s[i]]);
            } else if s[i] == '`' {
            } else {
                assert(piece =~= seq![s[i]]);
            }
        }
        lemma_interleave_extend(st.texts, st.store, st.cur, piece);
        lemma_interleave_extend(st.texts, placeholders(n), st.cur, piece);
        assert(s.take(nx.i) =~= s.take(i) + piece);
    } else {
        // a math span: the text so far closes, the span is stored and its
        // placeholder written
        let m = s.subrange(i, nx.i);
        assert(nx.store == st.store.push(m));
        assert(nx.texts.push(nx.cur) == st.texts.push(st.cur).push(seq![]));
        lemma_interleave_cut(st.texts, st.store, st.cur, m);
        lemma_interleave_cut(st.texts, placeholders(n), st.cur, placeholder(n));
        assert(placeholders(n + 1) =~= placeholders(n).push(placeholder(n)));
        assert(s.take(nx.i) =~= s.take(i) + m);
    }
}

proof fn lemma_scan_from_inv(s: Seq<char>, st: Scan)
    requires
        scan_inv(s, st),
    ensures
        scan_inv(s, scan_from(s, st)),
        scan_from(s, st).i == s.len(),
    decreases s.len() - st.i,
{
    if st.i < s.len() {
        lemma_step_advances(s, st);
        lemma_scan_step_inv(s, st);
        lemma_scan_from_inv(s, scan_step(s, st));
    }
}

/// The stash loses and reorders nothing. It cuts the source into literal
/// texts and math spans, alternating, which joined back give the source;
/// the stashed source is the same texts with the spans' placeholders, in
/// order, where the spans were.
pub proof fn law_stash_decomposes(s: Seq<char>)
    ensures
        ({
            let fin = scan_from(s, scan_start());
            let texts = fin.texts.push(fin.cur);
            &&& stash_spec(s).1 == fin.store
            &&& texts.len() == stash_spec(s).1.len() + 1
            &&& s == interleave(texts, stash_spec(s).1)
            &&& stash_spec(s).0 == interleave(texts, placeholders(stash_spec(s).1.len()))
        }),
{
    let st = scan_start();
    assert(s.take(0) =~= Seq::<char>::empty());
    assert(placeholders(0) =~= Seq::<Seq<char>>::empty());
    assert(st.texts.push(st.cur) =~= seq![Seq::<char>::empty()]);
    lemma_scan_from_inv(s, st);
    assert(s.take(s.len() as int) =~= s);
}

} // verus!
