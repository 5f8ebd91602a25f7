//! File classification from the first bytes of a file: known binary formats
//! by magic bytes, invalid UTF-8, empty text, prose, or markdown.
use vstd::prelude::*;
use vstd::utf8::{decode_utf8, valid_utf8};
use crate::text::{
    chars_of, contains, contains_chars, line_at, lines, lines_from, skip_white, skip_white_back,
    starts_at, starts_with, string_of, trim, trim_start,
};

verus! {

/// Bytes sampled from the head of a file for classification.
pub const SNIFF_BYTES: usize = 8192;

/// What kind of document a file holds.
#[derive(Debug, Clone, PartialEq, Eq)]
pub enum DocKind {
    Markdown,
    PlainText,
    NonText { label: String },
}

/// The mathematical form of a `DocKind`.
pub enum DocKindSpec {
    Markdown,
    PlainText,
    NonText(Seq<char>),
}

impl View for DocKind {
    type V = DocKindSpec;

    open spec fn view(&self) -> DocKindSpec {
        match self {
            DocKind::Markdown => DocKindSpec::Markdown,
            DocKind::PlainText => DocKindSpec::PlainText,
            DocKind::NonText { label } => DocKindSpec::NonText(label@),
        }
    }
}

/// A file's kind and its size in bytes.
#[derive(Debug, Clone)]
pub struct Classification {
    pub kind: DocKind,
    pub size_bytes: u64,
}

// ---------------------------------------------------------------------------
// Magic bytes
// ---------------------------------------------------------------------------
pub open spec fn bstarts(buf: Seq<u8>, sig: Seq<u8>) -> bool {
    sig.len() <= buf.len() && buf.take(sig.len() as int) == sig
}

pub open spec fn png_sig() -> Seq<u8> {
    seq![0x89u8, 0x50, 0x4e, 0x47, 0x0d, 0x0a, 0x1a, 0x0a]
}

pub open spec fn jpeg_sig() -> Seq<u8> {
    seq![0xffu8, 0xd8, 0xff]
}

pub open spec fn gif87_sig() -> Seq<u8> {
    seq![0x47u8, 0x49, 0x46, 0x38, 0x37, 0x61]
}

pub open spec fn gif89_sig() -> Seq<u8> {
    seq![0x47u8, 0x49, 0x46, 0x38, 0x39, 0x61]
}

pub open spec fn pdf_sig() -> Seq<u8> {
    seq![0x25u8, 0x50, 0x44, 0x46, 0x2d]
}

pub open spec fn zip_sig() -> Seq<u8> {
    seq![0x50u8, 0x4b, 0x03, 0x04]
}

pub open spec fn elf_sig() -> Seq<u8> {
    seq![0x7fu8, 0x45, 0x4c, 0x46]
}

pub open spec fn bom_le_sig() -> Seq<u8> {
    seq![0xffu8, 0xfe]
}

pub open spec fn bom_be_sig() -> Seq<u8> {
    seq![0xfeu8, 0xff]
}

pub open spec fn riff_sig() -> Seq<u8> {
    seq![0x52u8, 0x49, 0x46, 0x46]
}

pub open spec fn webp_tag() -> Seq<u8> {
    seq![0x57u8, 0x45, 0x42, 0x50]
}

/// The label of the binary format that `buf` starts with, if any.
pub open spec fn sniff_spec(buf: Seq<u8>) -> Option<Seq<char>> {
    if bstarts(buf, png_sig()) {
        Some("image/png"@)
    } else if bstarts(buf, jpeg_sig()) {
        Some("image/jpeg"@)
    } else if bstarts(buf, gif87_sig()) || bstarts(buf, gif89_sig()) {
        Some("image/gif"@)
    } else if bstarts(buf, pdf_sig()) {
        Some("application/pdf"@)
    } else if bstarts(buf, zip_sig()) {
        Some("application/zip (or office)"@)
    } else if bstarts(buf, elf_sig()) {
        Some("application/x-elf"@)
    } else if bstarts(buf, bom_le_sig()) || bstarts(buf, bom_be_sig()) {
        Some("text/utf-16 (not supported)"@)
    } else if bstarts(buf, riff_sig()) && buf.len() >= 12 && buf.subrange(8, 12) == webp_tag() {
        Some("image/webp"@)
    } else {
        None
    }
}

// ---------------------------------------------------------------------------
// Markdown density
// ---------------------------------------------------------------------------
pub open spec fn is_heading(t: Seq<char>) -> bool {
    starts_with(t, seq!['#', ' ']) || starts_with(t, seq!['#', '#', ' ']) || starts_with(
        t,
        seq!['#', '#', '#', ' '],
    ) || starts_with(t, seq!['#', '#', '#', '#', ' ']) || starts_with(
        t,
        seq!['#', '#', '#', '#', '#', ' '],
    ) || starts_with(t, seq!['#', '#', '#', '#', '#', '#', ' '])
}

pub open spec fn b2n(b: bool) -> nat {
    if b {
        1
    } else {
        0
    }
}

/// Structural markdown tokens that open a line (after leading whitespace):
/// a heading, a fence, a list bullet, a quote, a table row, a rule.
pub open spec fn line_tokens(l: Seq<char>) -> nat {
    let t = trim_start(l);
    b2n(is_heading(t)) + b2n(starts_with(t, seq!['`', '`', '`'])) + b2n(
        starts_with(t, seq!['-', ' ']),
    ) + b2n(starts_with(t, seq!['*', ' '])) + b2n(starts_with(t, seq!['>', ' '])) + b2n(
        starts_with(t, seq!['|', ' ']),
    ) + b2n(starts_with(t, seq!['-', '-', '-']))
}

pub open spec fn count_tokens(ls: Seq<Seq<char>>) -> nat
    decreases ls.len(),
{
    if ls.len() == 0 {
        0
    } else {
        count_tokens(ls.drop_last()) + line_tokens(ls.last())
    }
}

/// Inline markdown markers: a link or image, bold, math, a fence.
pub open spec fn looks_like_inline_md(t: Seq<char>) -> bool {
    contains(t, seq![']', '(']) || contains(t, seq!['*', '*']) || contains(t, seq!['$', '$'])
        || contains(t, seq!['$']) || contains(t, seq!['`', '`', '`'])
}

/// Prose: fewer than one structural token per two hundred lines (a density
/// below 0.5%), and no inline markers.
pub open spec fn is_prose(t: Seq<char>) -> bool {
    let n = lines(t).len();
    let ln = if n == 0 {
        1
    } else {
        n
    };
    200 * count_tokens(lines(t)) < ln && !looks_like_inline_md(t)
}

/// The kind of a document whose first bytes are `sample`.
pub open spec fn classify_spec(sample: Seq<u8>) -> DocKindSpec {
    match sniff_spec(sample) {
        Some(label) => DocKindSpec::NonText(label),
        None => if !valid_utf8(sample) {
            DocKindSpec::NonText("binary (non-UTF8)"@)
        } else if trim(decode_utf8(sample)).len() == 0 {
            DocKindSpec::PlainText
        } else if is_prose(decode_utf8(sample)) {
            DocKindSpec::PlainText
        } else {
            DocKindSpec::Markdown
        },
    }
}

/// A sample that is text (no binary signature, valid UTF-8, not blank) and
/// holds an inline markdown marker (a link or image `](`, bold `**`, math
/// `$`, a fence of three backticks) is markdown, however few structural
/// lines it has.
pub proof fn law_inline_markers_mean_markdown(sample: Seq<u8>)
    requires
        sniff_spec(sample) is None,
        valid_utf8(sample),
        trim(decode_utf8(sample)).len() > 0,
        contains(decode_utf8(sample), seq![']', '(']) || contains(
            decode_utf8(sample),
            seq!['*', '*'],
        ) || contains(decode_utf8(sample), seq!['$']) || contains(
            decode_utf8(sample),
            seq!['`', '`', '`'],
        ),
    ensures
        classify_spec(sample) == DocKindSpec::Markdown,
{
}

/// A sample that starts with a binary signature is never shown as a
/// document, and one that is not valid UTF-8 neither.
pub proof fn law_binary_is_not_text(sample: Seq<u8>)
    requires
        sniff_spec(sample) is Some || !valid_utf8(sample),
    ensures
        classify_spec(sample) is NonText,
{
}

// ---------------------------------------------------------------------------
// Executable
// ---------------------------------------------------------------------------
/// `std::str::from_utf8`: the text that `bytes` encode, when they are valid
/// UTF-8.
#[verifier::external_body]
fn utf8_str(bytes: &[u8]) -> (r: Option<&str>)
    ensures
        r is Some <==> valid_utf8(bytes@),
        r matches Some(s) ==> s@ == decode_utf8(bytes@),
{
    std::str::from_utf8(bytes).ok()
}

fn bstarts_exec(buf: &[u8], sig: &Vec<u8>) -> (b: bool)
    ensures
        b == bstarts(buf@, sig@),
{
    if sig.len() > buf.len() {
        return false;
    }
    let mut k: usize = 0;
    while k < sig.len()
        invariant
            sig.len() <= buf.len(),
            k <= sig.len(),
            forall|j: int| 0 <= j < k ==> buf@[j] == sig@[j],
        decreases sig.len() - k,
    {
        if buf[k] != sig[k] {
            assert(buf@.take(sig@.len() as int)[k as int] != sig@[k as int]);
            return false;
        }
        k = k + 1;
    }
    assert(buf@.take(sig@.len() as int) =~= sig@);
    true
}

fn label(s: &str) -> (r: Option<String>)
    ensures
        r matches Some(l) && l@ == s@,
{
    Some(string_of(&chars_of(s)))
}

fn sniff_magic(buf: &[u8]) -> (r: Option<String>)
    ensures
        match r {
            Some(l) => sniff_spec(buf@) == Some(l@),
            None => sniff_spec(buf@) is None,
        },
{
    if bstarts_exec(buf, &vec![0x89u8, 0x50, 0x4e, 0x47, 0x0d, 0x0a, 0x1a, 0x0a]) {
        assert(seq![0x89u8, 0x50, 0x4e, 0x47, 0x0d, 0x0a, 0x1a, 0x0a] =~= png_sig());
        return label("image/png");
    }
    assert(seq![0x89u8, 0x50, 0x4e, 0x47, 0x0d, 0x0a, 0x1a, 0x0a] =~= png_sig());
    if bstarts_exec(buf, &vec![0xffu8, 0xd8, 0xff]) {
        return label("image/jpeg");
    }
    assert(seq![0xffu8, 0xd8, 0xff] =~= jpeg_sig());
    if bstarts_exec(buf, &vec![0x47u8, 0x49, 0x46, 0x38, 0x37, 0x61]) || bstarts_exec(
        buf,
        &vec![0x47u8, 0x49, 0x46, 0x38, 0x39, 0x61],
    ) {
        return label("image/gif");
    }
    assert(seq![0x47u8, 0x49, 0x46, 0x38, 0x37, 0x61] =~= gif87_sig());
    assert(seq![0x47u8, 0x49, 0x46, 0x38, 0x39, 0x61] =~= gif89_sig());
    if bstarts_exec(buf, &vec![0x25u8, 0x50, 0x44, 0x46, 0x2d]) {
        return label("application/pdf");
    }
    assert(seq![0x25u8, 0x50, 0x44, 0x46, 0x2d] =~= pdf_sig());
    if bstarts_exec(buf, &vec![0x50u8, 0x4b, 0x03, 0x04]) {
        return label("application/zip (or office)");
    }
    assert(seq![0x50u8, 0x4b, 0x03, 0x04] =~= zip_sig());
    if bstarts_exec(buf, &vec![0x7fu8, 0x45, 0x4c, 0x46]) {
        return label("application/x-elf");
    }
    assert(seq![0x7fu8, 0x45, 0x4c, 0x46] =~= elf_sig());
    if bstarts_exec(buf, &vec![0xffu8, 0xfe]) || bstarts_exec(buf, &vec![0xfeu8, 0xff]) {
        return label("text/utf-16 (not supported)");
    }
    assert(seq![0xffu8, 0xfe] =~= bom_le_sig());
    assert(seq![0xfeu8, 0xff] =~= bom_be_sig());
    assert(seq![0x52u8, 0x49, 0x46, 0x46] =~= riff_sig());
    if bstarts_exec(buf, &vec![0x52u8, 0x49, 0x46, 0x46]) && buf.len() >= 12 && buf[8] == 0x57
        && buf[9] == 0x45 && buf[10] == 0x42 && buf[11] == 0x50 {
        assert(buf@.subrange(8, 12) =~= webp_tag());
        return label("image/webp");
    }
    proof {
        if bstarts(buf@, riff_sig()) && buf@.len() >= 12 {
            assert(buf@.subrange(8, 12) != webp_tag()) by {
                if buf@.subrange(8, 12) == webp_tag() {
                    assert(buf@.subrange(8, 12)[0] == buf@[8]);
                    assert(buf@.subrange(8, 12)[1] == buf@[9]);
                    assert(buf@.subrange(8, 12)[2] == buf@[10]);
                    assert(buf@.subrange(8, 12)[3] == buf@[11]);
                }
            }
        }
    }
    None
}

fn looks_like_inline_md_exec(t: &Vec<char>) -> (b: bool)
    ensures
        b == looks_like_inline_md(t@),
{
    let a = vec![']', '('];
    let b = vec!['*', '*'];
    let c = vec!['$', '$'];
    let d = vec!['$'];
    let e = vec!['`', '`', '`'];
    assert(a@ =~= seq![']', '(']);
    assert(b@ =~= seq!['*', '*']);
    assert(c@ =~= seq!['$', '$']);
    assert(d@ =~= seq!['$']);
    assert(e@ =~= seq!['`', '`', '`']);
    contains_chars(t, &a) || contains_chars(t, &b) || contains_chars(t, &c) || contains_chars(
        t,
        &d,
    ) || contains_chars(t, &e)
}

fn b2u(b: bool) -> (n: usize)
    ensures
        n == b2n(b),
{
    if b {
        1
    } else {
        0
    }
}

/// The tokens of the line `s[from..to]`.
fn line_tokens_exec(s: &Vec<char>, from: usize, to: usize) -> (n: usize)
    requires
        from <= to <= s.len(),
    ensures
        n == line_tokens(s@.subrange(from as int, to as int)),
        n <= 7,
{
    let ts = skip_white(s, from, to);
    let ghost t = s@.subrange(ts as int, to as int);
    assert(trim_start(s@.subrange(from as int, to as int)) == t);
    let p1 = vec!['#', ' '];
    let p2 = vec!['#', '#', ' '];
    let p3 = vec!['#', '#', '#', ' '];
    let p4 = vec!['#', '#', '#', '#', ' '];
    let p5 = vec!['#', '#', '#', '#', '#', ' '];
    let p6 = vec!['#', '#', '#', '#', '#', '#', ' '];
    let fence = vec!['`', '`', '`'];
    let dash = vec!['-', ' '];
    let star = vec!['*', ' '];
    let quote = vec!['>', ' '];
    let pipe = vec!['|', ' '];
    let rule = vec!['-', '-', '-'];
    assert(p1@ =~= seq!['#', ' ']);
    assert(p2@ =~= seq!['#', '#', ' ']);
    assert(p3@ =~= seq!['#', '#', '#', ' ']);
    assert(p4@ =~= seq!['#', '#', '#', '#', ' ']);
    assert(p5@ =~= seq!['#', '#', '#', '#', '#', ' ']);
    assert(p6@ =~= seq!['#', '#', '#', '#', '#', '#', ' ']);
    assert(fence@ =~= seq!['`', '`', '`']);
    assert(dash@ =~= seq!['-', ' ']);
    assert(star@ =~= seq!['*', ' ']);
    assert(quote@ =~= seq!['>', ' ']);
    assert(pipe@ =~= seq!['|', ' ']);
    assert(rule@ =~= seq!['-', '-', '-']);
    let heading = starts_at(s, ts, to, &p1) || starts_at(s, ts, to, &p2) || starts_at(
        s,
        ts,
        to,
        &p3,
    ) || starts_at(s, ts, to, &p4) || starts_at(s, ts, to, &p5) || starts_at(s, ts, to, &p6);
    b2u(heading) + b2u(starts_at(s, ts, to, &fence)) + b2u(starts_at(s, ts, to, &dash)) + b2u(
        starts_at(s, ts, to, &star),
    ) + b2u(starts_at(s, ts, to, &quote)) + b2u(starts_at(s, ts, to, &pipe)) + b2u(
        starts_at(s, ts, to, &rule),
    )
}

/// Markdown-token count and line count of `t`.
fn token_density(t: &Vec<char>) -> (r: (usize, usize))
    requires
        t@.len() <= SNIFF_BYTES,
    ensures
        r.0 == count_tokens(lines(t@)),
        r.1 == lines(t@).len(),
        r.1 <= t@.len(),
        r.0 <= 7 * r.1,
{
    let mut tokens: usize = 0;
    let mut count: usize = 0;
    let mut start: usize = 0;
    let ghost mut done: Seq<Seq<char>> = seq![];
    assert(done + lines_from(t@, 0) =~= lines(t@));
    while start < t.len()
        invariant
            start <= t.len(),
            done + lines_from(t@, start as int) == lines(t@),
            tokens == count_tokens(done),
            count == done.len(),
            tokens <= 7 * count,
            count <= start,
            t@.len() <= SNIFF_BYTES,
        decreases t.len() - start,
    {
        let (ce, next) = line_at(t, start);
        let ghost line = t@.subrange(start as int, ce as int);
        let k = line_tokens_exec(t, start, ce);
        tokens = tokens + k;
        count = count + 1;
        proof {
            assert(done.push(line).drop_last() =~= done);
            assert(done.push(line) + lines_from(t@, next as int) =~= done + lines_from(
                t@,
                start as int,
            ));
            done = done.push(line);
        }
        start = next;
    }
    assert(lines_from(t@, start as int) =~= Seq::<Seq<char>>::empty());
    assert(done =~= lines(t@));
    (tokens, count)
}

/// Classify a document from the first bytes of its file (`sample`, at most
/// `SNIFF_BYTES`) and its size.
pub fn classify(sample: &[u8], size_bytes: u64) -> (c: Classification)
    requires
        sample@.len() <= SNIFF_BYTES,
    ensures
        c.kind@ == classify_spec(sample@),
        c.size_bytes == size_bytes,
{
    if let Some(label) = sniff_magic(sample) {
        return Classification { kind: DocKind::NonText { label }, size_bytes };
    }
    let text = match utf8_str(sample) {
        Some(s) => s,
        None => {
            return Classification {
                kind: DocKind::NonText { label: string_of(&chars_of("binary (non-UTF8)")) },
                size_bytes,
            };
        },
    };
    let t = chars_of(text);
    let a = skip_white(&t, 0, t.len());
    let b = skip_white_back(&t, a, t.len());
    assert(t@.subrange(0, t@.len() as int) =~= t@);
    assert(trim(t@) == t@.subrange(a as int, b as int));
    if a == b {
        return Classification { kind: DocKind::PlainText, size_bytes };
    }
    assert(t@.len() <= sample@.len()) by {
        lemma_decode_len(sample@);
    }
    let (tokens, count) = token_density(&t);
    let ln = if count == 0 {
        1
    } else {
        count
    };
    assert(t@.len() <= sample@.len()) by {
        lemma_decode_len(sample@);
    }
    let kind = if 200 * tokens < ln && !looks_like_inline_md_exec(&t) {
        DocKind::PlainText
    } else {
        DocKind::Markdown
    };
    Classification { kind, size_bytes }
}

/// A decoded text is never longer than its encoding.
pub proof fn lemma_decode_len(b: Seq<u8>)
    requires
        valid_utf8(b),
    ensures
        decode_utf8(b).len() <= b.len(),
{
    vstd::utf8::decode_utf8_encode_utf8(b);
    lemma_encode_len(decode_utf8(b));
}

pub proof fn lemma_encode_len(cs: Seq<char>)
    ensures
        vstd::utf8::encode_utf8(cs).len() >= cs.len(),
    decreases cs.len(),
{
    if cs.len() > 0 {
        lemma_encode_len(cs.drop_first());
        let e = vstd::utf8::encode_scalar(cs[0] as u32);
        assert(e.len() >= 1);
    }
}

} // verus!
