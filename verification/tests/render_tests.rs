//! The render pipeline end to end: classification, rendering, the page, the
//! review block and streamed chunks.

use mdv::render;
use mdv::window;

const SNIFF: usize = 8192;

fn classify_bytes(bytes: &[u8]) -> render::Classification {
    let sample = &bytes[..bytes.len().min(SNIFF)];
    render::classify(sample, bytes.len() as u64)
}

fn render_text(path: &str, contents: &str) -> render::RenderResult {
    let cls = classify_bytes(contents.as_bytes());
    render::render_file(path, &cls, contents)
}

fn html(md: &str) -> String {
    render::md_to_html(md, "/docs")
}

fn unit_html(md: &str) -> String {
    render::md_to_html(md, "/tmp")
}

// ---- classify ----

#[test]
fn classify_png_extension_faked_as_md() {
    let cls = classify_bytes(b"\x89PNG\r\n\x1a\n\x00\x00\x00\rIHDR");
    assert!(
        matches!(cls.kind, render::DocKind::NonText { .. }),
        "PNG disguised as .md should be NonText, got {:?}",
        cls.kind
    );
}

#[test]
fn classify_binary_elf() {
    let cls = classify_bytes(b"\x7FELF\x02\x01\x01\x00binary stuff follow");
    assert!(
        matches!(cls.kind, render::DocKind::NonText { .. }),
        "ELF binary should be NonText"
    );
}

#[test]
fn classify_empty_is_plaintext() {
    let cls = classify_bytes(b"");
    assert!(
        matches!(cls.kind, render::DocKind::PlainText),
        "empty file should be PlainText"
    );
}

#[test]
fn classify_rich_markdown_file() {
    let content = "# Header\n\n- list\n- items\n\n```rust\nlet x = 1;\n```\n";
    let cls = classify_bytes(content.as_bytes());
    assert!(
        matches!(cls.kind, render::DocKind::Markdown),
        "markdown-heavy file should be Markdown"
    );
}

#[test]
fn classify_prose_only_is_plaintext() {
    let content =
        "This is a normal prose file.\nIt has no markdown tokens at all.\nJust three lines.\n";
    let cls = classify_bytes(content.as_bytes());
    assert!(
        matches!(cls.kind, render::DocKind::PlainText),
        "pure prose should be PlainText"
    );
}

#[test]
fn classify_empty_file_is_plaintext() {
    let cls = classify_bytes(b"");
    assert!(
        matches!(cls.kind, render::DocKind::PlainText),
        "empty file should be PlainText"
    );
}

#[test]
fn classify_png_magic_bytes_is_nontext() {
    let cls = classify_bytes(b"\x89PNG\r\n\x1a\n fake png content");
    assert!(
        matches!(cls.kind, render::DocKind::NonText { .. }),
        "PNG magic should be NonText"
    );
}

#[test]
fn classify_markdown_file_is_markdown() {
    let content = "# Title\n\n- item 1\n- item 2\n\n```rust\nlet x = 1;\n```\n";
    let cls = classify_bytes(content.as_bytes());
    assert!(
        matches!(cls.kind, render::DocKind::Markdown),
        "markdown file should be Markdown"
    );
}

#[test]
fn classify_plain_text_file_is_plaintext() {
    let content = "This is a normal text file.\nNo special formatting here.\nJust words.\n";
    let cls = classify_bytes(content.as_bytes());
    assert!(
        matches!(cls.kind, render::DocKind::PlainText),
        "plain text file should be PlainText"
    );
}

// ---- render_file (should not panic on any input) ----

#[test]
fn render_file_handles_nontext_gracefully() {
    let bytes = b"\x89PNG\r\n\x1a\n fake";
    let cls = classify_bytes(bytes);
    let result = render::render_file("/tmp/integ_nonrender.md", &cls, "");
    assert!(
        result.body_html.contains("NON-RENDERABLE"),
        "non-renderable card missing: {}",
        result.body_html
    );
}

#[test]
fn render_file_handles_plaintext_gracefully() {
    let result = render_text("/tmp/integ_plain.txt", "Just plain text.\nNothing special.\n");
    assert!(
        result.body_html.contains("plain"),
        "plain text wrapper missing: {}",
        result.body_html
    );
}

#[test]
fn render_file_malformed_markdown_does_not_panic() {
    let bad = "# Title\n\n```rust\nfn broken(\n**unclosed bold\n| col1 | col2 |\n| a |\n";
    let result = render_text("/tmp/integ_broken.md", bad);
    assert!(
        !result.body_html.is_empty(),
        "malformed md should still render: {:?}",
        result.banners.len()
    );
}

// ---- md_to_html math preservation ----

#[test]
fn math_inline_dollar_survives_pipeline() {
    let out = html("Result: $E = mc^2$");
    assert!(out.contains("$E = mc^2$"), "inline math lost: {}", out);
}

#[test]
fn math_display_dollar_survives_pipeline() {
    let out = html("$$\n\\sum_{n} a_n\n$$");
    assert!(out.contains("$$"), "display math $$ lost: {}", out);
    assert!(out.contains("\\sum"), "LaTeX command lost: {}", out);
}

#[test]
fn math_bracket_display_survives_pipeline() {
    let out = html("\\[\nF = ma\n\\]");
    assert!(out.contains("\\["), "\\[ delimiter lost: {}", out);
    assert!(out.contains("F = ma"), "content lost: {}", out);
    assert!(out.contains("\\]"), "\\] delimiter lost: {}", out);
}

#[test]
fn math_paren_inline_survives_pipeline() {
    let out = html("see \\(\\theta\\) for angle");
    assert!(out.contains("\\("), "\\( delimiter lost: {}", out);
    assert!(out.contains("\\theta"), "latex cmd lost: {}", out);
    assert!(out.contains("\\)"), "\\) delimiter lost: {}", out);
}

#[test]
fn currency_dollar_not_treated_as_math() {
    let out = html("Items cost $5 and $20.");
    assert!(out.contains("$5"), "currency dollar disappeared: {}", out);
    assert!(out.contains("$20"), "currency dollar disappeared: {}", out);
}

#[test]
fn math_inside_code_block_not_rendered() {
    let out = html("```\n$not_math$\n```");
    assert!(
        out.contains("$not_math$"),
        "dollar in code block was eaten: {}",
        out
    );
}

#[test]
fn inline_dollar_math_preserved() {
    let md = "The constant is $\\alpha \\approx 1/137$";
    let html = unit_html(md);
    assert!(
        html.contains("$\\alpha \\approx 1/137$"),
        "inline dollar math was mangled: {}",
        html
    );
}

#[test]
fn display_dollar_math_preserved() {
    let md = "$$\n\\int_{0}^{1} x\\,dx = \\frac{1}{2}\n$$";
    let html = unit_html(md);
    assert!(html.contains("$$"), "display $$ math was mangled: {}", html);
    assert!(html.contains("\\int"), "LaTeX command lost: {}", html);
}

#[test]
fn bracket_display_math_preserved() {
    let md = "\\[\n E = mc^2\n\\]";
    let html = unit_html(md);
    assert!(html.contains("\\["), "\\[ lost: {}", html);
    assert!(html.contains("E = mc^2"), "content lost: {}", html);
    assert!(html.contains("\\]"), "\\] lost: {}", html);
}

#[test]
fn paren_inline_math_preserved() {
    let md = "divergence \\( \\nabla \\cdot \\mathbf{E} \\)";
    let html = unit_html(md);
    assert!(html.contains("\\("), "\\( lost: {}", html);
    assert!(html.contains("\\nabla"), "latex command lost: {}", html);
    assert!(html.contains("\\)"), "\\) lost: {}", html);
}

#[test]
fn currency_dollars_not_stashed() {
    let md = "Costs $5 and $10 at most.";
    let html = unit_html(md);
    assert!(html.contains("$5"), "currency dollar was removed: {}", html);
    assert!(html.contains("$10"), "currency dollar was removed: {}", html);
}

#[test]
fn math_inside_code_fence_untouched() {
    let md = "```\nlet x = $alpha + $beta;\n```";
    let html = unit_html(md);
    assert!(
        html.contains("$alpha"),
        "dollar inside code was removed: {}",
        html
    );
}

#[test]
fn math_and_code_in_same_document() {
    let md = "Math: $x^2$\n\n```rust\nlet y = 1;\n```";
    let html = unit_html(md);
    assert!(html.contains("$x^2$"), "math lost: {}", html);
    assert!(html.contains("mdv-code"), "code wrapper missing: {}", html);
    assert!(
        html.contains("let"),
        "let keyword missing from highlighted code: {}",
        html
    );
}

// ---- md_to_html link rewriting ----

#[test]
fn local_md_link_rewritten_to_mdv_nav() {
    let out = html("[next](chapter2.md)");
    assert!(
        out.contains("mdv://nav/"),
        ".md link was not rewritten to mdv://nav/: {}",
        out
    );
}

#[test]
fn local_md_link_with_anchor_rewritten() {
    let out = html("[section](other.md#intro)");
    assert!(
        out.contains("mdv://nav/"),
        "link with anchor not rewritten: {}",
        out
    );
}

#[test]
fn http_link_preserved_verbatim() {
    let out = html("[site](https://example.com)");
    assert!(
        out.contains("https://example.com"),
        "http link mangled: {}",
        out
    );
    assert!(
        !out.contains("mdv://nav/"),
        "http link incorrectly rewritten: {}",
        out
    );
}

#[test]
fn anchor_only_link_preserved() {
    let out = html("[top](#heading)");
    assert!(out.contains("#heading"), "anchor link lost: {}", out);
    assert!(
        !out.contains("mdv://nav/"),
        "anchor link incorrectly rewritten: {}",
        out
    );
}

#[test]
fn relative_md_link_rewritten_to_mdv_nav() {
    let html = render::md_to_html("[next](other.md)", "/docs/index.md");
    assert!(html.contains("mdv://nav/"), "link not rewritten: {}", html);
}

#[test]
fn http_link_not_rewritten() {
    let html = unit_html("[site](https://example.com)");
    assert!(
        html.contains("https://example.com"),
        "http link mangled: {}",
        html
    );
    assert!(
        !html.contains("mdv://nav/"),
        "http link incorrectly rewritten: {}",
        html
    );
}

#[test]
fn anchor_only_link_not_rewritten() {
    let html = unit_html("[section](#intro)");
    assert!(html.contains("#intro"), "anchor lost: {}", html);
    assert!(
        !html.contains("mdv://nav/"),
        "anchor incorrectly rewritten: {}",
        html
    );
}

// ---- detect_warnings ----

#[test]
fn warns_unclosed_fence() {
    let md = "```rust\nfn main() {}\n// no closing fence\n";
    let w = render::detect_warnings(md);
    assert!(
        !w.is_empty(),
        "expected warning for unclosed fence, got none"
    );
    assert!(
        w.iter().any(|s| s.contains("unclosed")),
        "warning text should mention 'unclosed': {:?}",
        w
    );
}

#[test]
fn no_false_warning_for_balanced_fence() {
    let md = "# Doc\n\n```rust\nlet x = 1;\n```\n";
    let w = render::detect_warnings(md);
    let fence_warns: Vec<_> = w.iter().filter(|s| s.contains("unclosed")).collect();
    assert!(fence_warns.is_empty(), "false fence warning: {:?}", w);
}

#[test]
fn warns_table_column_mismatch() {
    let md = "| a | b | c |\n|---|---|---|\n| 1 | 2 |\n";
    let w = render::detect_warnings(md);
    assert!(
        w.iter().any(|s| s.contains("mismatch")),
        "expected column mismatch warning: {:?}",
        w
    );
}

#[test]
fn warns_on_unclosed_fence() {
    let md = "```rust\nfn main() {}\n// no closing fence";
    let w = render::detect_warnings(md);
    assert!(!w.is_empty(), "expected warning for unclosed fence");
    assert!(w[0].contains("unclosed"), "unexpected warning text: {:?}", w);
}

#[test]
fn no_warning_for_clean_doc() {
    let md = "# Title\n\nNormal paragraph.\n\n```rust\nlet x = 1;\n```\n";
    let w = render::detect_warnings(md);
    assert!(w.is_empty(), "unexpected warnings: {:?}", w);
}

// ---- html_escape ----

#[test]
fn html_escape_covers_all_special_chars() {
    let s = "<b>alert('x')</b> & \"quoted\"";
    let e = render::html_escape(s);
    assert!(e.contains("&lt;"), "&lt; missing: {}", e);
    assert!(e.contains("&gt;"), "&gt; missing: {}", e);
    assert!(e.contains("&amp;"), "&amp; missing: {}", e);
    assert!(e.contains("&quot;"), "&quot; missing: {}", e);
    assert!(e.contains("&#39;"), "&#39; missing: {}", e);
    assert!(!e.contains("<b>"), "raw <b> still present: {}", e);
    assert!(!e.contains("</b>"), "raw </b> still present: {}", e);
}

// ---- build_page ----

fn simple_result(title: &str, body: &str) -> render::RenderResult {
    render::RenderResult {
        title: title.into(),
        body_html: body.into(),
        banners: vec![],
        streaming: None,
    }
}

#[test]
fn build_page_includes_title() {
    let result = simple_result("MyDoc", "<p>content</p>");
    let page = render::build_page(&result, false);
    assert!(page.contains("MyDoc"), "title missing from page");
}

#[test]
fn build_page_review_mode_adds_body_class() {
    let result = simple_result("Test", "<p>hi</p>");
    let page = render::build_page(&result, true);
    assert!(
        page.contains(r#"<body class="mdv-review-on">"#),
        "review body class missing when review_mode=true: {}",
        &page[..page.len().min(300)]
    );
}

#[test]
fn build_page_no_review_class_when_off() {
    let result = simple_result("Test", "<p>hi</p>");
    let page = render::build_page(&result, false);
    assert!(
        !page.contains(r#"<body class="mdv-review-on">"#),
        "review body class present on <body> when review_mode=false"
    );
}

// ---- the review block ----

#[test]
fn append_review_creates_file_with_accept() {
    let content = window::review_block("/docs/report.md", "accept", "Looks good to me.");
    assert!(content.contains("[ACCEPT]"), "verdict missing: {}", content);
    assert!(
        content.contains("report.md"),
        "source filename missing: {}",
        content
    );
    assert!(
        content.contains("Looks good to me."),
        "text missing: {}",
        content
    );
}

#[test]
fn append_review_creates_file_with_reject() {
    let content = window::review_block("/x/doc.md", "reject", "Not ready.");
    assert!(content.contains("[REJECT]"), "verdict missing: {}", content);
}

#[test]
fn append_review_appends_on_second_call() {
    let mut content = window::review_block("/x/doc.md", "accept", "First feedback.");
    content.push_str(&window::review_block("/x/doc.md", "reject", "Second feedback."));
    assert!(content.contains("[ACCEPT]"), "first entry missing");
    assert!(content.contains("[REJECT]"), "second entry missing");
    assert!(content.contains("First feedback."), "first text missing");
    assert!(content.contains("Second feedback."), "second text missing");
}

#[test]
fn append_review_escapes_quotes_in_text() {
    let content = window::review_block("/doc.md", "accept", r#"She said "hello"."#);
    assert!(content.contains("\\\""), "quotes not escaped: {}", content);
}

// ---- streaming: render_chunk ----

#[test]
fn stream_chunk_covers_correct_lines() {
    let lines: Vec<String> = (0..500).map(|i| format!("# line {}", i)).collect();
    let (html, consumed) = render::render_chunk(&lines, 0, "/tmp/doc.md");
    assert_eq!(consumed, render::STREAM_CHUNK_LINES);
    assert!(html.contains("line 0"), "first line missing");
    assert!(
        !html.contains(&format!("line {}", render::STREAM_CHUNK_LINES)),
        "line after chunk boundary included"
    );
}

#[test]
fn stream_chunk_cursor_respected() {
    let lines: Vec<String> = (0..500).map(|i| format!("para {}", i)).collect();
    let cursor = render::STREAM_INITIAL_LINES;
    let (html, consumed) = render::render_chunk(&lines, cursor, "/tmp/doc.md");
    assert!(consumed > 0, "expected non-zero lines consumed");
    assert!(
        html.contains(&format!("para {}", cursor)),
        "expected para {} in chunk: {}",
        cursor,
        &html[..html.len().min(200)]
    );
}

#[test]
fn stream_chunk_at_end_returns_zero_consumed() {
    let lines: Vec<String> = vec!["a".into(), "b".into()];
    let (_html, consumed) = render::render_chunk(&lines, 2, "/tmp/doc.md");
    assert_eq!(consumed, 0, "consumed should be 0 when cursor is at end");
}

#[test]
fn render_chunk_returns_correct_slice() {
    let lines: Vec<String> = (0..50).map(|i| format!("line {}", i)).collect();
    let (html, consumed) = render::render_chunk(&lines, 0, "/tmp/doc.md");
    assert_eq!(consumed, render::STREAM_CHUNK_LINES.min(lines.len()));
    assert!(html.contains("line 0"), "first line missing from chunk");
}

#[test]
fn render_chunk_respects_cursor() {
    let lines: Vec<String> = (0..50).map(|i| format!("para {}", i)).collect();
    let (html, consumed) = render::render_chunk(&lines, 10, "/tmp/doc.md");
    assert!(html.contains("para 10"), "cursor not respected: {}", html);
    assert!(
        !html.contains("para 9"),
        "lines before cursor included: {}",
        html
    );
    let _ = consumed;
}

#[test]
fn render_chunk_at_end_returns_zero() {
    let lines: Vec<String> = vec!["a".into(), "b".into()];
    let (html, consumed) = render::render_chunk(&lines, 2, "/tmp/doc.md");
    assert_eq!(consumed, 0, "expected 0 lines consumed at end");
    assert!(
        html.is_empty() || html.trim().is_empty() || html.contains('\n'),
        "unexpected html for empty chunk: {:?}",
        html
    );
}

// ---- fixture round trips ----

const SAMPLE_MD: &str = "# mdv sample document

Testing the rendering pipeline end-to-end. This file exercises headings, lists,
code, tables, blockquotes, math, and links.

## Inline features

Paragraphs with **bold**, *italic*, `inline code`, and ~~strikethrough~~.
Inline math sits among text: the fine-structure constant is
$\\alpha \\approx 1/137.036$, and Euler's identity
$e^{i\\pi} + 1 = 0$ still feels like a magic trick.

Display math with double-dollar:

$$
\\mathcal{L} = -\\tfrac{1}{4} F_{\\mu\\nu} F^{\\mu\\nu}
            + i \\bar{\\psi} \\gamma^\\mu D_\\mu \\psi
            + |D_\\mu \\phi|^2 - V(\\phi)
$$

LaTeX-style bracket delimiters too:

\\[
\\int_{-\\infty}^{\\infty} e^{-x^2}\\,dx = \\sqrt{\\pi}
\\]

And escaped-paren inline: \\( \\nabla \\cdot \\mathbf{E} = \\rho / \\varepsilon_0 \\).

## Lists

- regular bullet
- another bullet
  - nested item
  - another nested
- last bullet

1. numbered
2. numbered
3. and so on

Task list:

- [x] wire KaTeX
- [x] vendor fonts
- [ ] file-watcher reload
- [ ] review mode UX pass

## Code

Rust block with highlighting:

```rust
fn classify(path: &Path) -> std::io::Result<Classification> {
    let meta = fs::metadata(path)?;
    let size_bytes = meta.len();
    // ...
    Ok(Classification { kind: DocKind::Markdown, size_bytes })
}
```

Python block:

```python
def render(md: str) -> str:
    return md2html(md, extras=[\"fenced-code-blocks\", \"tables\"])
```

Shell block:

```bash
cargo build --release && cp target/release/mdv ~/.local/bin/
```

## Table

| metric       | value      | unit  |
|--------------|-----------:|-------|
| $v_c$        |     20.780 | TeV   |
| $m_0$        |     41.640 | TeV   |
| $M_4$        |     25.300 | TeV   |
| $\\alpha$     |      0.007 |  -    |

## Blockquote

> \"The purpose of computing is insight, not numbers.\"
> - Hamming

## Links

- External: [example site](https://example.com/)
- Relative md: [see also](./related.md)
- Anchor: [#lists](#lists)

## Horizontal rule

---

End of fixture.
";

#[test]
fn fixture_sample_renders_without_error() {
    let cls = classify_bytes(SAMPLE_MD.as_bytes());
    assert!(
        matches!(cls.kind, render::DocKind::Markdown),
        "sample fixture should classify as Markdown"
    );
    let result = render::render_file("/fixtures/sample.md", &cls, SAMPLE_MD);
    assert!(!result.body_html.is_empty(), "rendered HTML is empty");
    assert!(
        result.body_html.contains("alpha") || result.body_html.contains("\\alpha"),
        "expected math content in rendered HTML"
    );
}

#[test]
fn fixture_related_renders_and_links_back() {
    let related = "# Related\n\nBack to the [sample.md](./sample.md) document.\n\n- one\n- two\n";
    let cls = classify_bytes(related.as_bytes());
    let result = render::render_file("/fixtures/related.md", &cls, related);
    assert!(
        result.body_html.contains("mdv://nav/"),
        "back link not rewritten: {}",
        &result.body_html[..result.body_html.len().min(400)]
    );
}
