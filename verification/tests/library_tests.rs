//! The building blocks: sizes, paths, link rewriting, the math stash,
//! escaping and line splitting, each against concrete values.

use mdv::math::{placeholder_exec, restore_math, stash_math};
use mdv::markdown::rewrite_link;
use mdv::paths::{file_name_exec, join_rel_exec, name_extension_exec, parent_exec};
use mdv::render::{self, split_lines};
use mdv::size::{human_size, kilobytes};

fn chars(s: &str) -> Vec<char> {
    s.chars().collect()
}

fn text(v: &[char]) -> String {
    v.iter().collect()
}

#[test]
fn human_size_matches_float_formatting() {
    let cases: Vec<u64> = vec![
        0, 1, 1023, 1024, 1280, 1792, 3328, 1536, 49459, 1048575, 1048576, 1310720,
        5_000_000, 1073741823, 1073741824, 3_221_225_472, 9_007_199_254_740_993,
        u64::MAX,
    ];
    for n in cases {
        let b = n as f64;
        let expected = if b < 1024.0 {
            format!("{} B", n)
        } else if b < 1024.0 * 1024.0 {
            format!("{:.1} KB", b / 1024.0)
        } else if b < 1024.0 * 1024.0 * 1024.0 {
            format!("{:.1} MB", b / (1024.0 * 1024.0))
        } else {
            format!("{:.1} GB", b / (1024.0 * 1024.0 * 1024.0))
        };
        assert_eq!(text(&human_size(n)), expected, "size {}", n);
    }
}

#[test]
fn human_size_ties_round_to_even() {
    assert_eq!(text(&human_size(1280)), "1.2 KB");
    assert_eq!(text(&human_size(1792)), "1.8 KB");
    assert_eq!(text(&human_size(48 * 1024 + 307)), "48.3 KB");
}

#[test]
fn kilobytes_match_float_formatting() {
    for n in [0u64, 1, 512, 614400, 655_360, 1_234_567, 99_999_999] {
        assert_eq!(text(&kilobytes(n)), format!("{:.1}", n as f64 / 1024.0), "bytes {}", n);
    }
}

#[test]
fn streaming_banner_counts_lines_and_kilobytes() {
    let mut content = String::new();
    for i in 0..20000 {
        content.push_str(&format!("- row {} padded out to make the file large\n", i));
    }
    let cls = render::classify(&content.as_bytes()[..8192], content.len() as u64);
    let result = render::render_file("/tmp/big.md", &cls, &content);
    let last = result.banners.last().expect("a banner");
    assert!(matches!(last.level, render::BannerLevel::Stream));
    assert_eq!(
        last.text,
        format!("STREAMING - 400 of 20000 lines ({:.1} KB)", content.len() as f64 / 1024.0)
    );
    let ss = result.streaming.clone().expect("streaming state");
    assert_eq!((ss.emitted_lines, ss.total_lines), (400, 20000));
}

#[test]
fn paths_follow_std_path() {
    let cases = [
        "/docs/index.md", "index.md", "/", "", "a/b/", "a/b/..", "./x.md", "/a//b", "..",
        "dir/.hidden", "dir/archive.tar.gz", "/x/./", "a/.", "name.",
    ];
    for c in cases {
        let p = std::path::Path::new(c);
        let parent = parent_exec(&chars(c)).map(|v| text(&v));
        assert_eq!(parent, p.parent().map(|q| q.to_str().unwrap().to_string()), "parent of {:?}", c);
        let name = file_name_exec(&chars(c)).map(|v| text(&v));
        assert_eq!(
            name,
            p.file_name().map(|q| q.to_str().unwrap().to_string()),
            "file name of {:?}",
            c
        );
        if let Some(n) = p.file_name() {
            let ext = name_extension_exec(&chars(n.to_str().unwrap())).map(|v| text(&v));
            assert_eq!(
                ext,
                p.extension().map(|q| q.to_str().unwrap().to_string()),
                "extension of {:?}",
                c
            );
        }
    }
}

#[test]
fn join_follows_std_path() {
    for (base, rel) in [("/docs", "x.md"), ("/docs/", "x.md"), ("", "x.md"), ("a", "b/c.md")] {
        let expected = std::path::Path::new(base).join(rel);
        assert_eq!(
            text(&join_rel_exec(&chars(base), &chars(rel))),
            expected.to_str().unwrap(),
            "join of {:?} and {:?}",
            base,
            rel
        );
    }
}

#[test]
fn md_links_are_percent_encoded() {
    assert_eq!(
        text(&rewrite_link(&chars("other.md"), &chars("/docs"))),
        "mdv://nav/%2Fdocs%2Fother.md"
    );
    assert_eq!(
        text(&rewrite_link(&chars("my notes/é.md#Top"), &chars("/d"))),
        "mdv://nav/%2Fd%2Fmy%20notes%2F%C3%A9.md#Top"
    );
    assert_eq!(text(&rewrite_link(&chars("/abs/x.MD"), &chars("/d"))), "mdv://nav/%2Fabs%2Fx.MD");
    assert_eq!(text(&rewrite_link(&chars("pic.png"), &chars("/d"))), "pic.png");
    assert_eq!(text(&rewrite_link(&chars("mdv://nav/x.md"), &chars("/d"))), "mdv://nav/x.md");
}

#[test]
fn md_link_href_in_page() {
    let out = render::md_to_html("[next](other.md)", "/docs/index.md");
    assert!(out.contains("href=\"mdv://nav/%2Fdocs%2Fother.md\""), "{}", out);
}

#[test]
fn stash_cuts_math_and_keeps_the_rest() {
    let src = chars("a $x$ b \\(y\\) `$z$` c $$w$$");
    let (out, store) = stash_math(&src);
    let spans: Vec<String> = store.iter().map(|v| text(v)).collect();
    assert_eq!(spans, vec!["$x$", "\\(y\\)", "$$w$$"]);
    assert_eq!(
        text(&out),
        format!(
            "a {} b {} `$z$` c {}",
            text(&placeholder_exec(0)),
            text(&placeholder_exec(1)),
            text(&placeholder_exec(2))
        )
    );
    let back = restore_math(&out, &store);
    assert_eq!(text(&back), "a $x$ b \\(y\\) `$z$` c $$w$$");
}

#[test]
fn stash_leaves_currency_and_fences_alone() {
    let src = chars("$5 and $10\n```\n$a$\n```\n~~~\n$b$\n~~~\n");
    let (out, store) = stash_math(&src);
    assert!(store.is_empty());
    assert_eq!(out, src);
}

#[test]
fn restored_math_is_html_safe() {
    let src = chars("$a<b & c>d$");
    let (out, store) = stash_math(&src);
    assert_eq!(store.len(), 1);
    assert_eq!(text(&restore_math(&out, &store)), "$a&lt;b &amp; c&gt;d$");
    assert_eq!(text(&placeholder_exec(12)), "MDV0MATH0120MDV");
}

#[test]
fn lines_split_like_str_lines() {
    for s in ["", "a", "a\n", "a\r\nb", "a\n\nb\n", "\r\n", "x\ry\n", "\n\n"] {
        let got: Vec<String> = split_lines(&chars(s)).iter().map(|l| text(l)).collect();
        let expected: Vec<String> = s.lines().map(|l| l.to_string()).collect();
        assert_eq!(got, expected, "lines of {:?}", s);
    }
}

#[test]
fn plain_text_body_is_escaped() {
    let contents = "1 < 2 & 3 > 2\nno markdown here at all\n";
    let cls = render::classify(contents.as_bytes(), contents.len() as u64);
    assert!(matches!(cls.kind, render::DocKind::PlainText));
    let result = render::render_file("/tmp/notes.txt", &cls, contents);
    assert_eq!(
        result.body_html,
        "<pre class=\"plain\">1 &lt; 2 &amp; 3 &gt; 2\nno markdown here at all\n</pre>"
    );
    assert_eq!(result.title, "notes.txt");
    assert_eq!(result.banners.len(), 1);
    assert_eq!(result.banners[0].text, "plain text - no markdown structure detected");
}

#[test]
fn nonrender_card_lists_kind_size_and_path() {
    let bytes = b"%PDF-1.4 binary";
    let cls = render::classify(bytes, 49459);
    let result = render::render_file("/tmp/<x>.pdf", &cls, "");
    assert!(result.body_html.contains("<dd>pdf</dd>") || result.body_html.contains("pdf"));
    assert!(result.body_html.contains("<dd>48.3 KB</dd>"), "{}", result.body_html);
    assert!(result.body_html.contains("<dd>/tmp/&lt;x&gt;.pdf</dd>"), "{}", result.body_html);
    assert!(result.banners.is_empty());
}

#[test]
fn density_threshold_is_half_a_percent() {
    // one heading among 200 plain lines: 1 token in 201 lines is below 0.5%
    let mut sparse = String::from("# t\n");
    for _ in 0..200 {
        sparse.push_str("plain words only\n");
    }
    let cls = render::classify(sparse.as_bytes(), sparse.len() as u64);
    assert!(matches!(cls.kind, render::DocKind::PlainText), "{:?}", cls.kind);
    // one heading among 150 plain lines: 1 in 151 is above it
    let mut dense = String::from("# t\n");
    for _ in 0..150 {
        dense.push_str("plain words only\n");
    }
    let cls = render::classify(dense.as_bytes(), dense.len() as u64);
    assert!(matches!(cls.kind, render::DocKind::Markdown), "{:?}", cls.kind);
}

#[test]
fn code_is_highlighted_not_copied() {
    let out = render::md_to_html("```rust\nfn main() {}\n```", "/d/x.md");
    assert!(out.contains("<div class=\"mdv-code\" data-lang=\"rust\"><pre style=\""), "{}", out);
    assert!(out.contains("<span style=\""), "no highlighted spans: {}", out);
    assert!(!out.contains("<code"), "code block left unhighlighted: {}", out);
}

#[test]
fn restore_after_stash_escapes_only_math() {
    let src = chars("x < y & $a<b$ and \\(c>d\\) end");
    let (out, store) = stash_math(&src);
    assert_eq!(store.len(), 2);
    assert_eq!(text(&restore_math(&out, &store)), "x < y & $a&lt;b$ and \\(c&gt;d\\) end");
}

#[test]
fn first_placeholder_text() {
    assert_eq!(text(&placeholder_exec(0)), "MDV0MATH000MDV");
    assert_eq!(text(&placeholder_exec(12)), "MDV0MATH0120MDV");
}

#[test]
fn raw_restore_gives_source_back() {
    let source = "Euler: $e^{i\\pi}+1=0$, then\n$$\n\\int_0^1 x\\,dx\n$$\nand \\(a<b\\) plus \\[c\\].";
    let (out, store) = stash_math(&chars(source));
    assert_eq!(store.len(), 4);
    let mut back = text(&out);
    for (k, span) in store.iter().enumerate() {
        let p = text(&placeholder_exec(k));
        assert_eq!(back.matches(p.as_str()).count(), 1, "placeholder {} not unique", k);
        back = back.replace(p.as_str(), &text(span));
    }
    assert_eq!(back, source);
}

#[test]
fn placeholders_stand_in_index_order() {
    let (out, store) = stash_math(&chars("$a$ b $c$ d $$e$$ f"));
    assert_eq!(store.len(), 3);
    let o = text(&out);
    let at: Vec<usize> = (0..store.len())
        .map(|k| o.find(text(&placeholder_exec(k)).as_str()).unwrap())
        .collect();
    assert!(at[0] < at[1] && at[1] < at[2], "{:?}", at);
}

#[test]
fn entity_replacements_undo_html_escape() {
    let input = "<div class=\"x\" data-val='a&b'>&amp; &lt;";
    let e = render::html_escape(input);
    assert!(!e.contains('<') && !e.contains('>') && !e.contains('"') && !e.contains('\''));
    let back = e
        .replace("&lt;", "<")
        .replace("&gt;", ">")
        .replace("&quot;", "\"")
        .replace("&#39;", "'")
        .replace("&amp;", "&");
    assert_eq!(back, input);
}

#[test]
fn html_escape_splits_over_concatenation() {
    let a = "a<b & \"c\"";
    let b = "'d'>e";
    let whole = format!("{}{}", a, b);
    assert_eq!(
        render::html_escape(&whole),
        format!("{}{}", render::html_escape(a), render::html_escape(b))
    );
    assert_eq!(render::html_escape("plain text 123"), "plain text 123");
}

#[test]
fn undefined_reference_link_is_flagged() {
    let w = render::detect_warnings("See [the docs][missing].\n");
    assert_eq!(w, vec!["1 image/link references without definitions".to_string()]);
}

#[test]
fn defined_reference_link_is_not_flagged() {
    let w = render::detect_warnings("See [the docs][d].\n\n[d]: https://x\n");
    assert!(w.is_empty(), "{:?}", w);
}

#[test]
fn reference_labels_ignore_ascii_case() {
    let w = render::detect_warnings("[x][Docs]\n\n[docs]: /a\n");
    assert!(w.is_empty(), "{:?}", w);
}

#[test]
fn undefined_image_references_are_counted() {
    let w = render::detect_warnings("![alt][pic]\nand [one][a] [two][b]\n\n[a]: /a\n");
    assert_eq!(w, vec!["2 image/link references without definitions".to_string()]);
}

#[test]
fn five_hundred_lines_stream_in_three_chunks() {
    let lines: Vec<String> = (0..500).map(|i| format!("line {}", i)).collect();
    let mut cursor = 0;
    let mut taken = Vec::new();
    while cursor < lines.len() {
        let (html, consumed) = render::render_chunk(&lines, cursor, "/tmp/doc.md");
        assert!(html.contains(&format!("line {}", cursor)), "chunk at {} lost its first line", cursor);
        taken.push(consumed);
        cursor += consumed;
    }
    assert_eq!(taken, vec![200, 200, 100]);
    assert_eq!(cursor, 500);
}

#[test]
fn brackets_in_inline_code_are_no_references() {
    let w = render::detect_warnings("Index with `m[i][j]` here.\n");
    assert!(w.is_empty(), "{:?}", w);
    let w = render::detect_warnings("Two ticks: ``a ` m[i][j]`` done.\n");
    assert!(w.is_empty(), "{:?}", w);
}

#[test]
fn brackets_in_fenced_code_are_no_references() {
    let w = render::detect_warnings("```rust\nlet x = m[i][j];\n```\n");
    assert!(w.is_empty(), "{:?}", w);
}

#[test]
fn definitions_inside_fences_define_nothing() {
    let w = render::detect_warnings("[a][b]\n\n~~~\n[b]: /x\n~~~\n");
    assert_eq!(w, vec!["1 image/link references without definitions".to_string()]);
}

#[test]
fn unmatched_backtick_leaves_references_visible() {
    let w = render::detect_warnings("a ` b [c][d]\n");
    assert_eq!(w, vec!["1 image/link references without definitions".to_string()]);
}

#[test]
fn short_riff_sample_is_sniffed_safely() {
    let cls = render::classify(b"RIFFabcdW", 9);
    assert!(!matches!(cls.kind, render::DocKind::NonText { .. }), "{:?}", cls.kind);
    let cls = render::classify(b"RIFF\0\0\0\0WEB", 11);
    assert!(!matches!(cls.kind, render::DocKind::NonText { ref label } if label.contains("webp")));
}
