//! A window's history, its streaming, and what it does about messages from
//! the page.

use mdv::render;
use mdv::window::{nav_destination, review_block, Action, History, IpcMsg, WindowState};

fn s(x: &str) -> String {
    x.to_string()
}

#[test]
fn navigate_pushes_back_and_clears_forward() {
    let mut h = History::new(s("/d/a.md"));
    h.navigate(s("/d/b.md"));
    h.navigate(s("/d/c.md"));
    assert_eq!(h.step("back"), Some(s("/d/b.md")));
    assert_eq!(h.fwd, vec![s("/d/c.md")]);
    h.navigate(s("/d/x.md"));
    assert_eq!(h.current, "/d/x.md");
    assert_eq!(h.back, vec![s("/d/a.md"), s("/d/b.md")]);
    assert!(h.fwd.is_empty());
}

#[test]
fn back_then_forward_returns() {
    let mut h = History::new(s("/d/a.md"));
    h.navigate(s("/d/b.md"));
    assert_eq!(h.step("back"), Some(s("/d/a.md")));
    assert_eq!(h.current, "/d/a.md");
    assert_eq!(h.step("fwd"), Some(s("/d/b.md")));
    assert_eq!(h.current, "/d/b.md");
    assert_eq!(h.back, vec![s("/d/a.md")]);
    assert!(h.fwd.is_empty());
}

#[test]
fn step_with_nothing_there_changes_nothing() {
    let mut h = History::new(s("/d/a.md"));
    assert_eq!(h.step("back"), None);
    assert_eq!(h.step("fwd"), None);
    assert_eq!(h.step("sideways"), None);
    assert_eq!(h.current, "/d/a.md");
    assert!(h.back.is_empty() && h.fwd.is_empty());
}

#[test]
fn relative_links_resolve_against_the_document_directory() {
    assert_eq!(nav_destination("/docs/index.md", "other.md"), (s("/docs/other.md"), true));
    assert_eq!(nav_destination("index.md", "other.md"), (s("other.md"), true));
    assert_eq!(nav_destination("/docs/index.md", "/abs/x.md"), (s("/abs/x.md"), false));
    assert_eq!(nav_destination("/", "x.md"), (s("./x.md"), true));
}

#[test]
fn review_block_exact_format() {
    assert_eq!(
        review_block("/papers/paper.md", "accept", "Clear derivation, minor typo in eq. 14"),
        "=======\npaper.md user feedback\n=======\n[ACCEPT] \"Clear derivation, minor typo in eq. 14\"\n\n"
    );
    assert_eq!(
        review_block("/", "Reject", "a \"b\" \\c"),
        "=======\n? user feedback\n=======\n[REJECT] \"a \\\"b\\\" \\\\c\"\n\n"
    );
}

fn acts_eq(a: &[Action], expected: &str) {
    assert_eq!(format!("{:?}", a), expected);
}

#[test]
fn web_links_open_outside_and_local_links_navigate() {
    let mut w = WindowState::new(s("/d/a.md"), None);
    let a = w.handle_ipc(IpcMsg::Nav { target: s("HTTPS://Example.com/x") });
    acts_eq(&a, "[OpenExternal(\"HTTPS://Example.com/x\")]");
    let a = w.handle_ipc(IpcMsg::Nav { target: s("other.md") });
    acts_eq(&a, "[Navigate(\"other.md\")]");
    let a = w.handle_ipc(IpcMsg::History { dir: s("back") });
    acts_eq(&a, "[GoHistory(\"back\")]");
}

#[test]
fn review_is_written_once() {
    let mut w = WindowState::new(s("/docs/paper.md"), Some(s("/tmp/fb.md")));
    let a = w.handle_ipc(IpcMsg::Review { verdict: s("accept"), text: s("ok") });
    match &a[..] {
        [Action::AppendReview { output, block, notice }] => {
            assert_eq!(output, "/tmp/fb.md");
            assert_eq!(block, "=======\npaper.md user feedback\n=======\n[ACCEPT] \"ok\"\n\n");
            assert_eq!(notice, "review: appended [ACCEPT] to /tmp/fb.md");
        }
        other => panic!("expected one review append, got {:?}", other),
    }
    w.review_written();
    let a = w.handle_ipc(IpcMsg::Review { verdict: s("reject"), text: s("again") });
    acts_eq(&a, "[Log(\"review: duplicate submission ignored\")]");
}

#[test]
fn review_outside_review_mode_is_ignored() {
    let mut w = WindowState::new(s("/docs/paper.md"), None);
    let a = w.handle_ipc(IpcMsg::Review { verdict: s("accept"), text: s("ok") });
    acts_eq(&a, "[Log(\"review submit ignored: not in review mode\")]");
}

#[test]
fn ready_script_reflects_history_and_review() {
    let mut w = WindowState::new(s("/d/a.md"), Some(s("out.md")));
    assert_eq!(
        w.ready_script(),
        "window.mdv && window.mdv.setHistory(false, false);window.mdv && window.mdv.enableReview()"
    );
    w.history.navigate(s("/d/b.md"));
    w.review_written();
    let a = w.handle_ipc(IpcMsg::Ready);
    acts_eq(&a, "[Eval(\"window.mdv && window.mdv.setHistory(true, false)\")]");
}

#[test]
fn streaming_chunks_cover_the_rest_then_finish() {
    let text: String = (0..650).map(|i| format!("line {}\n", i)).collect();
    let mut w = WindowState::new(s("/d/big.md"), None);
    w.load_stream(true, &text);
    assert_eq!(w.stream_all_lines.len(), 650);
    assert_eq!(w.stream_cursor, 400);
    let a = w.handle_ipc(IpcMsg::Ready);
    assert_eq!(a.len(), 2);
    assert_eq!(w.stream_cursor, 600);
    match &a[1] {
        Action::Eval(script) => {
            assert!(script.starts_with("window.mdv && window.mdv.appendChunk(\""));
            assert!(script.contains("line 400"));
            assert!(script.contains("line 599"));
            assert!(!script.contains("line 600"));
        }
        other => panic!("expected a chunk script, got {:?}", other),
    }
    let a = w.handle_ipc(IpcMsg::ChunkAck { next: 600 });
    assert_eq!(a.len(), 1);
    assert_eq!(w.stream_cursor, 650);
    let a = w.handle_ipc(IpcMsg::ChunkAck { next: 650 });
    acts_eq(&a, "[Eval(\"window.mdv && window.mdv.streamDone()\")]");
    assert_eq!(w.history.current, "/d/big.md");
    assert!(w.history.back.is_empty() && w.history.fwd.is_empty());
}

#[test]
fn chunk_script_is_a_json_string_literal() {
    let mut w = WindowState::new(s("/d/q.md"), None);
    w.load_stream(true, "He said \"hi\"\tand left\\\n");
    w.stream_cursor = 0;
    let script = w.next_chunk().expect("a chunk");
    assert_eq!(
        script,
        "window.mdv && window.mdv.appendChunk(\"<p>He said \\\"hi\\\"\\tand left\\\\</p>\\n\")"
    );
    assert_eq!(w.next_chunk(), None);
}

#[test]
fn loading_a_small_document_clears_streaming() {
    let mut w = WindowState::new(s("/d/a.md"), None);
    w.load_stream(true, "a\nb\nc");
    assert_eq!(w.stream_all_lines, vec![s("a"), s("b"), s("c")]);
    assert_eq!(w.stream_cursor, 3);
    w.load_stream(false, "ignored");
    assert!(w.stream_all_lines.is_empty());
    assert_eq!(w.stream_cursor, 0);
}

fn unescape_feedback(e: &str) -> String {
    let mut out = String::new();
    let mut it = e.chars();
    while let Some(c) = it.next() {
        if c == '\\' {
            if let Some(n) = it.next() {
                out.push(n);
                continue;
            }
        }
        out.push(c);
    }
    out
}

#[test]
fn review_text_can_be_read_back() {
    let text = "a \\\"quoted\\\" path C:\\x\\ and \"more\"\\";
    let block = review_block("/d/doc.md", "accept", text);
    let start = block.find("] \"").unwrap() + 3;
    let end = block.len() - 3;
    assert!(block.ends_with("\"\n\n"));
    assert_eq!(unescape_feedback(&block[start..end]), text);
}

#[test]
fn window_streams_from_where_the_first_render_stopped() {
    let contents: String = (0..30000).map(|i| format!("- row {} with padding text\n", i)).collect();
    let cls = render::classify(&contents.as_bytes()[..8192], contents.len() as u64);
    let first = render::render_file("/d/big.md", &cls, &contents);
    let st = first.streaming.clone().expect("a large document streams");
    let mut w = WindowState::new(s("/d/big.md"), None);
    w.load_stream(true, &contents);
    assert_eq!(w.stream_cursor, st.emitted_lines);
    let mut chunks = 0;
    while w.next_chunk().is_some() {
        chunks += 1;
    }
    assert_eq!(w.stream_cursor, st.total_lines);
    assert_eq!(chunks, (30000 - 400) / 200);
}
