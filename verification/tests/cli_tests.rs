//! Command-line decisions: the Wayland environment plan, which documents
//! open, and the window cap.

use mdv::cli::{
    batch_inputs, cap_and_warn, directory_inputs, linux_webkit_env_plan, select_inputs,
    InputPlan, LinuxWebkitEnvPlan, UsageError, EXIT_NO_INPUTS, EXIT_USAGE, MAX_WINDOWS,
};

#[test]
fn linux_webkit_env_plan_is_none_off_wayland() {
    assert_eq!(linux_webkit_env_plan(false, true, false, false), None);
}

#[test]
fn linux_webkit_env_plan_sets_missing_vars_on_wayland() {
    assert_eq!(
        linux_webkit_env_plan(true, true, false, false),
        Some(LinuxWebkitEnvPlan {
            set_gdk_backend_x11: true,
            set_disable_compositing: true,
            warn_missing_display: false,
        })
    );
}

#[test]
fn linux_webkit_env_plan_respects_existing_overrides() {
    assert_eq!(
        linux_webkit_env_plan(true, true, true, true),
        Some(LinuxWebkitEnvPlan {
            set_gdk_backend_x11: false,
            set_disable_compositing: false,
            warn_missing_display: false,
        })
    );
}

#[test]
fn linux_webkit_env_plan_warns_when_wayland_has_no_x_display() {
    assert_eq!(
        linux_webkit_env_plan(true, false, false, false),
        Some(LinuxWebkitEnvPlan {
            set_gdk_backend_x11: false,
            set_disable_compositing: false,
            warn_missing_display: true,
        })
    );
}

#[test]
fn env_plan_sets_only_the_missing_variable() {
    assert_eq!(
        linux_webkit_env_plan(true, true, true, false),
        Some(LinuxWebkitEnvPlan {
            set_gdk_backend_x11: false,
            set_disable_compositing: true,
            warn_missing_display: false,
        })
    );
    assert_eq!(linux_webkit_env_plan(false, false, false, false), None);
}

fn names(n: usize) -> Vec<String> {
    (0..n).map(|i| format!("doc{}.md", i)).collect()
}

#[test]
fn cap_keeps_up_to_eight_silently() {
    let (kept, warn) = cap_and_warn(names(8));
    assert_eq!(kept, names(8));
    assert_eq!(warn, None);
    let (kept, warn) = cap_and_warn(Vec::<String>::new());
    assert!(kept.is_empty());
    assert_eq!(warn, None);
}

#[test]
fn cap_drops_extras_with_warning() {
    let (kept, warn) = cap_and_warn(names(11));
    assert_eq!(kept, names(8));
    assert_eq!(MAX_WINDOWS, 8);
    assert_eq!(
        warn.as_deref(),
        Some("warn: too many documents (11 given, 8 rendered)")
    );
}

fn s(x: &str) -> String {
    x.to_string()
}

#[test]
fn review_excludes_batch_and_directory() {
    let r = select_inputs(Some(s("a.md")), vec![s("b.md")], None, Some(s("out.md")));
    assert!(matches!(r, Err(UsageError::ReviewExclusive)));
    let r = select_inputs(Some(s("a.md")), vec![], Some(s("dir")), Some(s("out.md")));
    assert!(matches!(r, Err(UsageError::ReviewExclusive)));
    assert_eq!(
        UsageError::ReviewExclusive.message(),
        "error: -r is mutually exclusive with -b and -d"
    );
    assert_eq!(EXIT_USAGE, 2);
}

#[test]
fn review_needs_a_file() {
    let r = select_inputs(None, vec![], None, Some(s("out.md")));
    assert!(matches!(r, Err(UsageError::ReviewNeedsFile)));
    assert_eq!(
        UsageError::ReviewNeedsFile.message(),
        "error: -r requires exactly one input FILE"
    );
}

#[test]
fn review_of_one_file() {
    let r = select_inputs(Some(s("paper.md")), vec![], None, Some(s("feedback.md")));
    match r {
        Ok(InputPlan::Review { file, output }) => {
            assert_eq!(file, "paper.md");
            assert_eq!(output, "feedback.md");
        }
        other => panic!("expected a review plan, got {:?}", other),
    }
}

#[test]
fn batch_wins_over_directory() {
    let r = select_inputs(None, vec![s("a.md"), s("b.md")], Some(s("notes")), None);
    match r {
        Ok(InputPlan::Batch { files, directory_ignored }) => {
            assert_eq!(files, vec![s("a.md"), s("b.md")]);
            assert!(directory_ignored);
        }
        other => panic!("expected a batch plan, got {:?}", other),
    }
}

#[test]
fn directory_then_single_then_nothing() {
    match select_inputs(Some(s("x.md")), vec![], Some(s("notes")), None) {
        Ok(InputPlan::Directory { dir }) => assert_eq!(dir, "notes"),
        other => panic!("expected a directory plan, got {:?}", other),
    }
    match select_inputs(Some(s("x.md")), vec![], None, None) {
        Ok(InputPlan::Single { file }) => assert_eq!(file, "x.md"),
        other => panic!("expected a single-file plan, got {:?}", other),
    }
    assert!(matches!(select_inputs(None, vec![], None, None), Ok(InputPlan::Nothing)));
    assert_eq!(EXIT_NO_INPUTS, 3);
}

#[test]
fn batch_keeps_existing_files_in_order() {
    let cands = vec![
        (s("/a/one.md"), true),
        (s("/a/missing.md"), false),
        (s("/a/two.txt"), true),
    ];
    let (files, warn) = batch_inputs(&cands);
    assert_eq!(files, vec![s("/a/one.md"), s("/a/two.txt")]);
    assert_eq!(warn, None);
}

#[test]
fn batch_caps_at_eight() {
    let cands: Vec<(String, bool)> = (0..10).map(|i| (format!("f{}.md", i), true)).collect();
    let (files, warn) = batch_inputs(&cands);
    assert_eq!(files.len(), 8);
    assert_eq!(files[7], "f7.md");
    assert_eq!(
        warn.as_deref(),
        Some("warn: too many documents (10 given, 8 rendered)")
    );
}

#[test]
fn directory_keeps_markdown_files_sorted() {
    let entries = vec![
        (s("/n/zeta.md"), true),
        (s("/n/Alpha.MD"), true),
        (s("/n/beta.markdown"), true),
        (s("/n/sub.md"), false),
        (s("/n/.md"), true),
        (s("/n/gamma.Md"), true),
        (s("/n/notes"), true),
    ];
    let (files, warn) = directory_inputs(&entries);
    assert_eq!(files, vec![s("/n/Alpha.MD"), s("/n/gamma.Md"), s("/n/zeta.md")]);
    assert_eq!(warn, None);
}

#[test]
fn directory_order_matches_byte_order() {
    let entries = vec![
        (s("/d/é.md"), true),
        (s("/d/z.md"), true),
        (s("/d/a10.md"), true),
        (s("/d/a2.md"), true),
        (s("/d/a.md"), true),
    ];
    let (files, _) = directory_inputs(&entries);
    let mut expected: Vec<String> = entries.iter().map(|e| e.0.clone()).collect();
    expected.sort();
    assert_eq!(files, expected);
}

#[test]
fn directory_caps_after_sorting() {
    let entries: Vec<(String, bool)> = (0..12).rev().map(|i| (format!("/d/{:02}.md", i), true)).collect();
    let (files, warn) = directory_inputs(&entries);
    let expected: Vec<String> = (0..8).map(|i| format!("/d/{:02}.md", i)).collect();
    assert_eq!(files, expected);
    assert_eq!(
        warn.as_deref(),
        Some("warn: too many documents (12 given, 8 rendered)")
    );
}
