use aicommit::generator::GenerationProgress;
use aicommit::paths::{file_root, path_components_of, summarize_roots};
use aicommit::ui::{
    card_dimensions, file_count_label, file_list, file_list_step, file_metadata, hint, hyperlink,
    hyperlink_for, metadata_row, progress_update, render_card_frame, rendered_markdown_lines,
    summarize_files, wrap_plain_lines, StatusMessagePool, StatusMessages, StatusMessagesFile,
    StatusPool, StatusState, STATUS_ROTATE_SECS,
};

fn strings(v: &[&str]) -> Vec<String> {
    v.iter().map(|s| s.to_string()).collect()
}

fn sample_messages() -> StatusMessages {
    StatusMessages {
        waiting: strings(&["thinking", "pondering", "reading the diff", "weighing words"]),
        splitting: strings(&["slicing"]),
        summary: strings(&["condensing changes"]),
        synthesis: strings(&["stitching it together"]),
        rare: strings(&["consulting the rubber duck"]),
    }
}

#[test]
fn status_detail_rotates_through_pool_and_rare_lines() {
    let messages = sample_messages();
    let state = StatusState {
        stage: "Generating".to_owned(),
        pool: StatusPool::Waiting,
        seed: 7,
    };
    let mut seen = std::collections::BTreeSet::new();
    for step in 0..40 {
        if let Some(detail) = state.detail(&messages, step * STATUS_ROTATE_SECS) {
            seen.insert(detail.to_owned());
        }
    }
    assert!(seen.len() > 2);
}

#[test]
fn status_detail_shows_rare_line_every_sixth_step() {
    let messages = sample_messages();
    let state = StatusState { stage: "x".into(), pool: StatusPool::Waiting, seed: 0 };
    assert_eq!(state.detail(&messages, 5 * STATUS_ROTATE_SECS), Some("consulting the rubber duck"));
    assert_eq!(state.detail(&messages, 0), Some("thinking"));
    assert_eq!(state.detail(&messages, STATUS_ROTATE_SECS), Some("pondering"));
    let empty = StatusMessages {
        waiting: vec![],
        splitting: vec![],
        summary: vec![],
        synthesis: vec![],
        rare: vec![],
    };
    assert_eq!(state.detail(&empty, 0), None);
}

#[test]
fn status_messages_merge_prefers_non_empty_overrides() {
    let pool = |v: &[&str]| StatusMessagePool { messages: strings(v) };
    let base = StatusMessagesFile {
        waiting: pool(&["w"]),
        splitting: pool(&["s"]),
        summary: pool(&["m"]),
        synthesis: pool(&["y"]),
        rare: pool(&["r"]),
    };
    let over = StatusMessagesFile {
        waiting: pool(&["W"]),
        splitting: pool(&[]),
        summary: pool(&[]),
        synthesis: pool(&["Y"]),
        rare: pool(&[]),
    };
    let merged = StatusMessages::merge(base, over);
    assert_eq!(merged.pool(StatusPool::Waiting), &["W".to_string()]);
    assert_eq!(merged.pool(StatusPool::Splitting), &["s".to_string()]);
    assert_eq!(merged.pool(StatusPool::Summary), &["m".to_string()]);
    assert_eq!(merged.pool(StatusPool::Synthesis), &["Y".to_string()]);
    assert_eq!(merged.rare, vec!["r".to_string()]);
}

#[test]
fn hyperlink_falls_back_to_plain_text_without_a_terminal() {
    assert_eq!(hyperlink("abc123", "https://example.test"), "abc123");
}

#[test]
fn hyperlink_for_wraps_in_osc8() {
    assert_eq!(
        hyperlink_for("abc", "https://x.test", true),
        "\x1b]8;;https://x.test\x1b\\abc\x1b]8;;\x1b\\"
    );
    assert_eq!(hyperlink_for("abc", "https://x.test", false), "abc");
}

#[test]
fn summarize_files_truncates_large_lists() {
    let files = strings(&[
        "src/main.rs",
        "src/lib.rs",
        "src/ui.rs",
        "docs/usage.md",
        "README.md",
        "tests/cli.rs",
    ]);

    let lines = summarize_files(&files, 3, 3);
    assert_eq!(lines[0], "src/main.rs");
    assert_eq!(lines[1], "src/lib.rs");
    assert_eq!(lines[2], "src/ui.rs");
    assert_eq!(
        lines[3],
        "+3 more across src/ (3), docs/ (1), root files (1)"
    );
}

#[test]
fn summarize_roots_groups_top_level_paths() {
    let files = strings(&["src/main.rs", "src/lib.rs", "README.md", "docs/usage.md"]);

    assert_eq!(
        summarize_roots(&files, 4),
        "src/ (2), docs/ (1), root files (1)"
    );
}

#[test]
fn summarize_files_lists_short_lists_whole() {
    let files = strings(&["a.rs", "b/c.rs"]);
    assert_eq!(summarize_files(&files, 5, 4), files);
    assert_eq!(summarize_files(&[], 5, 4), Vec::<String>::new());
}

#[test]
fn summarize_roots_orders_ties_by_name_and_limits() {
    let files = strings(&["b/1", "a/1", "c/1", "c/2"]);
    assert_eq!(summarize_roots(&files, 2), "c/ (2), a/ (1)");
    assert_eq!(summarize_roots(&files, 0), "");
    assert_eq!(summarize_roots(&[], 3), "");
}

#[test]
fn file_roots_follow_path_components() {
    assert_eq!(file_root("src/main.rs"), "src/");
    assert_eq!(file_root("README.md"), "root files");
    assert_eq!(file_root("./src/x"), "./");
    assert_eq!(file_root("/etc/hosts"), "//");
    assert_eq!(file_root("a//b"), "a/");
    assert_eq!(file_root("a/./"), "root files");
    assert_eq!(file_root(""), "root files");
    assert_eq!(path_components_of("a/./b/../c/"), vec!["a", "b", "..", "c"]);
    for p in ["a/./b/../c/", "./x", "/", "//a//b", ".", "", "x/.", "../y"] {
        let expected: Vec<String> = std::path::Path::new(p)
            .iter()
            .map(|c| c.to_str().unwrap().to_owned())
            .collect();
        assert_eq!(path_components_of(p), expected, "components of {p:?}");
    }
}

#[test]
fn file_count_labels() {
    assert_eq!(file_count_label(1), "1 file");
    assert_eq!(file_count_label(0), "0 files");
    assert_eq!(file_count_label(42), "42 files");
}

#[test]
fn hint_and_metadata_rows_split_lines() {
    assert_eq!(hint("run aic\nthen push"), vec!["run aic", "then push"]);
    assert_eq!(metadata_row(&[]), Vec::<String>::new());
    assert_eq!(metadata_row(&strings(&["a", "b"])), vec!["a  •  b"]);
}

#[test]
fn file_lists_have_heading_and_summary() {
    let files = strings(&["src/a.rs", "src/b.rs"]);
    let list = file_list("Changed files", &files);
    assert_eq!(list.heading, "Changed files (2 files)");
    assert_eq!(list.lines, files);
    let step = file_list_step("Staged", &files[..1]);
    assert_eq!(step.heading, "Staged (1 file)");
}

#[test]
fn file_metadata_lists_count_and_paths() {
    let files = strings(&["src/a.rs", "README.md"]);
    assert_eq!(file_metadata(&files), vec!["2 files  •  paths: root files (1), src/ (1)"]);
    assert_eq!(file_metadata(&[]), vec!["0 files"]);
}

#[test]
fn progress_updates_follow_generation_stages() {
    let u = progress_update(GenerationProgress::Splitting, "commit message");
    assert_eq!((u.note, u.stage.as_str(), u.pool), (None, "Splitting diff for commit message", StatusPool::Splitting));
    let u = progress_update(GenerationProgress::Chunk { current: 1, total: 1 }, "commit message");
    assert_eq!((u.note, u.stage.as_str(), u.pool), (None, "Generating commit message", StatusPool::Waiting));
    let u = progress_update(GenerationProgress::Chunk { current: 1, total: 4 }, "commit message");
    assert_eq!(
        u.note.as_deref(),
        Some("Large diff split into 4 chunks - one AI request per chunk plus synthesis")
    );
    assert_eq!(u.stage, "Summarizing chunk 1/4");
    assert_eq!(u.pool, StatusPool::Summary);
    let u = progress_update(GenerationProgress::Chunk { current: 2, total: 4 }, "x");
    assert_eq!(u.note, None);
    assert_eq!(u.stage, "Summarizing chunk 2/4");
    let u = progress_update(GenerationProgress::Synthesizing, "pull request draft");
    assert_eq!((u.stage.as_str(), u.pool), ("Synthesizing pull request draft", StatusPool::Synthesis));
}

#[test]
fn card_dimensions_clamp_width() {
    let d = card_dimensions(10);
    assert_eq!((d.content_width, d.border_inner_width), (40, 42));
    let d = card_dimensions(60);
    assert_eq!((d.content_width, d.border_inner_width), (56, 58));
    let d = card_dimensions(500);
    assert_eq!((d.content_width, d.border_inner_width), (88, 90));
}

#[test]
fn card_frame_pads_rows_to_content_width() {
    let d = card_dimensions(44);
    let frame = render_card_frame("Title", &strings(&["hello", "漢字"]), d);
    assert_eq!(frame.top, format!("┌ Title {}┐", "─".repeat(42 - 7)));
    assert_eq!(frame.rows[0], format!("hello{}", " ".repeat(35)));
    // Wide characters take two columns each.
    assert_eq!(frame.rows[1], format!("漢字{}", " ".repeat(36)));
    assert_eq!(frame.bottom, format!("└{}┘", "─".repeat(42)));
    let empty = render_card_frame("T", &[], d);
    assert_eq!(empty.rows, vec![" ".repeat(40)]);
}

#[test]
fn wrap_plain_lines_wraps_at_spaces() {
    let lines = wrap_plain_lines("alpha beta gamma delta", 11);
    assert_eq!(lines, vec!["alpha beta", "gamma delta"]);
    assert_eq!(wrap_plain_lines("a\n   \nb", 20), vec!["a", "", "b"]);
    assert_eq!(wrap_plain_lines("", 20), vec![""]);
}

#[test]
fn rendered_markdown_lines_never_empty() {
    assert_eq!(rendered_markdown_lines(""), vec![""]);
    assert_eq!(rendered_markdown_lines("a\nb\n"), vec!["a", "b"]);
}

#[test]
fn spinner_message_joins_stage_and_detail() {
    let m = sample_messages();
    let state = StatusState { stage: "Generating".to_string(), pool: StatusPool::Waiting, seed: 0 };
    let shown = state.message(&m, 0);
    assert_eq!(shown, format!("Generating - {}", state.detail(&m, 0).unwrap()));
    let empty = StatusMessages {
        waiting: vec![],
        splitting: vec![],
        summary: vec![],
        synthesis: vec![],
        rare: vec![],
    };
    assert_eq!(state.message(&empty, 12), "Generating");
}

#[test]
fn root_groups_count_every_file_once() {
    let files = strings(&["src/main.rs", "src/lib.rs", "README.md", "docs/usage.md", "a/b", "x"]);
    let summary = summarize_roots(&files, 100);
    let total: usize = summary
        .split(", ")
        .map(|group| {
            let open = group.rfind('(').unwrap();
            group[open + 1..group.len() - 1].parse::<usize>().unwrap()
        })
        .sum();
    assert_eq!(total, files.len());
    assert_eq!(summary, summarize_roots(&files, 100));
}
