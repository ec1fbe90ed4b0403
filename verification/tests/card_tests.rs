use aicommit::ui::{
    card_width_for, markdown_skin, render_card_lines, render_markdown_card_lines, OutputRhythm,
};

#[test]
fn render_card_lines_wraps_long_content() {
    let lines = render_card_lines(
        "Generated commit",
        "feat(ui): add a much longer line that should wrap inside the bordered card cleanly",
        44,
    );

    assert!(lines[0].contains("Generated commit"));
    assert!(lines.len() > 4);
    assert!(lines.iter().all(|line| line.starts_with("  ")));
    let widths = lines
        .iter()
        .map(|line| console::measure_text_width(line))
        .collect::<Vec<_>>();
    assert!(widths.windows(2).all(|window| window[0] == window[1]));
}

#[test]
fn render_markdown_card_lines_preserves_markdown_formatting() {
    let lines = render_markdown_card_lines(
        &markdown_skin(),
        "AI review",
        "**Warning**\n\n1. **Example finding**\n`src/main.rs`\n- keep markdown formatting readable",
        52,
    );

    assert!(lines[0].contains("AI review"));
    assert!(lines.iter().all(|line| line.starts_with("  ")));
    assert!(lines.iter().all(|line| !line.contains("**Warning**")));
    assert!(lines.iter().any(|line| line.contains("Warning")));
    let widths = lines
        .iter()
        .map(|line| console::measure_text_width(line))
        .collect::<Vec<_>>();
    assert!(widths.windows(2).all(|window| window[0] == window[1]));
}

#[test]
fn render_markdown_card_lines_keep_width_with_mixed_width_content() {
    let lines = render_markdown_card_lines(
        &markdown_skin(),
        "AI review",
        "## Warning\n- plain ascii text\n- wide chars: 漢字 mixed with `code`\n- wrapped line with markdown emphasis around **important** details",
        58,
    );

    assert!(lines[0].contains("AI review"));
    let widths = lines
        .iter()
        .map(|line| console::measure_text_width(line))
        .collect::<Vec<_>>();
    assert!(widths.windows(2).all(|window| window[0] == window[1]));
}

#[test]
fn plain_card_without_colour_is_exact() {
    // Tests run with stdout piped, so the borders come out plain.
    let lines = render_card_lines("T", "hi", 10);
    assert_eq!(lines.len(), 3);
    assert_eq!(lines[0], format!("  ┌ T {}┐", "─".repeat(39)));
    assert_eq!(lines[1], format!("  │ hi{} │", " ".repeat(38)));
    assert_eq!(lines[2], format!("  └{}┘", "─".repeat(42)));
}

#[test]
fn empty_markdown_body_still_has_one_row() {
    let lines = render_markdown_card_lines(&markdown_skin(), "PR description", "", 44);
    assert_eq!(lines.len(), 3);
}

#[test]
fn card_width_follows_terminal_within_limits() {
    assert_eq!(card_width_for(0), 44);
    assert_eq!(card_width_for(60), 56);
    assert_eq!(card_width_for(96), 92);
    assert_eq!(card_width_for(200), 92);
}

#[test]
fn blank_lines_never_double() {
    let mut rhythm = OutputRhythm::new();
    assert!(!rhythm.ensure_blank_line());
    rhythm.mark_printed();
    assert!(rhythm.ensure_blank_line());
    assert!(!rhythm.ensure_blank_line());
    rhythm.mark_printed();
    rhythm.blank_line();
    assert!(!rhythm.ensure_blank_line());
}
