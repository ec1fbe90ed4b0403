use aicommit::commands::{missing_api_key_error, LogRewrite, LogStep};
use aicommit::errors::AicError;
use aicommit::commands::{
    commit_count_label, pr_action, pr_final_message, pr_message, pr_session_items,
    pr_edited, pr_preview, pr_range_error, pr_session_step, rewrite_preview, PrAction,
    PrDraftError,
};

#[test]
fn pr_message_omits_blank_body() {
    assert_eq!(pr_message("feat: add pr", ""), "feat: add pr");
}

#[test]
fn pr_message_includes_body() {
    assert_eq!(
        pr_message("feat: add pr", "## Summary\n- add it"),
        "feat: add pr\n\n## Summary\n- add it"
    );
}

#[test]
fn pr_message_trims_title_and_body() {
    assert_eq!(pr_message("  t  ", " \n b \n"), "t\n\nb");
    assert_eq!(pr_message(" t ", " \t\n "), "t");
}

#[test]
fn pr_final_message_refuses_blank_title() {
    let e = pr_final_message("  ", "body").unwrap_err();
    assert_eq!(e, PrDraftError::EmptyTitle);
    assert_eq!(e.message(), "PR title cannot be empty");
    assert_eq!(pr_final_message("t", "b").unwrap(), "t\n\nb");
}

#[test]
fn pr_actions_follow_choice() {
    assert_eq!(pr_action("Use"), PrAction::Use);
    assert_eq!(pr_action("Edit"), PrAction::Edit);
    assert_eq!(pr_action("Regenerate"), PrAction::Regenerate);
    assert_eq!(pr_action("use"), PrAction::Abort);
}

#[test]
fn pr_session_items_list_known_facts() {
    let items = pr_session_items(Some("feature/x"), "main", "openai", "gpt-4o", Some("ABC-1"), " ctx ");
    assert_eq!(
        items,
        vec!["feature/x", "base: main", "openai/gpt-4o", "ticket: ABC-1", "extra context provided"]
    );
    let items = pr_session_items(None, "main", "openai", "gpt-4o", None, "  ");
    assert_eq!(items, vec!["base: main", "openai/gpt-4o"]);
}

#[test]
fn pr_session_step_reads_as_shown() {
    assert_eq!(
        pr_session_step("origin/main", 3, 1, 120),
        "Reading branch range against origin/main (3 commits, 1 file, 120 lines)"
    );
}

#[test]
fn commit_count_labels() {
    assert_eq!(commit_count_label(1), "1 commit message");
    assert_eq!(commit_count_label(0), "0 commit messages");
    assert_eq!(commit_count_label(12), "12 commit messages");
}

#[test]
fn rewrite_preview_aligns_subjects() {
    let (old, new) = rewrite_preview("0123456789abcdef", "old subject", "feat: new\n\nbody");
    assert_eq!(old, "01234567  old subject");
    assert_eq!(new, "          → feat: new");
    let (_, empty) = rewrite_preview("0123456789abcdef", "s", "");
    assert_eq!(empty, "          → ");
}

#[test]
fn pr_range_needs_commits_and_a_diff() {
    assert_eq!(
        pr_range_error("main", 0, "diff"),
        Some("no commits found between main and HEAD".to_string())
    );
    assert_eq!(
        pr_range_error("main", 2, " \n\t"),
        Some("no diff found between main and HEAD".to_string())
    );
    assert_eq!(pr_range_error("main", 2, "+x"), None);
}

#[test]
fn pr_preview_marks_empty_description() {
    assert_eq!(pr_preview("t", ""), ("t".to_string(), "(empty)".to_string()));
    assert_eq!(pr_preview("t", " "), ("t".to_string(), " ".to_string()));
}

#[test]
fn pr_edits_are_trimmed() {
    assert_eq!(
        pr_edited("  feat: x \n", "\n body \n"),
        ("feat: x".to_string(), "body".to_string())
    );
}

#[test]
fn api_key_is_required_only_when_the_provider_needs_one() {
    match missing_api_key_error("openai", true, false) {
        Some(AicError::MissingApiKey(p)) => assert_eq!(p, "openai"),
        other => panic!("unexpected {other:?}"),
    }
    assert!(missing_api_key_error("openai", true, true).is_none());
    assert!(missing_api_key_error("ollama", false, false).is_none());
}

#[test]
fn rewording_waits_for_every_message_then_asks() {
    assert_eq!(LogRewrite::start(0, false).err(), Some("no commits found".to_string()));
    let mut step = LogRewrite::start(2, false).unwrap();
    let mut asked = Vec::new();
    let pending = loop {
        match step {
            LogStep::Generate(rewrite, index) => {
                asked.push(index);
                step = rewrite.on_message(format!("feat: {index}"));
            }
            LogStep::Confirm(pending) => break pending,
            LogStep::Reword(_) => panic!("confirmation was not skipped"),
        }
    };
    assert_eq!(asked, vec![0, 1]);
    assert_eq!(pending.messages(), &["feat: 0".to_string(), "feat: 1".to_string()]);
    assert_eq!(pending.on_confirmation(false), Err("rewrite aborted".to_string()));
}

#[test]
fn rewording_with_yes_skips_the_question() {
    match LogRewrite::start(1, true).unwrap() {
        LogStep::Generate(rewrite, 0) => match rewrite.on_message("fix: x".to_string()) {
            LogStep::Reword(messages) => assert_eq!(messages, vec!["fix: x".to_string()]),
            _ => panic!("expected the rewording"),
        },
        _ => panic!("expected the first message to be generated"),
    }
}
