use aicommit::ai::{ChatMessage, CommandEngine, CommandFailure, CommandOutput};

fn engine(provider: &str, program: &str) -> CommandEngine {
    CommandEngine::with_command(provider, "default", program, vec!["exec".to_string()], "/tmp")
}

#[test]
fn render_prompt_wraps_each_message() {
    let messages = vec![
        ChatMessage { role: "system".into(), content: "be brief\n".into() },
        ChatMessage::user("diff"),
    ];
    assert_eq!(
        CommandEngine::render_prompt(&messages),
        "Return only the assistant reply for the final user message. Do not add commentary about your process.\n\n<message role=\"system\">\nbe brief\n</message>\n\n<message role=\"user\">\ndiff\n</message>\n"
    );
}

#[test]
fn missing_binary_is_reported_with_program() {
    let e = engine("codex", "__missing_binary__");
    let msg = e.failure_message(&CommandFailure::Spawn { not_found: true, detail: "nope".into() });
    assert!(msg.contains("codex provider requires `__missing_binary__` on PATH"));
    let msg = e.failure_message(&CommandFailure::Spawn { not_found: false, detail: "denied".into() });
    assert_eq!(msg, "failed to start codex provider via `__missing_binary__`: denied");
    let msg = e.failure_message(&CommandFailure::Prompt("broken".into()));
    assert_eq!(msg, "failed to write prompt to `__missing_binary__`: broken");
    let msg = e.failure_message(&CommandFailure::Output("eof".into()));
    assert_eq!(msg, "failed to read output from codex provider via `__missing_binary__`: eof");
}

#[test]
fn non_zero_exit_reports_stderr_or_status() {
    let e = engine("codex", "codex");
    let out = CommandOutput { success: false, status: "exit status: 9".into(), stderr: "  boom \n".into() };
    let err = e.response(&out, "").unwrap_err();
    assert!(err.contains("codex provider failed"));
    assert!(err.contains("boom"));
    let out = CommandOutput { success: false, status: "exit status: 9".into(), stderr: " ".into() };
    assert_eq!(
        e.response(&out, "x").unwrap_err(),
        "codex provider failed via `codex`: exit status exit status: 9"
    );
}

#[test]
fn empty_reply_is_an_error() {
    let e = engine("copilot", "copilot");
    let out = CommandOutput { success: true, status: "exit status: 0".into(), stderr: String::new() };
    assert_eq!(e.response(&out, "").unwrap_err(), "copilot provider returned an empty response via `copilot`");
    assert_eq!(e.response(&out, "feat: add cli").unwrap(), "feat: add cli");
}

fn test_messages() -> Vec<ChatMessage> {
    vec![ChatMessage::user("diff --git a/src/lib.rs b/src/lib.rs")]
}

#[test]
fn command_engine_reports_missing_binary() {
    let engine = CommandEngine::with_command(
        "codex",
        "default",
        "__missing_binary__",
        vec!["exec".to_string()],
        "/tmp",
    );
    assert!(CommandEngine::render_prompt(&test_messages()).contains("diff --git"));
    // What the CLI run comes to when the program is not on PATH.
    let failure = CommandFailure::Spawn {
        not_found: true,
        detail: "No such file or directory (os error 2)".to_string(),
    };
    let error = engine.failure_message(&failure);
    assert!(error.contains("codex provider requires `__missing_binary__` on PATH"));
}

#[test]
fn copilot_command_engine_reports_missing_binary() {
    let engine = CommandEngine::with_command(
        "copilot",
        "default",
        "__missing_binary__",
        vec!["-s".to_string(), "--no-ask-user".to_string()],
        "/tmp",
    );
    let failure = CommandFailure::Spawn {
        not_found: true,
        detail: "No such file or directory (os error 2)".to_string(),
    };
    let error = engine.failure_message(&failure);
    assert!(error.contains("copilot provider requires `__missing_binary__` on PATH"));
}

#[test]
fn copilot_command_engine_reports_non_zero_exit() {
    let engine = CommandEngine::with_command(
        "copilot",
        "default",
        "/bin/sh",
        vec!["copilot-fail".to_string()],
        "/tmp",
    );
    // What the CLI run comes to when the script writes "boom" to stderr and
    // exits with status 9.
    let output = CommandOutput {
        success: false,
        status: "exit status: 9".to_string(),
        stderr: "boom\n".to_string(),
    };
    let error = engine.response(&output, "").unwrap_err();
    assert!(error.contains("copilot provider failed"));
    assert!(error.contains("boom"));
}
