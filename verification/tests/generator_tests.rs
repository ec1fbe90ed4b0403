use aicommit::generator::{
    chunk_summary_context, request_token_budget, synthesis_context, synthesis_input,
};

#[test]
fn chunk_context_names_the_chunk() {
    assert_eq!(
        chunk_summary_context("ctx", 2, 5),
        "ctx\nThis is diff chunk 2 of 5. Summarize the change intent in one short phrase for later synthesis. Do not write a final commit message."
    );
}

#[test]
fn token_budget_reserves_output_prompt_and_margin() {
    assert_eq!(request_token_budget(4096, 500, 300), 4096 - 500 - 300 - 20);
    assert_eq!(request_token_budget(100, 500, 300), 0);
    assert_eq!(request_token_budget(830, 500, 300), 10);
    assert_eq!(request_token_budget(820, 500, 300), 0);
}

#[test]
fn synthesis_input_numbers_summaries() {
    let s = synthesis_input(&["add cli".to_string(), "fix bug".to_string()]);
    assert_eq!(
        s,
        "Partial summaries from a large staged diff:\n1. add cli\n2. fix bug\n\nSynthesize these into exactly one final commit message."
    );
    assert_eq!(
        synthesis_input(&[]),
        "Partial summaries from a large staged diff:\n\n\nSynthesize these into exactly one final commit message."
    );
}

#[test]
fn synthesis_context_appends_instruction() {
    assert_eq!(
        synthesis_context(""),
        "\nYou are synthesizing partial summaries from one staged diff. Return exactly one final commit message, not one line per summary."
    );
}
