use aicommit::generator::{CommitGeneration, GenerationProgress, GenerationStep};
use aicommit::token::split_diff;

#[test]
fn small_diff_is_one_request_whose_reply_is_the_message() {
    let (generation, request) = CommitGeneration::start("+ one line", "ctx", 1000);
    assert_eq!(request.progress, GenerationProgress::Chunk { current: 1, total: 1 });
    assert_eq!(request.input, "+ one line");
    assert_eq!(request.context, "ctx");
    match generation.on_reply("feat: add line".to_string()) {
        GenerationStep::Finish(message) => assert_eq!(message, "feat: add line"),
        GenerationStep::Ask(..) => panic!("a single chunk needs one reply"),
    }
}

#[test]
fn chunked_diff_is_summarised_then_synthesised() {
    let diff = (0..60)
        .map(|i| format!("line {i} with some diff content"))
        .collect::<Vec<_>>()
        .join("\n");
    let chunks = split_diff(&diff, 50);
    let n = chunks.len();
    assert!(n > 1);

    let (mut generation, mut request) = CommitGeneration::start(&diff, "ctx", 50);
    for (i, chunk) in chunks.iter().enumerate() {
        assert_eq!(request.progress, GenerationProgress::Chunk { current: i + 1, total: n });
        assert_eq!(&request.input, chunk);
        assert!(request.context.starts_with(&format!("ctx\nThis is diff chunk {} of {n}.", i + 1)));
        match generation.on_reply(format!("part {}", i + 1)) {
            GenerationStep::Ask(next, next_request) => {
                generation = next;
                request = next_request;
            }
            GenerationStep::Finish(_) => panic!("finished before the synthesis"),
        }
    }
    assert_eq!(request.progress, GenerationProgress::Synthesizing);
    assert!(request.input.starts_with("Partial summaries from a large staged diff:\n1. part 1\n2. part 2\n"));
    assert!(request.context.starts_with("ctx\nYou are synthesizing"));
    match generation.on_reply("feat: final".to_string()) {
        GenerationStep::Finish(message) => assert_eq!(message, "feat: final"),
        GenerationStep::Ask(..) => panic!("the synthesis reply is the message"),
    }
}

#[test]
fn zero_budget_counts_as_one_token() {
    let (_, request) = CommitGeneration::start("a\nb", "", 0);
    let expected = split_diff("a\nb", 1);
    assert_eq!(request.input, expected[0]);
}
