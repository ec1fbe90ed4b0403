//! Commit-message generation over a possibly chunked diff: the token budget
//! left for diff text, the prompts that frame chunk summaries and their
//! synthesis, and the progress stages reported while it runs.
use vstd::prelude::*;

use crate::text::{concat2, decimal, decimal_string, join, views};
use crate::token::{diff_split, split_diff};
use vstd::string::StringExecFns;

verus! {

broadcast use vstd::string::group_string_axioms;

/// Stage transitions reported while a (possibly chunked) generation runs, so
/// callers can surface real progress instead of a static spinner message.
#[derive(Clone, Copy, Debug, PartialEq, Eq, Structural)]
pub enum GenerationProgress {
    Splitting,
    Chunk { current: usize, total: usize },
    Synthesizing,
}

/// Tokens held back from the request budget as a safety margin.
pub const TOKEN_ADJUSTMENT: usize = 20;

/// Tokens left for diff text in one request: the input limit less the
/// output limit, the prompt, and the safety margin, never below zero.
pub open spec fn token_budget(max_input: nat, max_output: nat, prompt_tokens: nat) -> nat {
    let a = if max_input >= max_output { (max_input - max_output) as nat } else { 0 };
    let b = if a >= prompt_tokens { (a - prompt_tokens) as nat } else { 0 };
    if b >= TOKEN_ADJUSTMENT { (b - TOKEN_ADJUSTMENT) as nat } else { 0 }
}

/// Tokens left for diff text in one request.
pub fn request_token_budget(max_input: usize, max_output: usize, prompt_tokens: usize) -> (r: usize)
    ensures
        r == token_budget(max_input as nat, max_output as nat, prompt_tokens as nat),
{
    max_input.saturating_sub(max_output).saturating_sub(prompt_tokens).saturating_sub(
        TOKEN_ADJUSTMENT,
    )
}

/// The budget never lets a request exceed the input limit: when it is not
/// zero, budget, output limit, prompt and margin together fit the input
/// limit exactly.
pub proof fn law_token_budget_reserves_prompt(max_input: nat, max_output: nat, prompt_tokens: nat)
    ensures
        token_budget(max_input, max_output, prompt_tokens) > 0 ==> token_budget(
            max_input,
            max_output,
            prompt_tokens,
        ) + max_output + prompt_tokens + TOKEN_ADJUSTMENT == max_input,
        token_budget(max_input, max_output, prompt_tokens) + max_output + prompt_tokens
            + TOKEN_ADJUSTMENT >= max_input,
{
}

/// The context sent with one chunk: the user's context, then an instruction
/// to summarise chunk `current` of `total`.
pub open spec fn chunk_context(context: Seq<char>, current: nat, total: nat) -> Seq<char> {
    context + "\nThis is diff chunk "@ + decimal(current) + " of "@ + decimal(total)
        + ". Summarize the change intent in one short phrase for later synthesis. Do not write a final commit message."@
}

/// The context sent with one chunk of a split diff.
pub fn chunk_summary_context(context: &str, current: usize, total: usize) -> (r: String)
    ensures
        r@ == chunk_context(context@, current as nat, total as nat),
{
    let mut r = concat2(context, "\nThis is diff chunk ");
    r.append(decimal_string(current).as_str());
    r.append(" of ");
    r.append(decimal_string(total).as_str());
    r.append(
        ". Summarize the change intent in one short phrase for later synthesis. Do not write a final commit message.",
    );
    r
}

/// One summary as listed for synthesis: "3. <summary>".
pub open spec fn numbered(index: nat, summary: Seq<char>) -> Seq<char> {
    decimal(index + 1) + ". "@ + summary
}

/// The numbered summaries, in order.
pub open spec fn numbered_all(summaries: Seq<Seq<char>>) -> Seq<Seq<char>> {
    Seq::new(summaries.len(), |i: int| numbered(i as nat, summaries[i]))
}

/// The diff text sent for synthesis: the numbered chunk summaries framed by
/// an instruction to produce one message.
pub open spec fn synthesis_text(summaries: Seq<Seq<char>>) -> Seq<char> {
    "Partial summaries from a large staged diff:\n"@ + join(numbered_all(summaries), "\n"@)
        + "\n\nSynthesize these into exactly one final commit message."@
}

/// The input of the synthesis request.
pub fn synthesis_input(summaries: &[String]) -> (r: String)
    ensures
        r@ == synthesis_text(views(summaries@)),
{
    let ghost sv = views(summaries@);
    let mut body = String::new();
    let mut i: usize = 0;
    while i < summaries.len()
        invariant
            sv == views(summaries@),
            i <= summaries.len(),
            body@ == join(numbered_all(sv.take(i as int)), "\n"@),
        decreases summaries.len() - i,
    {
        if i > 0 {
            body.append("\n");
        }
        let mut line = decimal_string(i + 1);
        line.append(". ");
        line.append(summaries[i].as_str());
        let ghost prev = numbered_all(sv.take(i as int));
        i = i + 1;
        assert(numbered_all(sv.take(i as int)).drop_last() =~= prev);
        assert(numbered_all(sv.take(i as int)).last() == line@);
        body.append(line.as_str());
    }
    assert(sv.take(summaries.len() as int) =~= sv);
    let mut r = String::from_str("Partial summaries from a large staged diff:\n");
    r.append(body.as_str());
    r.append("\n\nSynthesize these into exactly one final commit message.");
    r
}

/// The context of the synthesis request.
pub open spec fn synthesis_context_text(context: Seq<char>) -> Seq<char> {
    context
        + "\nYou are synthesizing partial summaries from one staged diff. Return exactly one final commit message, not one line per summary."@
}

/// The context of the synthesis request.
pub fn synthesis_context(context: &str) -> (r: String)
    ensures
        r@ == synthesis_context_text(context@),
{
    concat2(
        context,
        "\nYou are synthesizing partial summaries from one staged diff. Return exactly one final commit message, not one line per summary.",
    )
}

// ---------------------------------------------------------------------------
// Driving a generation
// ---------------------------------------------------------------------------

/// One request to the AI engine: the progress to report before it, the text
/// in place of the diff, and the context to frame it with.
pub struct GenerationRequest {
    pub progress: GenerationProgress,
    pub input: String,
    pub context: String,
}

/// The abstract state of a generation: the diff's chunks, the user's
/// context, and the chunk summaries received so far.
pub type GenerationModel = (Seq<Seq<char>>, Seq<char>, Seq<Seq<char>>);

/// The request outstanding in a state. A diff in one chunk is sent as it
/// is, with the user's context. Otherwise each chunk is sent in turn for a
/// summary, and once every chunk is summarised the numbered summaries are
/// sent for synthesis.
pub open spec fn outstanding_request(g: GenerationModel) -> (GenerationProgress, Seq<char>, Seq<
    char,
>) {
    let (chunks, context, summaries) = g;
    let n = chunks.len();
    let k = summaries.len();
    if n == 1 {
        (GenerationProgress::Chunk { current: 1, total: 1 }, chunks[0], context)
    } else if k < n {
        (
            GenerationProgress::Chunk { current: (k + 1) as usize, total: n as usize },
            chunks[k as int],
            chunk_context(context, k + 1, n),
        )
    } else {
        (GenerationProgress::Synthesizing, synthesis_text(summaries), synthesis_context_text(context))
    }
}

/// Whether the reply to the outstanding request is the commit message: the
/// request was for a whole diff, or for the synthesis.
pub open spec fn answers_generation(g: GenerationModel) -> bool {
    g.0.len() == 1 || g.2.len() == g.0.len()
}

/// How many replies are still to come, the outstanding one included.
pub open spec fn replies_left(g: GenerationModel) -> int {
    if g.0.len() == 1 {
        1 - g.2.len()
    } else {
        g.0.len() + 1 - g.2.len()
    }
}

/// The view of a request.
pub open spec fn request_view(r: GenerationRequest) -> (GenerationProgress, Seq<char>, Seq<char>) {
    (r.progress, r.input@, r.context@)
}

/// A commit-message generation under way: exactly one request is
/// outstanding, and each reply moves it on.
pub struct CommitGeneration {
    chunks: Vec<String>,
    context: String,
    summaries: Vec<String>,
}

impl View for CommitGeneration {
    type V = GenerationModel;

    closed spec fn view(&self) -> GenerationModel {
        (views(self.chunks@), self.context@, views(self.summaries@))
    }
}

/// What a reply leads to: the next request, or the commit message.
pub enum GenerationStep {
    Ask(CommitGeneration, GenerationRequest),
    Finish(String),
}

impl CommitGeneration {
    #[verifier::type_invariant]
    spec fn well_formed(self) -> bool {
        &&& self.chunks.len() == 1 ==> self.summaries.len() == 0
        &&& self.summaries.len() <= self.chunks.len()
    }

    /// The state is one a generation can be in.
    pub open spec fn valid(g: GenerationModel) -> bool {
        &&& g.0.len() == 1 ==> g.2.len() == 0
        &&& g.2.len() <= g.0.len()
    }

    /// The request outstanding now.
    pub fn request(&self) -> (r: GenerationRequest)
        ensures
            request_view(r) == outstanding_request(self@),
    {
        proof {
            use_type_invariant(self);
        }
        let n = self.chunks.len();
        let k = self.summaries.len();
        if n == 1 {
            GenerationRequest {
                progress: GenerationProgress::Chunk { current: 1, total: 1 },
                input: self.chunks[0].clone(),
                context: self.context.clone(),
            }
        } else if k < n {
            GenerationRequest {
                progress: GenerationProgress::Chunk { current: k + 1, total: n },
                input: self.chunks[k].clone(),
                context: chunk_summary_context(self.context.as_str(), k + 1, n),
            }
        } else {
            GenerationRequest {
                progress: GenerationProgress::Synthesizing,
                input: synthesis_input(self.summaries.as_slice()),
                context: synthesis_context(self.context.as_str()),
            }
        }
    }

    /// Starts a generation: the diff is split under the request budget (at
    /// least one token), and the first request is returned with the state.
    pub fn start(diff: &str, context: &str, max_request_tokens: usize) -> (r: (
        CommitGeneration,
        GenerationRequest,
    ))
        ensures
            r.0@ == (diff_split(diff@, max_request_tokens as nat), context@, Seq::<Seq<char>>::empty()),
            request_view(r.1) == outstanding_request(r.0@),
            replies_left(r.0@) == if r.0@.0.len() == 1 {
                1
            } else {
                r.0@.0.len() + 1
            },
    {
        let budget = if max_request_tokens >= 1 {
            max_request_tokens
        } else {
            1
        };
        let chunks = split_diff(diff, budget);
        let g = CommitGeneration {
            chunks,
            context: String::from_str(context),
            summaries: Vec::new(),
        };
        assert(views(g.summaries@) =~= Seq::<Seq<char>>::empty());
        let req = g.request();
        (g, req)
    }

    /// Takes the reply to the outstanding request. When it answers the
    /// generation it is the commit message; otherwise it is the summary of
    /// the chunk asked about, and the next request follows. Every step
    /// brings the end one reply closer.
    pub fn on_reply(self, reply: String) -> (r: GenerationStep)
        ensures
            CommitGeneration::valid(self@),
            answers_generation(self@) <==> r is Finish,
            replies_left(self@) >= 1,
            match r {
                GenerationStep::Finish(m) => m@ == reply@ && replies_left(self@) == 1,
                GenerationStep::Ask(next, req) => {
                    &&& next@ == (self@.0, self@.1, self@.2.push(reply@))
                    &&& request_view(req) == outstanding_request(next@)
                    &&& replies_left(next@) == replies_left(self@) - 1
                },
            },
    {
        proof {
            use_type_invariant(&self);
        }
        let n = self.chunks.len();
        let k = self.summaries.len();
        if n == 1 || k == n {
            return GenerationStep::Finish(reply);
        }
        let CommitGeneration { chunks, context, mut summaries } = self;
        let ghost before = views(summaries@);
        summaries.push(reply);
        assert(views(summaries@) =~= before.push(reply@));
        let next = CommitGeneration { chunks, context, summaries };
        let req = next.request();
        GenerationStep::Ask(next, req)
    }
}

} // verus!
