//! Chat messages and the local-command AI engine: how a conversation is
//! rendered into one prompt for a provider's CLI, and how that CLI's outcome
//! is turned into a commit message or an error.
use vstd::prelude::*;

use crate::text::{chars_of, concat2, concat3, is_blank, is_blank_str, trim, trim_str, views};
use vstd::string::StringExecFns;

verus! {

broadcast use vstd::string::group_string_axioms;

/// One message of a chat conversation sent to a provider.
pub struct ChatMessage {
    pub role: String,
    pub content: String,
}

impl ChatMessage {
    /// A message with role `user`.
    pub fn user(content: &str) -> (r: ChatMessage)
        ensures
            r.role@ == "user"@,
            r.content@ == content@,
    {
        ChatMessage { role: String::from_str("user"), content: String::from_str(content) }
    }
}

/// The instruction that opens every rendered prompt.
pub open spec fn prompt_preamble() -> Seq<char> {
    "Return only the assistant reply for the final user message. Do not add commentary about your process.\n"@
}

/// `s` ending with a newline (one is added when missing).
pub open spec fn with_final_newline(s: Seq<char>) -> Seq<char> {
    if s.len() > 0 && s.last() == '\n' {
        s
    } else {
        s.push('\n')
    }
}

/// One message as rendered into the prompt.
pub open spec fn message_block(m: ChatMessage) -> Seq<char> {
    "\n<message role=\""@ + m.role@ + "\">\n"@ + with_final_newline(m.content@) + "</message>\n"@
}

/// The prompt for a conversation: the preamble, then each message block.
pub open spec fn prompt_text(messages: Seq<ChatMessage>) -> Seq<char>
    decreases messages.len(),
{
    if messages.len() == 0 {
        prompt_preamble()
    } else {
        prompt_text(messages.drop_last()) + message_block(messages.last())
    }
}

fn ends_with_newline(s: &str) -> (r: bool)
    ensures
        r == (s@.len() > 0 && s@.last() == '\n'),
{
    let v = chars_of(s);
    v.len() > 0 && v[v.len() - 1] == '\n'
}

/// A local provider CLI invoked with a prompt on stdin.
pub struct CommandEngine {
    /// The configured provider, e.g. "codex".
    pub provider: String,
    /// The configured model.
    pub model: String,
    /// The program to run.
    pub program: String,
    /// Its arguments.
    pub args: Vec<String>,
    /// The directory it runs in.
    pub cwd: String,
}

impl CommandEngine {
    /// An engine for a provider that runs `program` with `args` in `cwd`.
    pub fn with_command(
        provider: &str,
        model: &str,
        program: &str,
        args: Vec<String>,
        cwd: &str,
    ) -> (r: CommandEngine)
        ensures
            r.provider@ == provider@,
            r.model@ == model@,
            r.program@ == program@,
            r.args@ == args@,
            r.cwd@ == cwd@,
    {
        CommandEngine {
            provider: String::from_str(provider),
            model: String::from_str(model),
            program: String::from_str(program),
            args,
            cwd: String::from_str(cwd),
        }
    }

    /// Renders a conversation into the single prompt fed to the CLI.
    pub fn render_prompt(messages: &[ChatMessage]) -> (r: String)
        ensures
            r@ == prompt_text(messages@),
    {
        let mut prompt = String::from_str(
            "Return only the assistant reply for the final user message. Do not add commentary about your process.\n",
        );
        let mut i: usize = 0;
        while i < messages.len()
            invariant
                i <= messages.len(),
                prompt@ == prompt_text(messages@.take(i as int)),
            decreases messages.len() - i,
        {
            let m = &messages[i];
            assert(messages@.take(i + 1).drop_last() =~= messages@.take(i as int));
            prompt.append("\n<message role=\"");
            prompt.append(m.role.as_str());
            prompt.append("\">\n");
            prompt.append(m.content.as_str());
            if !ends_with_newline(m.content.as_str()) {
                crate::text::push_char(&mut prompt, '\n');
            }
            prompt.append("</message>\n");
            i = i + 1;
            assert(prompt@ =~= prompt_text(messages@.take(i as int)));
        }
        assert(messages@.take(messages.len() as int) =~= messages@);
        prompt
    }

    /// The name this engine's provider goes by in messages.
    pub fn provider_label(&self) -> (r: &str)
        ensures
            r@ == self.provider@,
    {
        self.provider.as_str()
    }

    /// The command named in error messages.
    pub fn binary_hint(&self) -> (r: &str)
        ensures
            r@ == self.program@,
    {
        self.program.as_str()
    }

    /// The error reported when the CLI could not be run.
    pub fn failure_message(&self, failure: &CommandFailure) -> (r: String)
        ensures
            r@ == failure_text(self.provider@, self.program@, *failure),
    {
        let label = self.provider_label();
        let hint = self.binary_hint();
        match failure {
            CommandFailure::Spawn { not_found, detail } => {
                if *not_found {
                    let mut r = concat3(label, " provider requires `", self.program.as_str());
                    r.append("` on PATH");
                    r
                } else {
                    let mut r = concat3("failed to start ", label, " provider via `");
                    r.append(hint);
                    r.append("`: ");
                    r.append(detail.as_str());
                    r
                }
            },
            CommandFailure::Prompt(detail) => {
                let mut r = concat3("failed to write prompt to `", hint, "`: ");
                r.append(detail.as_str());
                r
            },
            CommandFailure::Output(detail) => {
                let mut r = concat3("failed to read output from ", label, " provider via `");
                r.append(hint);
                r.append("`: ");
                r.append(detail.as_str());
                r
            },
        }
    }

    /// The reply taken from a finished CLI run whose stdout, cleaned of
    /// model reasoning, is `content`: an error when the run failed or the
    /// reply is empty, else the reply.
    pub fn response(&self, output: &CommandOutput, content: &str) -> (r: Result<String, String>)
        ensures
            result_view(r) == response_result(self.provider@, self.program@, *output, content@),
    {
        let label = self.provider_label();
        let hint = self.binary_hint();
        if !output.success {
            let stderr = trim_str(output.stderr.as_str());
            let detail = if stderr.as_str().is_empty() {
                concat2("exit status ", output.status.as_str())
            } else {
                stderr
            };
            let mut r = concat3(label, " provider failed via `", hint);
            r.append("`: ");
            r.append(detail.as_str());
            return Err(r);
        }
        if content.is_empty() {
            let mut r = concat3(label, " provider returned an empty response via `", hint);
            r.append("`");
            return Err(r);
        }
        Ok(String::from_str(content))
    }
}

/// Why a provider CLI could not be run.
pub enum CommandFailure {
    /// The program could not be started; `not_found` when it is not on PATH.
    Spawn { not_found: bool, detail: String },
    /// The prompt could not be written to its stdin.
    Prompt(String),
    /// Its output could not be read.
    Output(String),
}

/// A finished CLI run.
pub struct CommandOutput {
    /// Whether it exited successfully.
    pub success: bool,
    /// Its exit status as displayed, e.g. "exit status: 9".
    pub status: String,
    /// Its stderr, decoded lossily.
    pub stderr: String,
}

/// The error text for a failure to run a provider's CLI.
pub open spec fn failure_text(label: Seq<char>, program: Seq<char>, failure: CommandFailure) -> Seq<
    char,
> {
    match failure {
        CommandFailure::Spawn { not_found, detail } => if not_found {
            label + " provider requires `"@ + program + "` on PATH"@
        } else {
            "failed to start "@ + label + " provider via `"@ + program + "`: "@ + detail@
        },
        CommandFailure::Prompt(detail) => "failed to write prompt to `"@ + program + "`: "@
            + detail@,
        CommandFailure::Output(detail) => "failed to read output from "@ + label
            + " provider via `"@ + program + "`: "@ + detail@,
    }
}

/// The view of a text result.
pub open spec fn result_view(r: Result<String, String>) -> Result<Seq<char>, Seq<char>> {
    match r {
        Ok(s) => Ok(s@),
        Err(e) => Err(e@),
    }
}

/// The outcome of a finished run: failure with stderr (trimmed) or the exit
/// status as detail; an empty reply; or the reply.
pub open spec fn response_result(
    label: Seq<char>,
    program: Seq<char>,
    output: CommandOutput,
    content: Seq<char>,
) -> Result<Seq<char>, Seq<char>> {
    if !output.success {
        let detail = if trim(output.stderr@).len() == 0 {
            "exit status "@ + output.status@
        } else {
            trim(output.stderr@)
        };
        Err(label + " provider failed via `"@ + program + "`: "@ + detail)
    } else if content.len() == 0 {
        Err(label + " provider returned an empty response via `"@ + program + "`"@)
    } else {
        Ok(content)
    }
}

} // verus!
