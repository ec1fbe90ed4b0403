//! Decisions of the `pr` and `log` commands: the pull-request message and
//! session summary, the reaction to the user's choice, and the preview of
//! rewritten commit subjects.
use vstd::prelude::*;

use crate::text::{
    byte_boundary, byte_prefix, utf8_size, concat2, concat3, decimal, decimal_string, is_blank, is_blank_str, lines, lines_of, str_equals,
    trim, trim_str, views,
};
use crate::errors::{AicError, AicErrorModel};
use crate::ui::file_count_text;
use crate::ui::file_count_label;
use vstd::string::StringExecFns;

verus! {

broadcast use vstd::string::group_string_axioms;

/// The message recorded for a pull request: the trimmed title, then a blank
/// line and the trimmed body when the body is not blank.
pub open spec fn pr_text(title: Seq<char>, body: Seq<char>) -> Seq<char> {
    if is_blank(body) {
        trim(title)
    } else {
        trim(title) + "\n\n"@ + trim(body)
    }
}

/// The message recorded for a pull request.
pub fn pr_message(title: &str, body: &str) -> (r: String)
    ensures
        r@ == pr_text(title@, body@),
{
    if is_blank_str(body) {
        trim_str(title)
    } else {
        let t = trim_str(title);
        let b = trim_str(body);
        concat3(t.as_str(), "\n\n", b.as_str())
    }
}

/// A pull request's message always starts with its trimmed title, and is
/// exactly the title when the body is blank.
pub proof fn law_pr_message_starts_with_title(title: Seq<char>, body: Seq<char>)
    ensures
        pr_text(title, body).take(trim(title).len() as int) == trim(title),
        is_blank(body) ==> pr_text(title, body) == trim(title),
{
    if !is_blank(body) {
        assert((trim(title) + "\n\n"@ + trim(body)).take(trim(title).len() as int) =~= trim(title));
    } else {
        assert(trim(title).take(trim(title).len() as int) =~= trim(title));
    }
}

/// Why a pull-request draft cannot be used.
#[derive(Debug, Clone, Copy, PartialEq, Eq, Structural)]
pub enum PrDraftError {
    EmptyTitle,
}

impl PrDraftError {
    /// The text shown for this error.
    pub fn message(&self) -> (r: String)
        ensures
            r@ == "PR title cannot be empty"@,
    {
        String::from_str("PR title cannot be empty")
    }
}

/// The view of a draft check.
pub open spec fn draft_view(r: Result<String, PrDraftError>) -> Result<Seq<char>, PrDraftError> {
    match r {
        Ok(s) => Ok(s@),
        Err(e) => Err(e),
    }
}

/// Checks a final draft: a blank title is refused, else the message to
/// record is returned.
pub fn pr_final_message(title: &str, body: &str) -> (r: Result<String, PrDraftError>)
    ensures
        draft_view(r) == if is_blank(title@) {
            Err(PrDraftError::EmptyTitle)
        } else {
            Ok(pr_text(title@, body@))
        },
{
    if is_blank_str(title) {
        Err(PrDraftError::EmptyTitle)
    } else {
        Ok(pr_message(title, body))
    }
}

/// What the user chose to do with a pull-request draft.
#[derive(Debug, Clone, Copy, PartialEq, Eq, Structural)]
pub enum PrAction {
    Use,
    Regenerate,
    Edit,
    Abort,
}

/// The action a menu choice names; anything else aborts.
pub open spec fn pr_action_named(choice: Seq<char>) -> PrAction {
    if choice == "Use"@ {
        PrAction::Use
    } else if choice == "Edit"@ {
        PrAction::Edit
    } else if choice == "Regenerate"@ {
        PrAction::Regenerate
    } else {
        PrAction::Abort
    }
}

/// The action a menu choice names.
pub fn pr_action(choice: &str) -> (r: PrAction)
    ensures
        r == pr_action_named(choice@),
{
    if str_equals(choice, "Use") {
        PrAction::Use
    } else if str_equals(choice, "Edit") {
        PrAction::Edit
    } else if str_equals(choice, "Regenerate") {
        PrAction::Regenerate
    } else {
        PrAction::Abort
    }
}

/// The view of an optional string slice.
pub open spec fn opt_view(o: Option<&str>) -> Option<Seq<char>> {
    match o {
        Some(s) => Some(s@),
        None => None,
    }
}

/// Why a pull-request session cannot start on a branch range: no commits
/// in it, or an empty diff.
pub open spec fn pr_range_problem(base_ref: Seq<char>, commits: nat, diff: Seq<char>) -> Option<
    Seq<char>,
> {
    if commits == 0 {
        Some("no commits found between "@ + base_ref + " and HEAD"@)
    } else if is_blank(diff) {
        Some("no diff found between "@ + base_ref + " and HEAD"@)
    } else {
        None
    }
}

/// The error that stops a pull-request session before any request, if any.
pub fn pr_range_error(base_ref: &str, commits: usize, diff: &str) -> (r: Option<String>)
    ensures
        crate::text::opt_view(r) == pr_range_problem(base_ref@, commits as nat, diff@),
{
    if commits == 0 {
        Some(concat3("no commits found between ", base_ref, " and HEAD"))
    } else if is_blank_str(diff) {
        Some(concat3("no diff found between ", base_ref, " and HEAD"))
    } else {
        None
    }
}

/// The bodies of the two preview cards of a draft: the title, and the
/// description or "(empty)" when there is none.
pub open spec fn pr_preview_text(title: Seq<char>, body: Seq<char>) -> (Seq<char>, Seq<char>) {
    (title, if body.len() == 0 { "(empty)"@ } else { body })
}

/// The bodies of the two preview cards of a draft.
pub fn pr_preview(title: &str, body: &str) -> (r: (String, String))
    ensures
        (r.0@, r.1@) == pr_preview_text(title@, body@),
{
    let shown = if body.is_empty() {
        String::from_str("(empty)")
    } else {
        String::from_str(body)
    };
    (String::from_str(title), shown)
}

/// A draft after the user edited it: title and description trimmed.
pub fn pr_edited(title: &str, body: &str) -> (r: (String, String))
    ensures
        r.0@ == trim(title@),
        r.1@ == trim(body@),
{
    (trim_str(title), trim_str(body))
}

/// The metadata items of a pull-request session: branch (when known), base
/// ref, provider/model, ticket (when known), and a marker for extra context.
pub open spec fn pr_items(
    branch: Option<Seq<char>>,
    base_ref: Seq<char>,
    provider: Seq<char>,
    model: Seq<char>,
    ticket: Option<Seq<char>>,
    context: Seq<char>,
) -> Seq<Seq<char>> {
    let a = match branch {
        Some(b) => seq![b],
        None => Seq::empty(),
    };
    let b = a.push("base: "@ + base_ref).push(provider + "/"@ + model);
    let c = match ticket {
        Some(t) => b.push("ticket: "@ + t),
        None => b,
    };
    if is_blank(context) {
        c
    } else {
        c.push("extra context provided"@)
    }
}

/// The metadata items shown at the start of a pull-request session.
pub fn pr_session_items(
    branch: Option<&str>,
    base_ref: &str,
    provider: &str,
    model: &str,
    ticket: Option<&str>,
    context: &str,
) -> (r: Vec<String>)
    ensures
        views(r@) == pr_items(
            opt_view(branch),
            base_ref@,
            provider@,
            model@,
            opt_view(ticket),
            context@,
        ),
{
    let mut items: Vec<String> = Vec::new();
    if let Some(b) = branch {
        items.push(String::from_str(b));
    }
    items.push(concat2("base: ", base_ref));
    items.push(concat3(provider, "/", model));
    if let Some(t) = ticket {
        items.push(concat2("ticket: ", t));
    }
    if !is_blank_str(context) {
        items.push(String::from_str("extra context provided"));
    }
    proof {
        let a: Seq<Seq<char>> = match opt_view(branch) {
            Some(b) => seq![b],
            None => Seq::empty(),
        };
        assert(views(items@) =~= pr_items(
            opt_view(branch),
            base_ref@,
            provider@,
            model@,
            opt_view(ticket),
            context@,
        ));
    }
    items
}

/// The session step line of a pull-request session.
pub open spec fn pr_step_text(base_ref: Seq<char>, commits: nat, files: nat, diff_lines: nat) -> Seq<
    char,
> {
    "Reading branch range against "@ + base_ref + " ("@ + decimal(commits) + " commits, "@
        + file_count_text(files) + ", "@ + decimal(diff_lines) + " lines)"@
}

/// The session step line of a pull-request session.
pub fn pr_session_step(base_ref: &str, commits: usize, files: usize, diff_lines: usize) -> (r:
    String)
    ensures
        r@ == pr_step_text(base_ref@, commits as nat, files as nat, diff_lines as nat),
{
    let mut r = concat3("Reading branch range against ", base_ref, " (");
    r.append(decimal_string(commits).as_str());
    r.append(" commits, ");
    r.append(file_count_label(files).as_str());
    r.append(", ");
    r.append(decimal_string(diff_lines).as_str());
    r.append(" lines)");
    r
}

/// "1 commit message" or "<n> commit messages".
pub open spec fn commit_count_text(count: nat) -> Seq<char> {
    if count == 1 {
        "1 commit message"@
    } else {
        decimal(count) + " commit messages"@
    }
}

/// "1 commit message" or "<n> commit messages".
pub fn commit_count_label(count: usize) -> (r: String)
    ensures
        r@ == commit_count_text(count as nat),
{
    if count == 1 {
        String::from_str("1 commit message")
    } else {
        concat2(decimal_string(count).as_str(), " commit messages")
    }
}

/// The first line of a message, or nothing.
pub open spec fn first_line(message: Seq<char>) -> Seq<char> {
    if lines(message).len() > 0 {
        lines(message)[0]
    } else {
        Seq::empty()
    }
}

/// The two preview lines for a rewritten commit: the short hash (the
/// hash's first eight bytes) and the old subject, then an arrow aligned under it and the new subject.
pub open spec fn rewrite_lines(hash8: Seq<char>, old_subject: Seq<char>, new_message: Seq<char>) -> (
    Seq<char>,
    Seq<char>,
) {
    (hash8 + "  "@ + old_subject, "          → "@ + first_line(new_message))
}

/// The preview lines for one rewritten commit.
pub fn rewrite_preview(hash: &str, old_subject: &str, new_message: &str) -> (r: (String, String))
    requires
        byte_boundary(hash@, 8),
    ensures
        exists|k: int|
            0 <= k <= hash@.len() && utf8_size(hash@.take(k)) == 8 && (r.0@, r.1@) == rewrite_lines(
                hash@.take(k),
                old_subject@,
                new_message@,
            ),
{
    let short = byte_prefix(hash, 8);
    let old_line = concat3(short.as_str(), "  ", old_subject);
    let ls = lines_of(new_message);
    let new_line = if ls.len() > 0 {
        concat2("          → ", ls[0].as_str())
    } else {
        String::from_str("          → ")
    };
    proof {
        if ls.len() == 0 {
            assert("          → "@ + Seq::<char>::empty() =~= "          → "@);
        }
        let k = short@.len() as int;
        assert(0 <= k <= hash@.len() && utf8_size(hash@.take(k)) == 8 && (old_line@, new_line@)
            == rewrite_lines(hash@.take(k), old_subject@, new_message@));
    }
    (old_line, new_line)
}

// ---------------------------------------------------------------------------
// Before any request
// ---------------------------------------------------------------------------

/// The error a command stops with when its provider needs an API key and
/// none is configured.
pub fn missing_api_key_error(provider: &str, needs_api_key: bool, has_api_key: bool) -> (r: Option<
    AicError,
>)
    ensures
        match r {
            Some(e) => needs_api_key && !has_api_key && e@ == AicErrorModel::MissingApiKey(
                provider@,
            ),
            None => !needs_api_key || has_api_key,
        },
{
    if needs_api_key && !has_api_key {
        Some(AicError::MissingApiKey(String::from_str(provider)))
    } else {
        None
    }
}

// ---------------------------------------------------------------------------
// Rewording recent commits
// ---------------------------------------------------------------------------

/// A rewording of the last commits under way: a new message is generated
/// for each commit in turn, and nothing is reworded before all of them are.
pub struct LogRewrite {
    commit_count: usize,
    skip_confirmation: bool,
    messages: Vec<String>,
}

/// The abstract state of a rewording: how many commits, whether the user
/// is asked before rewording, and the messages generated so far.
pub type LogRewriteModel = (nat, bool, Seq<Seq<char>>);

impl View for LogRewrite {
    type V = LogRewriteModel;

    closed spec fn view(&self) -> LogRewriteModel {
        (self.commit_count as nat, self.skip_confirmation, views(self.messages@))
    }
}

/// All new messages, waiting for the user to allow the rewording.
pub struct PendingRewrite {
    messages: Vec<String>,
}

impl View for PendingRewrite {
    type V = Seq<Seq<char>>;

    closed spec fn view(&self) -> Seq<Seq<char>> {
        views(self.messages@)
    }
}

/// What comes next in a rewording.
pub enum LogStep {
    /// Generate the message of the commit at this index (oldest-first order
    /// of the listing).
    Generate(LogRewrite, usize),
    /// Show the proposals and ask before rewording.
    Confirm(PendingRewrite),
    /// Reword the commits with these messages, in order.
    Reword(Vec<String>),
}

impl LogRewrite {
    #[verifier::type_invariant]
    spec fn well_formed(self) -> bool {
        &&& self.commit_count > 0
        &&& self.messages.len() < self.commit_count
    }

    /// Starts rewording `commit_count` commits: there must be at least one,
    /// and the first commit's message is generated first.
    pub fn start(commit_count: usize, skip_confirmation: bool) -> (r: Result<LogStep, String>)
        ensures
            match r {
                Ok(LogStep::Generate(g, index)) => commit_count > 0 && index == 0 && g@ == (
                    commit_count as nat,
                    skip_confirmation,
                    Seq::<Seq<char>>::empty(),
                ),
                Ok(_) => false,
                Err(e) => commit_count == 0 && e@ == "no commits found"@,
            },
    {
        if commit_count == 0 {
            return Err(String::from_str("no commits found"));
        }
        let g = LogRewrite { commit_count, skip_confirmation, messages: Vec::new() };
        assert(views(g.messages@) =~= Seq::<Seq<char>>::empty());
        Ok(LogStep::Generate(g, 0))
    }

    /// Takes the message generated for the commit asked for. Until every
    /// commit has one, the next commit's message is asked for; then the
    /// commits are reworded, after the user's consent unless confirmation
    /// is skipped.
    pub fn on_message(self, message: String) -> (r: LogStep)
        ensures
            self@.2.len() < self@.0,
            match r {
                LogStep::Generate(g, index) => {
                    &&& self@.2.len() + 1 < self@.0
                    &&& g@ == (self@.0, self@.1, self@.2.push(message@))
                    &&& index == self@.2.len() + 1
                },
                LogStep::Confirm(p) => self@.2.len() + 1 == self@.0 && !self@.1 && p@ == self@.2.push(
                    message@,
                ),
                LogStep::Reword(ms) => self@.2.len() + 1 == self@.0 && self@.1 && views(ms@)
                    == self@.2.push(message@),
            },
    {
        proof {
            use_type_invariant(&self);
        }
        let LogRewrite { commit_count, skip_confirmation, mut messages } = self;
        let ghost before = views(messages@);
        messages.push(message);
        assert(views(messages@) =~= before.push(message@));
        if messages.len() < commit_count {
            let index = messages.len();
            LogStep::Generate(LogRewrite { commit_count, skip_confirmation, messages }, index)
        } else if skip_confirmation {
            LogStep::Reword(messages)
        } else {
            LogStep::Confirm(PendingRewrite { messages })
        }
    }
}

impl PendingRewrite {
    /// The new messages, in commit order.
    pub fn messages(&self) -> (r: &[String])
        ensures
            views(r@) == self@,
    {
        self.messages.as_slice()
    }

    /// The user's answer: the messages to reword with, or the rewording is
    /// aborted.
    pub fn on_confirmation(self, confirmed: bool) -> (r: Result<Vec<String>, String>)
        ensures
            match r {
                Ok(ms) => confirmed && views(ms@) == self@,
                Err(e) => !confirmed && e@ == "rewrite aborted"@,
            },
    {
        if confirmed {
            Ok(self.messages)
        } else {
            Err(String::from_str("rewrite aborted"))
        }
    }
}

} // verus!
