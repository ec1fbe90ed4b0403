//! What the terminal interface shows, computed as plain text: file lists and
//! their summaries, metadata rows, the rotating status detail of a spinner,
//! card layout and hyperlinks. Writing it to the terminal, with colours, is
//! left to the caller.
use vstd::prelude::*;

use crate::generator::GenerationProgress;
use crate::paths::{roots_summary, summarize_roots};
use crate::text::{
    concat2, concat3, decimal, decimal_string, is_blank, is_blank_str, join, join_strings, lines,
    lines_of, views,
};
use vstd::string::StringExecFns;

verus! {

broadcast use vstd::string::group_string_axioms;

/// Narrowest card, in columns.
pub const DEFAULT_MIN_CARD_WIDTH: usize = 44;

/// Widest card, in columns.
pub const MAX_CARD_WIDTH: usize = 92;

/// Files listed by name before the rest are summarised.
pub const DEFAULT_FILE_LIMIT: usize = 5;

/// Root groups named in a summary.
pub const DEFAULT_ROOT_LIMIT: usize = 4;

// ---------------------------------------------------------------------------
// Labels and file lists
// ---------------------------------------------------------------------------

/// "1 file" or "<n> files".
pub open spec fn file_count_text(count: nat) -> Seq<char> {
    if count == 1 {
        "1 file"@
    } else {
        decimal(count) + " files"@
    }
}

/// "1 file" or "<n> files".
pub fn file_count_label(count: usize) -> (r: String)
    ensures
        r@ == file_count_text(count as nat),
{
    if count == 1 {
        String::from_str("1 file")
    } else {
        concat2(decimal_string(count).as_str(), " files")
    }
}

/// The line that stands for the files not listed by name.
pub open spec fn more_files_text(remaining: nat, roots: Seq<char>) -> Seq<char> {
    if roots.len() == 0 {
        "+"@ + decimal(remaining) + " more"@
    } else {
        "+"@ + decimal(remaining) + " more across "@ + roots
    }
}

/// The lines listing `files`: the first `direct_limit` by name, then, when
/// more remain, one line counting them and naming their largest groups.
pub open spec fn file_summary(
    files: Seq<Seq<char>>,
    direct_limit: nat,
    root_limit: nat,
    out: Seq<Seq<char>>,
) -> bool {
    let shown = if direct_limit < files.len() {
        direct_limit
    } else {
        files.len()
    };
    &&& out.len() == if files.len() > direct_limit {
        shown + 1
    } else {
        shown
    }
    &&& forall|k: int| 0 <= k < shown ==> out[k] == files[k]
    &&& files.len() > direct_limit ==> exists|t: Seq<char>|
        roots_summary(files, root_limit, t) && out[shown as int] == more_files_text(
            (files.len() - direct_limit) as nat,
            t,
        )
}

/// The lines listing `files`, at most `direct_limit` of them by name.
pub fn summarize_files(files: &[String], direct_limit: usize, root_limit: usize) -> (r: Vec<
    String,
>)
    ensures
        file_summary(views(files@), direct_limit as nat, root_limit as nat, views(r@)),
{
    let ghost fv = views(files@);
    let shown = if direct_limit < files.len() {
        direct_limit
    } else {
        files.len()
    };
    let mut lines: Vec<String> = Vec::new();
    let mut i: usize = 0;
    while i < shown
        invariant
            fv == views(files@),
            shown <= files.len(),
            i <= shown,
            lines.len() == i,
            forall|k: int| 0 <= k < i ==> (#[trigger] lines@[k])@ == fv[k],
        decreases shown - i,
    {
        lines.push(files[i].clone());
        i = i + 1;
    }
    let remaining = files.len().saturating_sub(direct_limit);
    if remaining > 0 {
        let roots = summarize_roots(files, root_limit);
        let mut line = concat2("+", decimal_string(remaining).as_str());
        if is_empty_str(roots.as_str()) {
            line.append(" more");
        } else {
            line.append(" more across ");
            line.append(roots.as_str());
        }
        lines.push(line);
        assert(views(lines@)[shown as int] == more_files_text(remaining as nat, roots@));
    }
    lines
}

/// Whether a string is empty.
fn is_empty_str(s: &str) -> (r: bool)
    ensures
        r == (s@.len() == 0),
{
    s.is_empty()
}

/// The lines a dim next-step hint shows: the message's lines.
pub fn hint(message: &str) -> (r: Vec<String>)
    ensures
        views(r@) == lines(message@),
{
    lines_of(message)
}

/// The separator between metadata items.
pub open spec fn metadata_separator() -> Seq<char> {
    "  •  "@
}

/// The lines of a metadata row: nothing for no items, else the items joined
/// with " • " and split into lines.
pub open spec fn metadata_lines(items: Seq<Seq<char>>) -> Seq<Seq<char>> {
    if items.len() == 0 {
        Seq::empty()
    } else {
        lines(join(items, metadata_separator()))
    }
}

/// The lines a metadata row shows.
pub fn metadata_row(items: &[String]) -> (r: Vec<String>)
    ensures
        views(r@) == metadata_lines(views(items@)),
{
    if items.len() == 0 {
        let r: Vec<String> = Vec::new();
        assert(views(r@) =~= Seq::<Seq<char>>::empty());
        return r;
    }
    let joined = join_strings(items, "  •  ");
    lines_of(joined.as_str())
}

/// A titled list of files: its heading and the lines under it.
pub struct FileList {
    pub heading: String,
    pub lines: Vec<String>,
}

/// "<title> (<n> files)".
pub open spec fn file_list_heading(title: Seq<char>, count: nat) -> Seq<char> {
    title + " ("@ + file_count_text(count) + ")"@
}

/// A file list that opens its own section.
pub fn file_list(title: &str, files: &[String]) -> (r: FileList)
    ensures
        r.heading@ == file_list_heading(title@, files@.len() as nat),
        file_summary(
            views(files@),
            DEFAULT_FILE_LIMIT as nat,
            DEFAULT_ROOT_LIMIT as nat,
            views(r.lines@),
        ),
{
    let mut heading = concat3(title, " (", file_count_label(files.len()).as_str());
    heading.append(")");
    FileList {
        heading,
        lines: summarize_files(files, DEFAULT_FILE_LIMIT, DEFAULT_ROOT_LIMIT),
    }
}

/// A file list shown as a step under an existing section.
pub fn file_list_step(title: &str, files: &[String]) -> (r: FileList)
    ensures
        r.heading@ == file_list_heading(title@, files@.len() as nat),
        file_summary(
            views(files@),
            DEFAULT_FILE_LIMIT as nat,
            DEFAULT_ROOT_LIMIT as nat,
            views(r.lines@),
        ),
{
    file_list(title, files)
}

/// The metadata items describing a set of files: their count, and where
/// they live when that is known.
pub open spec fn file_metadata_items(files: Seq<Seq<char>>, items: Seq<Seq<char>>) -> bool {
    exists|t: Seq<char>|
        roots_summary(files, DEFAULT_ROOT_LIMIT as nat, t) && items == if t.len() == 0 {
            seq![file_count_text(files.len())]
        } else {
            seq![file_count_text(files.len()), "paths: "@ + t]
        }
}

/// The metadata row describing a set of files.
pub fn file_metadata(files: &[String]) -> (r: Vec<String>)
    ensures
        exists|items: Seq<Seq<char>>|
            file_metadata_items(views(files@), items) && views(r@) == metadata_lines(items),
{
    let summary = summarize_roots(files, DEFAULT_ROOT_LIMIT);
    let mut items: Vec<String> = Vec::new();
    items.push(file_count_label(files.len()));
    if !summary.as_str().is_empty() {
        items.push(concat2("paths: ", summary.as_str()));
    }
    let r = metadata_row(items.as_slice());
    proof {
        if summary@.len() == 0 {
            assert(views(items@) =~= seq![file_count_text(files@.len() as nat)]);
        } else {
            assert(views(items@) =~= seq![file_count_text(files@.len() as nat), "paths: "@ + summary@]);
        }
        assert(file_metadata_items(views(files@), views(items@)));
    }
    r
}

// ---------------------------------------------------------------------------
// Rotating status details
// ---------------------------------------------------------------------------

/// Seconds each status detail stays up.
pub const STATUS_ROTATE_SECS: u64 = 4;

/// Roughly one in this many rotations shows a line from the rare pool.
pub const RARE_STATUS_CADENCE: u64 = 6;

/// Which pool of rotating status details a spinner shows.
#[derive(Clone, Copy, Debug, PartialEq, Eq, Structural)]
pub enum StatusPool {
    Waiting,
    Splitting,
    Summary,
    Synthesis,
}

/// One pool of status lines as read from a status-messages file.
pub struct StatusMessagePool {
    pub messages: Vec<String>,
}

/// The pools of a status-messages file (missing pools are empty).
pub struct StatusMessagesFile {
    pub waiting: StatusMessagePool,
    pub splitting: StatusMessagePool,
    pub summary: StatusMessagePool,
    pub synthesis: StatusMessagePool,
    pub rare: StatusMessagePool,
}

/// The status lines in use, one list per pool plus the rare interjections.
pub struct StatusMessages {
    pub waiting: Vec<String>,
    pub splitting: Vec<String>,
    pub summary: Vec<String>,
    pub synthesis: Vec<String>,
    pub rare: Vec<String>,
}

/// The lines of a pool.
pub open spec fn pool_lines(m: StatusMessages, pool: StatusPool) -> Seq<String> {
    match pool {
        StatusPool::Waiting => m.waiting@,
        StatusPool::Splitting => m.splitting@,
        StatusPool::Summary => m.summary@,
        StatusPool::Synthesis => m.synthesis@,
    }
}

/// A user's pool replaces the built-in one unless it is empty.
pub open spec fn picked(base: Seq<String>, over: Seq<String>) -> Seq<String> {
    if over.len() == 0 {
        base
    } else {
        over
    }
}

fn pick(base: StatusMessagePool, over: StatusMessagePool) -> (r: Vec<String>)
    ensures
        r@ == picked(base.messages@, over.messages@),
{
    if over.messages.len() == 0 {
        base.messages
    } else {
        over.messages
    }
}

impl StatusMessages {
    /// The lines of a pool.
    pub fn pool(&self, pool: StatusPool) -> (r: &[String])
        ensures
            r@ == pool_lines(*self, pool),
    {
        match pool {
            StatusPool::Waiting => self.waiting.as_slice(),
            StatusPool::Splitting => self.splitting.as_slice(),
            StatusPool::Summary => self.summary.as_slice(),
            StatusPool::Synthesis => self.synthesis.as_slice(),
        }
    }

    /// The built-in pools, each replaced by the user's when the user's is
    /// not empty.
    pub fn merge(base: StatusMessagesFile, over: StatusMessagesFile) -> (r: StatusMessages)
        ensures
            r.waiting@ == picked(base.waiting.messages@, over.waiting.messages@),
            r.splitting@ == picked(base.splitting.messages@, over.splitting.messages@),
            r.summary@ == picked(base.summary.messages@, over.summary.messages@),
            r.synthesis@ == picked(base.synthesis.messages@, over.synthesis.messages@),
            r.rare@ == picked(base.rare.messages@, over.rare.messages@),
    {
        StatusMessages {
            waiting: pick(base.waiting, over.waiting),
            splitting: pick(base.splitting, over.splitting),
            summary: pick(base.summary, over.summary),
            synthesis: pick(base.synthesis, over.synthesis),
            rare: pick(base.rare, over.rare),
        }
    }
}

/// A spinner's stage text, detail pool and per-spinner seed.
pub struct StatusState {
    pub stage: String,
    pub pool: StatusPool,
    pub seed: u64,
}

/// The rotation step at `elapsed_secs`, offset by the seed.
pub open spec fn rotation_step(elapsed_secs: u64, seed: u64) -> u64 {
    (elapsed_secs / STATUS_ROTATE_SECS).wrapping_add(seed)
}

/// Whether the step shows a rare line.
pub open spec fn shows_rare(rare_len: nat, step: u64) -> bool {
    rare_len > 0 && step % RARE_STATUS_CADENCE == RARE_STATUS_CADENCE - 1
}

/// The index of the rare line shown at a step.
pub open spec fn rare_index(rare_len: nat, step: u64) -> int {
    ((step / RARE_STATUS_CADENCE) as usize as int) % (rare_len as int)
}

/// The odd stride (from the seed's high half) that walks the pool.
pub open spec fn stride_of(seed: u64) -> usize {
    ((seed >> 32u64) | 1u64) as usize
}

/// The index of the pool line shown at a step.
pub open spec fn pool_index(pool_len: nat, step: u64, seed: u64) -> int {
    (((step as usize).wrapping_mul(stride_of(seed))) as int) % (
    pool_len as int)
}

/// The detail shown at `elapsed_secs`: nothing for an empty pool; else, on
/// one step in six and when there are rare lines, a rare line; else the
/// pool line picked by a seeded stride.
pub open spec fn status_detail(
    m: StatusMessages,
    pool: StatusPool,
    seed: u64,
    elapsed_secs: u64,
) -> Option<Seq<char>> {
    let lines = pool_lines(m, pool);
    let step = rotation_step(elapsed_secs, seed);
    if lines.len() == 0 {
        None
    } else if shows_rare(m.rare@.len(), step) {
        Some(m.rare@[rare_index(m.rare@.len(), step)]@)
    } else {
        Some(lines[pool_index(lines.len(), step, seed)]@)
    }
}

/// The view of an optional string slice.
pub open spec fn opt_str_view(o: Option<&str>) -> Option<Seq<char>> {
    match o {
        Some(s) => Some(s@),
        None => None,
    }
}

impl StatusState {
    /// The detail line for the current rotation step: the stage's pool
    /// walked in a per-spinner pseudo-random order, occasionally swapped for
    /// a line from the rare pool.
    pub fn detail<'a>(&self, messages: &'a StatusMessages, elapsed_secs: u64) -> (r: Option<
        &'a str,
    >)
        ensures
            opt_str_view(r) == status_detail(*messages, self.pool, self.seed, elapsed_secs),
    {
        let pool = messages.pool(self.pool);
        if pool.len() == 0 {
            return None;
        }
        let step = (elapsed_secs / STATUS_ROTATE_SECS).wrapping_add(self.seed);
        let rare = &messages.rare;
        if rare.len() > 0 && step % RARE_STATUS_CADENCE == RARE_STATUS_CADENCE - 1 {
            let i = ((step / RARE_STATUS_CADENCE) as usize) % rare.len();
            return Some(rare[i].as_str());
        }
        let stride = ((self.seed >> 32u64) | 1u64) as usize;
        let i = (step as usize).wrapping_mul(stride) % pool.len();
        Some(pool[i].as_str())
    }
}

/// Rare steps come every six rotations, and each shows the rare line after
/// the one the previous rare step showed, wrapping round: the rare lines are
/// walked in order.
pub proof fn law_rare_lines_walk_in_order(rare_len: nat, step: u64)
    requires
        rare_len > 0,
        step % RARE_STATUS_CADENCE == RARE_STATUS_CADENCE - 1,
        step + RARE_STATUS_CADENCE <= u64::MAX,
        step / RARE_STATUS_CADENCE + 1 <= usize::MAX,
    ensures
        shows_rare(rare_len, step),
        shows_rare(rare_len, (step + RARE_STATUS_CADENCE) as u64),
        rare_index(rare_len, (step + RARE_STATUS_CADENCE) as u64) == (rare_index(rare_len, step)
            + 1) % (rare_len as int),
{
    let next = (step + RARE_STATUS_CADENCE) as u64;
    let q = step / RARE_STATUS_CADENCE;
    assert(next / RARE_STATUS_CADENCE == q + 1 && next % RARE_STATUS_CADENCE == step
        % RARE_STATUS_CADENCE) by (nonlinear_arith)
        requires
            next == step + 6,
            q == step / 6,
            RARE_STATUS_CADENCE == 6,
    ;
    let n = rare_len as int;
    assert((q as int + 1) % n == ((q as int % n) + 1) % n) by {
        vstd::arithmetic::div_mod::lemma_add_mod_noop(q as int, 1, n);
        if n == 1 {
            vstd::arithmetic::div_mod::lemma_mod_self_0(1);
            assert(1int % 1 == 0);
            assert((q as int % n) < 1);
        } else {
            vstd::arithmetic::div_mod::lemma_small_mod(1, n as nat);
        }
    }
}

/// Every rare line is shown: with a seed of zero and a stage pool that has
/// lines, the `k`-th rare line is the detail after `4 * (6 * k + 5)`
/// seconds.
pub proof fn law_every_rare_line_is_shown(
    m: StatusMessages,
    pool: StatusPool,
    k: nat,
    elapsed_secs: u64,
)
    requires
        pool_lines(m, pool).len() > 0,
        k < m.rare@.len(),
        elapsed_secs == STATUS_ROTATE_SECS * (RARE_STATUS_CADENCE * k + RARE_STATUS_CADENCE - 1),
        k <= usize::MAX,
    ensures
        status_detail(m, pool, 0, elapsed_secs) == Some(m.rare@[k as int]@),
{
    let step = rotation_step(elapsed_secs, 0);
    assert(elapsed_secs / STATUS_ROTATE_SECS == 6 * k + 5) by (nonlinear_arith)
        requires
            elapsed_secs == 4 * (6 * k + 5),
            STATUS_ROTATE_SECS == 4,
    ;
    assert(step == 6 * k + 5);
    assert(step % RARE_STATUS_CADENCE == 5 && step / RARE_STATUS_CADENCE == k) by (nonlinear_arith)
        requires
            step == 6 * k + 5,
            RARE_STATUS_CADENCE == 6,
    ;
    vstd::arithmetic::div_mod::lemma_small_mod(k, m.rare@.len());
}

/// Any detail shown comes from the stage's pool or from the rare pool.
pub proof fn law_status_detail_from_pools(
    m: StatusMessages,
    pool: StatusPool,
    seed: u64,
    elapsed_secs: u64,
)
    ensures
        status_detail(m, pool, seed, elapsed_secs) matches Some(d) ==> (exists|i: int|
            0 <= i < pool_lines(m, pool).len() && pool_lines(m, pool)[i]@ == d) || (exists|i: int|
            0 <= i < m.rare@.len() && m.rare@[i]@ == d),
        status_detail(m, pool, seed, elapsed_secs) is None <==> pool_lines(m, pool).len() == 0,
{
    let lines = pool_lines(m, pool);
    let step = rotation_step(elapsed_secs, seed);
    if lines.len() > 0 {
        if shows_rare(m.rare@.len(), step) {
            let i = rare_index(m.rare@.len(), step);
            assert(0 <= i < m.rare@.len());
        } else {
            let i = pool_index(lines.len(), step, seed);
            assert(0 <= i < lines.len());
        }
    }
}

// ---------------------------------------------------------------------------
// Spinner stages during generation
// ---------------------------------------------------------------------------

/// What a spinner shows after a generation event: an optional note printed
/// above it, then its new stage and detail pool.
pub struct SpinnerUpdate {
    pub note: Option<String>,
    pub stage: String,
    pub pool: StatusPool,
}

/// The note printed when a diff turns out to need several chunks.
pub open spec fn chunk_note(total: nat) -> Seq<char> {
    "Large diff split into "@ + decimal(total)
        + " chunks - one AI request per chunk plus synthesis"@
}

/// The stage and pool a generation event moves a spinner to, and the note
/// printed with it; `task` names the deliverable ("commit message").
pub open spec fn spinner_update(event: GenerationProgress, task: Seq<char>) -> (
    Option<Seq<char>>,
    Seq<char>,
    StatusPool,
) {
    match event {
        GenerationProgress::Splitting => (
            None,
            "Splitting diff for "@ + task,
            StatusPool::Splitting,
        ),
        GenerationProgress::Chunk { current, total } => if current == 1 && total == 1 {
            (None, "Generating "@ + task, StatusPool::Waiting)
        } else {
            (
                if current == 1 {
                    Some(chunk_note(total as nat))
                } else {
                    None
                },
                "Summarizing chunk "@ + decimal(current as nat) + "/"@ + decimal(total as nat),
                StatusPool::Summary,
            )
        },
        GenerationProgress::Synthesizing => (
            None,
            "Synthesizing "@ + task,
            StatusPool::Synthesis,
        ),
    }
}

/// The view of an optional string.
pub open spec fn opt_string_view(o: Option<String>) -> Option<Seq<char>> {
    match o {
        Some(s) => Some(s@),
        None => None,
    }
}

/// Maps a generation event onto the spinner's next stage.
pub fn progress_update(event: GenerationProgress, task_label: &str) -> (r: SpinnerUpdate)
    ensures
        (opt_string_view(r.note), r.stage@, r.pool) == spinner_update(event, task_label@),
{
    match event {
        GenerationProgress::Splitting => SpinnerUpdate {
            note: None,
            stage: concat2("Splitting diff for ", task_label),
            pool: StatusPool::Splitting,
        },
        GenerationProgress::Chunk { current, total } => {
            if current == 1 && total == 1 {
                SpinnerUpdate {
                    note: None,
                    stage: concat2("Generating ", task_label),
                    pool: StatusPool::Waiting,
                }
            } else {
                let note = if current == 1 {
                    let mut n = concat2("Large diff split into ", decimal_string(total).as_str());
                    n.append(" chunks - one AI request per chunk plus synthesis");
                    Some(n)
                } else {
                    None
                };
                let mut stage = concat3(
                    "Summarizing chunk ",
                    decimal_string(current).as_str(),
                    "/",
                );
                stage.append(decimal_string(total).as_str());
                SpinnerUpdate { note, stage, pool: StatusPool::Summary }
            }
        },
        GenerationProgress::Synthesizing => SpinnerUpdate {
            note: None,
            stage: concat2("Synthesizing ", task_label),
            pool: StatusPool::Synthesis,
        },
    }
}

// ---------------------------------------------------------------------------
// Cards
// ---------------------------------------------------------------------------

/// The widths inside a card's border.
#[derive(Clone, Copy, Debug, PartialEq, Eq, Structural)]
pub struct CardDimensions {
    /// Columns available to the body text.
    pub content_width: usize,
    /// Columns between the corners of the border.
    pub border_inner_width: usize,
}

/// `width` clamped to the card limits.
pub open spec fn clamped_card_width(width: nat) -> nat {
    if width < DEFAULT_MIN_CARD_WIDTH {
        DEFAULT_MIN_CARD_WIDTH as nat
    } else if width > MAX_CARD_WIDTH {
        MAX_CARD_WIDTH as nat
    } else {
        width
    }
}

/// The body width of a card `width` columns wide: four columns of border
/// and padding less, and at least twenty.
pub open spec fn card_content_width(width: nat) -> nat {
    let w = clamped_card_width(width);
    if w >= 24 {
        (w - 4) as nat
    } else {
        20
    }
}

/// The dimensions of a card for a terminal `width` columns wide.
pub fn card_dimensions(width: usize) -> (r: CardDimensions)
    ensures
        r.content_width == card_content_width(width as nat),
        r.border_inner_width == r.content_width + 2,
{
    let width = if width < DEFAULT_MIN_CARD_WIDTH {
        DEFAULT_MIN_CARD_WIDTH
    } else if width > MAX_CARD_WIDTH {
        MAX_CARD_WIDTH
    } else {
        width
    };
    let content_width = if width.saturating_sub(4) >= 20 {
        width.saturating_sub(4)
    } else {
        20
    };
    CardDimensions { content_width, border_inner_width: content_width + 2 }
}

/// Cards are between 40 and 88 columns of body, with a border two wider.
pub proof fn law_card_dimensions_bounded(width: nat)
    ensures
        40 <= card_content_width(width) <= 88,
{
}

/// The terminal width of a text as `console::measure_text_width` measures
/// it (ANSI escapes skipped, Unicode widths); it depends on the text alone.
pub uninterp spec fn display_width(s: Seq<char>) -> nat;

/// Calls `console::measure_text_width`. The contract claims that the result
/// is a function of the text (named `display_width`), and, as the source
/// shows, that a text of printable ASCII characters measures one column per
/// character.
#[verifier::external_body]
fn measure_text_width(s: &str) -> (r: usize)
    ensures
        r == display_width(s@),
        (forall|i: int| 0 <= i < s@.len() ==> 0x20 <= #[trigger] (s@[i] as u32) <= 0x7e) ==> r
            == s@.len(),
{
    console::measure_text_width(s)
}

/// `n` copies of `c`.
pub open spec fn repeated(c: char, n: nat) -> Seq<char> {
    Seq::new(n, |_i: int| c)
}

/// `n` copies of `c`.
pub fn repeat_char(c: char, n: usize) -> (r: String)
    ensures
        r@ == repeated(c, n as nat),
{
    let mut r = String::new();
    let mut i: usize = 0;
    while i < n
        invariant
            i <= n,
            r@ == repeated(c, i as nat),
        decreases n - i,
    {
        crate::text::push_char(&mut r, c);
        i = i + 1;
        assert(r@ =~= repeated(c, i as nat));
    }
    r
}

/// `a` less `b`, or zero.
pub open spec fn sat_sub(a: nat, b: nat) -> nat {
    if a >= b {
        (a - b) as nat
    } else {
        0
    }
}

/// A card's frame as plain text: the top border with the title, one row per
/// body line padded to the content width, and the bottom border.
pub struct CardFrame {
    pub top: String,
    pub rows: Vec<String>,
    pub bottom: String,
}

/// The top border: "┌ title ───┐".
pub open spec fn card_top(title: Seq<char>, dims: CardDimensions) -> Seq<char> {
    let t = " "@ + title + " "@;
    "┌"@ + t + repeated('─', sat_sub(dims.border_inner_width as nat, display_width(t))) + "┐"@
}

/// A body line padded with spaces to the content width.
pub open spec fn card_row(line: Seq<char>, content_width: nat) -> Seq<char> {
    line + repeated(' ', sat_sub(content_width, display_width(line)))
}

/// The bottom border: "└───┘".
pub open spec fn card_bottom(dims: CardDimensions) -> Seq<char> {
    "└"@ + repeated('─', dims.border_inner_width as nat) + "┘"@
}

/// The padded rows of a body (one empty row for an empty body).
pub open spec fn card_rows(body: Seq<Seq<char>>, content_width: nat) -> Seq<Seq<char>> {
    if body.len() == 0 {
        seq![card_row(Seq::empty(), content_width)]
    } else {
        body.map_values(|l: Seq<char>| card_row(l, content_width))
    }
}

fn render_card_row(line: &str, content_width: usize) -> (r: String)
    ensures
        r@ == card_row(line@, content_width as nat),
{
    let visible = measure_text_width(line);
    let pad = repeat_char(' ', content_width.saturating_sub(visible));
    concat2(line, pad.as_str())
}

/// Lays out a card around already wrapped body lines.
pub fn render_card_frame(title: &str, body_lines: &[String], dimensions: CardDimensions) -> (r:
    CardFrame)
    ensures
        r.top@ == card_top(title@, dimensions),
        views(r.rows@) == card_rows(views(body_lines@), dimensions.content_width as nat),
        r.bottom@ == card_bottom(dimensions),
{
    let t = concat3(" ", title, " ");
    let title_width = measure_text_width(t.as_str());
    let fill = repeat_char('─', dimensions.border_inner_width.saturating_sub(title_width));
    let mut top = concat3("┌", t.as_str(), fill.as_str());
    top.append("┐");
    let ghost bv = views(body_lines@);
    let mut rows: Vec<String> = Vec::new();
    if body_lines.len() == 0 {
        let empty = String::new();
        rows.push(render_card_row(empty.as_str(), dimensions.content_width));
        assert(views(rows@) =~= card_rows(bv, dimensions.content_width as nat));
    } else {
        let mut i: usize = 0;
        while i < body_lines.len()
            invariant
                bv == views(body_lines@),
                i <= body_lines.len(),
                rows.len() == i,
                forall|k: int|
                    0 <= k < i ==> (#[trigger] rows@[k])@ == card_row(
                        bv[k],
                        dimensions.content_width as nat,
                    ),
            decreases body_lines.len() - i,
        {
            rows.push(render_card_row(body_lines[i].as_str(), dimensions.content_width));
            i = i + 1;
        }
        assert(bv.len() == body_lines@.len());
        assert forall|k: int| 0 <= k < rows.len() implies views(rows@)[k] == card_rows(
            bv,
            dimensions.content_width as nat,
        )[k] by {
            assert((rows@[k])@ == card_row(bv[k], dimensions.content_width as nat));
        }
        assert(views(rows@) =~= card_rows(bv, dimensions.content_width as nat));
    }
    let border = repeat_char('─', dimensions.border_inner_width);
    let bottom = concat3("└", border.as_str(), "┘");
    CardFrame { top, rows, bottom }
}

/// The lines `textwrap::wrap` breaks one line into, at ASCII spaces,
/// without breaking words, for a width; they depend on the line and width.
pub uninterp spec fn ascii_space_wrap(line: Seq<char>, width: nat) -> Seq<Seq<char>>;

/// Calls `textwrap::wrap` with `Options::new(width)`, `break_words(false)`
/// and `WordSeparator::AsciiSpace`, and copies each wrapped line. The
/// contract claims that the lines are a function of the text and the width
/// (named `ascii_space_wrap`), and, as the source shows, that a line with a
/// character other than whitespace gives at least one line: it holds a word,
/// and every line the wrapping algorithm returns is written out. The
/// wrapping algorithm itself is not written out here, nor any bound on the
/// width of a wrapped line: optimal fit only penalises overflowing lines.
#[verifier::external_body]
fn wrap_ascii_space(line: &str, width: usize) -> (r: Vec<String>)
    ensures
        views(r@) == ascii_space_wrap(line@, width as nat),
        !is_blank(line@) ==> r.len() >= 1,
{
    let options = textwrap::Options::new(width).break_words(false).word_separator(
        textwrap::WordSeparator::AsciiSpace,
    );
    textwrap::wrap(line, &options).into_iter().map(|segment| segment.into_owned()).collect()
}

/// The wrapped lines of each line of a body: a blank line stays one empty
/// line, any other is wrapped to the width.
pub open spec fn wrapped_lines(ls: Seq<Seq<char>>, width: nat) -> Seq<Seq<char>>
    decreases ls.len(),
{
    if ls.len() == 0 {
        Seq::empty()
    } else {
        wrapped_lines(ls.drop_last(), width) + if is_blank(ls.last()) {
            seq![Seq::<char>::empty()]
        } else {
            ascii_space_wrap(ls.last(), width)
        }
    }
}

/// A plain card body: its lines wrapped to the width, or one empty line.
pub open spec fn plain_card_body(body: Seq<char>, width: nat) -> Seq<Seq<char>> {
    let w = wrapped_lines(lines(body), width);
    if w.len() == 0 {
        seq![Seq::<char>::empty()]
    } else {
        w
    }
}

/// Wraps a plain-text card body to the content width: at least one line,
/// and at least one for each line of the body.
pub fn wrap_plain_lines(body: &str, content_width: usize) -> (r: Vec<String>)
    ensures
        views(r@) == plain_card_body(body@, content_width as nat),
        r.len() >= 1,
        r.len() >= lines(body@).len(),
{
    let ls = lines_of(body);
    let ghost lv = views(ls@);
    let mut out: Vec<String> = Vec::new();
    let mut i: usize = 0;
    while i < ls.len()
        invariant
            lv == views(ls@),
            i <= ls.len(),
            views(out@) == wrapped_lines(lv.take(i as int), content_width as nat),
            out.len() >= i,
        decreases ls.len() - i,
    {
        let line = ls[i].as_str();
        assert(lv.take(i + 1).drop_last() =~= lv.take(i as int));
        assert(lv.take(i + 1).last() == line@);
        let ghost before = views(out@);
        if is_blank_str(line) {
            out.push(String::new());
            assert(views(out@) =~= before + seq![Seq::<char>::empty()]);
        } else {
            let mut pieces = wrap_ascii_space(line, content_width);
            let ghost pv = views(pieces@);
            out.append(&mut pieces);
            assert(views(out@) =~= before + pv);
        }
        i = i + 1;
    }
    assert(lv.take(ls.len() as int) =~= lv);
    if out.len() == 0 {
        out.push(String::new());
        assert(views(out@) =~= seq![Seq::<char>::empty()]);
    }
    out
}

/// The lines of rendered markdown, or one empty line when there are none.
pub open spec fn markdown_card_body(rendered: Seq<char>) -> Seq<Seq<char>> {
    if lines(rendered).len() == 0 {
        seq![Seq::<char>::empty()]
    } else {
        lines(rendered)
    }
}

/// Splits rendered markdown into card body lines.
pub fn rendered_markdown_lines(rendered: &str) -> (r: Vec<String>)
    ensures
        views(r@) == markdown_card_body(rendered@),
{
    let mut ls = lines_of(rendered);
    if ls.len() == 0 {
        ls.push(String::new());
        assert(views(ls@) =~= seq![Seq::<char>::empty()]);
    }
    ls
}

// ---------------------------------------------------------------------------
// Hyperlinks
// ---------------------------------------------------------------------------

/// `text` wrapped in an OSC-8 terminal hyperlink to `url`.
pub open spec fn osc8_link(text: Seq<char>, url: Seq<char>) -> Seq<char> {
    "\x1b]8;;"@ + url + "\x1b\\"@ + text + "\x1b]8;;\x1b\\"@
}

/// `text` as a hyperlink to `url` when `linkable`, else plain.
pub fn hyperlink_for(text: &str, url: &str, linkable: bool) -> (r: String)
    ensures
        r@ == if linkable {
            osc8_link(text@, url@)
        } else {
            text@
        },
{
    if linkable {
        let mut r = concat3("\x1b]8;;", url, "\x1b\\");
        r.append(text);
        r.append("\x1b]8;;\x1b\\");
        r
    } else {
        String::from_str(text)
    }
}

/// Calls `console::colors_enabled`. It reads the process's colour setting
/// (environment and terminal), so nothing is claimed of the result.
#[verifier::external_body]
fn stdout_colors_enabled() -> bool {
    console::colors_enabled()
}

/// Calls `console::Term::stdout().is_term()`. Whether stdout is a terminal
/// depends on how the process was started, so nothing is claimed of the
/// result.
#[verifier::external_body]
fn stdout_is_term() -> bool {
    console::Term::stdout().is_term()
}

/// `text` as an OSC-8 hyperlink to `url` when stdout is an interactive,
/// colour-capable terminal; plain text otherwise. Never use inside card
/// bodies: the escape sequence would break their fixed-width borders.
pub fn hyperlink(text: &str, url: &str) -> (r: String)
    ensures
        r@ == text@ || r@ == osc8_link(text@, url@),
{
    let linkable = stdout_colors_enabled() && stdout_is_term();
    hyperlink_for(text, url, linkable)
}

// ---------------------------------------------------------------------------
// Vertical rhythm
// ---------------------------------------------------------------------------

/// Whether the last line written to the terminal was blank. Sections and
/// cards open with one blank line of their own, so callers never manage
/// spacing and no two blank lines ever come in a row from it.
pub struct OutputRhythm {
    pub last_line_blank: bool,
}

impl OutputRhythm {
    /// A session starts as if after a blank line.
    pub fn new() -> (r: OutputRhythm)
        ensures
            r.last_line_blank,
    {
        OutputRhythm { last_line_blank: true }
    }

    /// A line with content was written.
    pub fn mark_printed(&mut self)
        ensures
            !final(self).last_line_blank,
    {
        self.last_line_blank = false;
    }

    /// A blank line was written.
    pub fn blank_line(&mut self)
        ensures
            final(self).last_line_blank,
    {
        self.last_line_blank = true;
    }

    /// Before a section or card: whether a blank line must be written
    /// first, which is exactly when the last line was not blank.
    pub fn ensure_blank_line(&mut self) -> (write_blank: bool)
        ensures
            write_blank == !old(self).last_line_blank,
            final(self).last_line_blank,
    {
        let write_blank = !self.last_line_blank;
        self.last_line_blank = true;
        write_blank
    }
}

// ---------------------------------------------------------------------------
// The spinner's line
// ---------------------------------------------------------------------------

/// A spinner's message: its stage, then the detail after a dash when there
/// is one.
pub open spec fn status_message_text(stage: Seq<char>, detail: Option<Seq<char>>) -> Seq<char> {
    match detail {
        Some(d) => stage + " - "@ + d,
        None => stage,
    }
}

impl StatusState {
    /// The message a spinner shows `elapsed_secs` after it started.
    pub fn message(&self, messages: &StatusMessages, elapsed_secs: u64) -> (r: String)
        ensures
            r@ == status_message_text(
                self.stage@,
                status_detail(*messages, self.pool, self.seed, elapsed_secs),
            ),
    {
        match self.detail(messages, elapsed_secs) {
            Some(detail) => concat3(self.stage.as_str(), " - ", detail),
            None => String::from_str(self.stage.as_str()),
        }
    }
}

// ---------------------------------------------------------------------------
// Cards as written to the terminal
// ---------------------------------------------------------------------------

/// The card width for a terminal `columns` wide: four columns of margin
/// less, within the card limits.
pub fn card_width_for(columns: u16) -> (r: usize)
    ensures
        r == clamped_card_width(sat_sub(columns as nat, 4)),
{
    let w = (columns as usize).saturating_sub(4);
    if w < DEFAULT_MIN_CARD_WIDTH {
        DEFAULT_MIN_CARD_WIDTH
    } else if w > MAX_CARD_WIDTH {
        MAX_CARD_WIDTH
    } else {
        w
    }
}

/// `s` in the dim style: wrapped in the escape codes that turn dimming on
/// and reset it.
pub open spec fn dimmed(s: Seq<char>) -> Seq<char> {
    "\x1b[2m"@ + s + "\x1b[0m"@
}

/// `s` dimmed or plain.
pub open spec fn dim_if(s: Seq<char>, on: bool) -> Seq<char> {
    if on {
        dimmed(s)
    } else {
        s
    }
}

/// Calls `console::style(s).dim()` and formats it. Whether the escape codes
/// are written depends on the process's colour setting (environment and
/// terminal), so the contract claims only that the result is `s` either
/// plain or dimmed, as `StyledObject`'s `Display` in the source writes it.
#[verifier::external_body]
fn dim(s: &str) -> (r: String)
    ensures
        r@ == s@ || r@ == dimmed(s@),
{
    console::style(s).dim().to_string()
}

fn dim_choice(s: &str) -> (r: (String, Ghost<bool>))
    ensures
        r.0@ == dim_if(s@, r.1@),
{
    let d = dim(s);
    let ghost on = d@ != s@;
    (d, Ghost(on))
}

/// A card's lines as written: indented by two columns, the borders dimmed
/// or plain (`on` says which, for the top, the row edges and the bottom).
pub open spec fn card_lines(
    top: Seq<char>,
    rows: Seq<Seq<char>>,
    bottom: Seq<char>,
    on: (bool, bool, bool, bool),
) -> Seq<Seq<char>> {
    seq!["  "@ + dim_if(top, on.0)] + rows.map_values(
        |row: Seq<char>| "  "@ + dim_if("│ "@, on.1) + row + dim_if(" │"@, on.2),
    ) + seq!["  "@ + dim_if(bottom, on.3)]
}

/// Writes a laid-out card as terminal lines.
fn card_frame_lines(frame: CardFrame) -> (r: Vec<String>)
    ensures
        exists|on: (bool, bool, bool, bool)|
            views(r@) == card_lines(frame.top@, views(frame.rows@), frame.bottom@, on),
{
    let (top, Ghost(on0)) = dim_choice(frame.top.as_str());
    let (left, Ghost(on1)) = dim_choice("│ ");
    let (right, Ghost(on2)) = dim_choice(" │");
    let (bottom, Ghost(on3)) = dim_choice(frame.bottom.as_str());
    let ghost on = (on0, on1, on2, on3);
    let ghost rv = views(frame.rows@);
    let mut out: Vec<String> = Vec::new();
    out.push(concat2("  ", top.as_str()));
    let mut i: usize = 0;
    while i < frame.rows.len()
        invariant
            rv == views(frame.rows@),
            i <= frame.rows.len(),
            out.len() == i + 1,
            (out@[0])@ == "  "@ + dim_if(frame.top@, on.0),
            left@ == dim_if("│ "@, on.1),
            right@ == dim_if(" │"@, on.2),
            forall|k: int|
                0 <= k < i ==> (#[trigger] out@[k + 1])@ == "  "@ + dim_if("│ "@, on.1) + rv[k]
                    + dim_if(" │"@, on.2),
        decreases frame.rows.len() - i,
    {
        let mut line = concat3("  ", left.as_str(), frame.rows[i].as_str());
        line.append(right.as_str());
        out.push(line);
        i = i + 1;
    }
    out.push(concat2("  ", bottom.as_str()));
    assert(views(out@) =~= card_lines(frame.top@, rv, frame.bottom@, on)) by {
        let expected = card_lines(frame.top@, rv, frame.bottom@, on);
        assert(expected.len() == out@.len());
        assert forall|k: int| 0 <= k < out@.len() implies views(out@)[k] == expected[k] by {
            if 0 < k < out@.len() - 1 {
                assert((out@[(k - 1) + 1])@ == "  "@ + dim_if("│ "@, on.1) + rv[k - 1] + dim_if(
                    " │"@,
                    on.2,
                ));
            }
        }
    }
    out
}

/// The lines of a plain-text card `width` columns wide: its body wrapped to
/// the content width inside a dimmed border, titled at the top.
pub fn render_card_lines(title: &str, body: &str, width: usize) -> (r: Vec<String>)
    ensures
        exists|on: (bool, bool, bool, bool)|
            views(r@) == card_lines(
                card_top(title@, card_dimensions_of(width as nat)),
                card_rows(
                    plain_card_body(body@, card_content_width(width as nat)),
                    card_content_width(width as nat),
                ),
                card_bottom(card_dimensions_of(width as nat)),
                on,
            ),
{
    let dims = card_dimensions(width);
    let wrapped = wrap_plain_lines(body, dims.content_width);
    let frame = render_card_frame(title, wrapped.as_slice(), dims);
    assert(dims == card_dimensions_of(width as nat));
    let r = card_frame_lines(frame);
    let ghost on = choose|on: (bool, bool, bool, bool)|
        views(r@) == card_lines(frame.top@, views(frame.rows@), frame.bottom@, on);
    assert(views(r@) == card_lines(
        card_top(title@, card_dimensions_of(width as nat)),
        card_rows(
            plain_card_body(body@, card_content_width(width as nat)),
            card_content_width(width as nat),
        ),
        card_bottom(card_dimensions_of(width as nat)),
        on,
    ));
    r
}

/// The dimensions `card_dimensions` gives for a width.
pub open spec fn card_dimensions_of(width: nat) -> CardDimensions {
    CardDimensions {
        content_width: card_content_width(width) as usize,
        border_inner_width: (card_content_width(width) + 2) as usize,
    }
}

// ---------------------------------------------------------------------------
// Markdown cards
// ---------------------------------------------------------------------------

#[verifier::external_type_specification]
#[verifier::external_body]
pub struct ExMadSkin(termimad::MadSkin);

/// How wrapped list items are indented (termimad's
/// `ListItemsIndentationMode`, variant for variant).
#[derive(Clone, Copy, Debug, PartialEq, Eq, Structural)]
pub enum ListIndentation {
    /// Only the first line of an item is indented.
    FirstLineOnly,
    /// Every line of an item is indented under its bullet.
    Block,
}

/// How a header line is aligned (minimad's `Alignment`, variant for variant).
#[derive(Clone, Copy, Debug, PartialEq, Eq, Structural)]
pub enum HeaderAlignment {
    Unspecified,
    Left,
    Center,
    Right,
}

/// Header levels a skin styles (`MAX_HEADER_DEPTH` in minimad).
pub const HEADER_LEVELS: usize = 8;

/// What a card skin sets on termimad's default skin: the list-item
/// indentation, and the alignment of each header level (`None` where the
/// default is kept).
pub struct SkinModel {
    pub list_items: Option<ListIndentation>,
    pub headers: Seq<Option<HeaderAlignment>>,
}

/// termimad's default skin, nothing set.
pub open spec fn default_skin_model() -> SkinModel {
    SkinModel { list_items: None, headers: Seq::new(HEADER_LEVELS as nat, |_i: int| None) }
}

/// The skin of markdown cards: list items indented as a block and every
/// header aligned left.
pub open spec fn card_skin_model() -> SkinModel {
    SkinModel {
        list_items: Some(ListIndentation::Block),
        headers: Seq::new(HEADER_LEVELS as nat, |_i: int| Some(HeaderAlignment::Left)),
    }
}

/// A termimad skin together with what has been set on it.
pub struct CardSkin {
    skin: termimad::MadSkin,
    model: Ghost<SkinModel>,
}

impl View for CardSkin {
    type V = SkinModel;

    closed spec fn view(&self) -> SkinModel {
        self.model@
    }
}

/// Calls `termimad::MadSkin::default()`, the crate's grey-level skin, which
/// the source builds from constants alone. The contract claims that nothing
/// has been set on it yet.
#[verifier::external_body]
fn default_skin() -> (r: CardSkin)
    ensures
        r@ == default_skin_model(),
{
    CardSkin { skin: termimad::MadSkin::default(), model: Ghost(default_skin_model()) }
}

/// Sets the skin's `list_items_indentation_mode` to the mode. The contract
/// claims that the mode is now set and the headers are untouched.
#[verifier::external_body]
fn set_list_indentation(skin: &mut CardSkin, mode: ListIndentation)
    ensures
        final(skin)@ == (SkinModel { list_items: Some(mode), headers: old(skin)@.headers }),
{
    skin.skin.list_items_indentation_mode = match mode {
        ListIndentation::FirstLineOnly => termimad::ListItemsIndentationMode::FirstLineOnly,
        ListIndentation::Block => termimad::ListItemsIndentationMode::Block,
    };
}

/// Sets the `align` of the skin's header style at `depth` (of its eight
/// header styles). The contract claims that this alignment is now set and
/// nothing else changed.
#[verifier::external_body]
fn set_header_alignment(skin: &mut CardSkin, depth: usize, align: HeaderAlignment)
    requires
        depth < HEADER_LEVELS,
    ensures
        final(skin)@ == (SkinModel {
            list_items: old(skin)@.list_items,
            headers: old(skin)@.headers.update(depth as int, Some(align)),
        }),
{
    skin.skin.headers[depth].align = match align {
        HeaderAlignment::Unspecified => termimad::Alignment::Unspecified,
        HeaderAlignment::Left => termimad::Alignment::Left,
        HeaderAlignment::Center => termimad::Alignment::Center,
        HeaderAlignment::Right => termimad::Alignment::Right,
    };
}

/// What termimad's `MadSkin::text` renders for a markdown body at a width,
/// formatted, with a skin of the given settings, and with colour codes or
/// without (`colour`): crossterm leaves them out when `NO_COLOR` is set in
/// the environment. Given those it depends on nothing else.
pub uninterp spec fn termimad_rendering(
    skin: SkinModel,
    body: Seq<char>,
    width: nat,
    colour: bool,
) -> Seq<char>;

/// Calls `MadSkin::text` for the width and formats the result. The contract
/// claims that the text is the rendering of the body at the width with the
/// skin's settings, with or without colour codes. A list item is indented
/// by up to 15 columns (ten digits of its number, the dot and space, and
/// three levels of nesting), and termimad subtracts that indent from the
/// width unchecked, so narrow widths are left out: cards are never narrower
/// than 40 columns.
#[verifier::external_body]
fn skin_text(skin: &CardSkin, body: &str, width: usize) -> (r: String)
    requires
        width >= 40,
    ensures
        exists|colour: bool| r@ == termimad_rendering(skin@, body@, width as nat, colour),
{
    format!("{}", skin.skin.text(body, Some(width)))
}

/// The skin markdown cards are rendered with: termimad's default, with list
/// items indented as a block and every header aligned left.
pub fn markdown_skin() -> (r: CardSkin)
    ensures
        r@ == card_skin_model(),
{
    let mut skin = default_skin();
    set_list_indentation(&mut skin, ListIndentation::Block);
    let mut depth: usize = 0;
    while depth < HEADER_LEVELS
        invariant
            depth <= HEADER_LEVELS,
            skin@.list_items == Some(ListIndentation::Block),
            skin@.headers.len() == HEADER_LEVELS,
            forall|k: int| 0 <= k < depth ==> skin@.headers[k] == Some(HeaderAlignment::Left),
        decreases HEADER_LEVELS - depth,
    {
        set_header_alignment(&mut skin, depth, HeaderAlignment::Left);
        depth = depth + 1;
    }
    assert(skin@.headers =~= card_skin_model().headers);
    skin
}

/// Renders a markdown body for the terminal at the width and splits it into
/// card body lines (one empty line when it renders to nothing).
pub fn render_markdown_lines(skin: &CardSkin, body: &str, width: usize) -> (r: Vec<String>)
    requires
        width >= 40,
    ensures
        exists|colour: bool|
            views(r@) == markdown_card_body(termimad_rendering(skin@, body@, width as nat, colour)),
{
    let rendered = skin_text(skin, body, width);
    rendered_markdown_lines(rendered.as_str())
}

/// The lines of a markdown card `width` columns wide: its body rendered at
/// the content width inside a dimmed border, titled at the top.
pub fn render_markdown_card_lines(
    skin: &CardSkin,
    title: &str,
    body: &str,
    width: usize,
) -> (r: Vec<String>)
    ensures
        exists|colour: bool, on: (bool, bool, bool, bool)|
            views(r@) == card_lines(
                card_top(title@, card_dimensions_of(width as nat)),
                card_rows(
                    markdown_card_body(
                        termimad_rendering(
                            skin@,
                            body@,
                            card_content_width(width as nat),
                            colour,
                        ),
                    ),
                    card_content_width(width as nat),
                ),
                card_bottom(card_dimensions_of(width as nat)),
                on,
            ),
{
    let dims = card_dimensions(width);
    let rendered_lines = render_markdown_lines(skin, body, dims.content_width);
    let ghost colour = choose|colour: bool|
        views(rendered_lines@) == markdown_card_body(
            termimad_rendering(skin@, body@, dims.content_width as nat, colour),
        );
    let frame = render_card_frame(title, rendered_lines.as_slice(), dims);
    assert(dims == card_dimensions_of(width as nat));
    let r = card_frame_lines(frame);
    let ghost on = choose|on: (bool, bool, bool, bool)|
        views(r@) == card_lines(frame.top@, views(frame.rows@), frame.bottom@, on);
    assert(views(r@) == card_lines(
        card_top(title@, card_dimensions_of(width as nat)),
        card_rows(
            markdown_card_body(
                termimad_rendering(skin@, body@, card_content_width(width as nat), colour),
            ),
            card_content_width(width as nat),
        ),
        card_bottom(card_dimensions_of(width as nat)),
        on,
    ));
    r
}

} // verus!
