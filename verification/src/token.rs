//! Token counting and splitting a diff into chunks that fit a token budget.
use vstd::prelude::*;

use crate::ai::ChatMessage;
use crate::text::{
    char_utf8_width, chars_of, join, lemma_join_extend_last, lemma_join_push, lemma_lines_join,
    lines, lines_of, line_scan, strip_cr, push_char, string_of_range, utf8_size, utf8_width, views,
    lemma_lines_of_join, lemma_join_lines_shape, is_blank, whitespace_words,
    whitespace_word_count, lemma_utf8_size_at_least_len, lemma_not_blank_nonempty,
};
use vstd::string::StringExecFns;

verus! {

broadcast use vstd::string::group_string_axioms;

/// What tiktoken's cl100k encoder gives for a text (special tokens
/// allowed): the number of tokens, or nothing when its regex engine gives up
/// on the text (fancy-regex fails once a backtracking run passes a million
/// steps, as a line of a million spaces makes it). It depends on the text
/// alone.
pub uninterp spec fn cl100k_token_count(text: Seq<char>) -> Option<nat>;

/// Calls `tiktoken_rs::cl100k_base_singleton()` and then `CoreBPE::encode`
/// with the encoder's own special tokens allowed, returning how many tokens
/// came back, or `None` when `encode` returns an error. The contract claims
/// that this is a function of the text (named `cl100k_token_count`), and,
/// as the source shows: the empty text is encoded, to no token; every token
/// covers at least one byte, so there are never more tokens than bytes; and
/// every character falls in some piece of the pre-tokenizing pattern, so a
/// non-empty text has at least one token. Nothing about the BPE ranks is
/// stated. The singleton builds the encoder once per process from
/// vocabulary embedded in the crate and unwraps that build.
#[verifier::external_body]
fn cl100k_count(input: &str) -> (r: Option<usize>)
    ensures
        match r {
            Some(n) => cl100k_token_count(input@) == Some(n as nat),
            None => cl100k_token_count(input@) is None,
        },
        input@.len() == 0 ==> r == Some(0usize),
        r matches Some(n) ==> n <= utf8_size(input@) && (input@.len() > 0 ==> n >= 1),
{
    let encoder = tiktoken_rs::cl100k_base_singleton();
    match encoder.encode(input, &encoder.special_tokens()) {
        Ok((tokens, _)) => Some(tokens.len()),
        Err(_) => None,
    }
}

/// The token count of a text: its cl100k tokens, or, when the encoder gives
/// up on the text, its whitespace-separated words.
pub open spec fn token_count(text: Seq<char>) -> nat {
    match cl100k_token_count(text) {
        Some(n) => n,
        None => whitespace_words(text),
    }
}

/// Number of tokens in `input` under the cl100k encoding, falling back to
/// counting words when the encoder gives up on the text.
pub fn count_tokens(input: &str) -> (r: usize)
    ensures
        r == token_count(input@),
        input@.len() == 0 ==> r == 0,
        !is_blank(input@) ==> r >= 1,
        r <= utf8_size(input@),
{
    proof {
        if !is_blank(input@) {
            lemma_not_blank_nonempty(input@);
        }
    }
    match cl100k_count(input) {
        Some(n) => n,
        None => {
            proof {
                lemma_utf8_size_at_least_len(input@);
            }
            whitespace_word_count(input)
        },
    }
}

/// Tokens of a conversation: each message's content plus four tokens of
/// per-message overhead.
pub open spec fn messages_tokens(messages: Seq<ChatMessage>) -> int
    decreases messages.len(),
{
    if messages.len() == 0 {
        0
    } else {
        messages_tokens(messages.drop_last()) + token_count(messages.last().content@) + 4
    }
}

/// How many messages of a conversation have content that is not blank.
pub open spec fn nonblank_messages(messages: Seq<ChatMessage>) -> nat
    decreases messages.len(),
{
    if messages.len() == 0 {
        0
    } else {
        nonblank_messages(messages.drop_last()) + if is_blank(messages.last().content@) {
            0nat
        } else {
            1nat
        }
    }
}

/// Tokens of a conversation, counting four tokens of overhead per message;
/// a message whose content is not blank adds at least one token more.
pub fn count_messages(messages: &[ChatMessage]) -> (r: usize)
    requires
        messages_tokens(messages@) <= usize::MAX,
    ensures
        r == messages_tokens(messages@),
        r >= 4 * messages@.len() + nonblank_messages(messages@),
{
    let mut total: usize = 0;
    let mut i: usize = 0;
    while i < messages.len()
        invariant
            i <= messages.len(),
            messages_tokens(messages@) <= usize::MAX,
            total == messages_tokens(messages@.take(i as int)),
            total >= 4 * i + nonblank_messages(messages@.take(i as int)),
        decreases messages.len() - i,
    {
        assert(messages@.take(i + 1).drop_last() =~= messages@.take(i as int));
        assert(messages@.take(i + 1).last() == messages@[i as int]);
        proof {
            lemma_messages_tokens_prefix(messages@, i + 1);
        }
        total = total + count_tokens(messages[i].content.as_str()) + 4;
        i = i + 1;
    }
    assert(messages@.take(messages.len() as int) =~= messages@);
    total
}

/// Whether the tokens of a conversation add up to at most `usize::MAX`.
fn messages_fit(messages: &[ChatMessage]) -> (r: bool)
    ensures
        r == (messages_tokens(messages@) <= usize::MAX),
{
    let mut total: usize = 0;
    let mut i: usize = 0;
    while i < messages.len()
        invariant
            i <= messages.len(),
            total == messages_tokens(messages@.take(i as int)),
        decreases messages.len() - i,
    {
        assert(messages@.take(i + 1).drop_last() =~= messages@.take(i as int));
        let n = count_tokens(messages[i].content.as_str());
        let step = match n.checked_add(4) {
            Some(step) => step,
            None => {
                proof {
                    lemma_messages_tokens_prefix(messages@, i + 1);
                }
                return false;
            },
        };
        total = match total.checked_add(step) {
            Some(t) => t,
            None => {
                proof {
                    lemma_messages_tokens_prefix(messages@, i + 1);
                }
                return false;
            },
        };
        i = i + 1;
    }
    assert(messages@.take(messages.len() as int) =~= messages@);
    true
}

/// Tokens of a conversation, or `None` when the total does not fit a `usize`.
pub fn try_count_messages(messages: &[ChatMessage]) -> (r: Option<usize>)
    ensures
        match r {
            Some(n) => n == messages_tokens(messages@) && n >= 4 * messages@.len()
                + nonblank_messages(messages@),
            None => messages_tokens(messages@) > usize::MAX,
        },
{
    if messages_fit(messages) {
        Some(count_messages(messages))
    } else {
        None
    }
}

proof fn lemma_messages_tokens_prefix(messages: Seq<ChatMessage>, k: int)
    requires
        0 <= k <= messages.len(),
    ensures
        messages_tokens(messages.take(k)) <= messages_tokens(messages),
    decreases messages.len() - k,
{
    if k < messages.len() {
        lemma_messages_tokens_prefix(messages, k + 1);
        assert(messages.take(k + 1).drop_last() =~= messages.take(k));
    } else {
        assert(messages.take(k) =~= messages);
    }
}

// ---------------------------------------------------------------------------
// Splitting one over-long line
// ---------------------------------------------------------------------------

/// The byte budget for one piece of an over-long line: four bytes per token,
/// and at least one.
pub open spec fn piece_bytes(max_tokens: nat) -> nat {
    if 4 * max_tokens >= 1 {
        4 * max_tokens
    } else {
        1
    }
}

/// Reading `p` left to right: the pieces closed so far and the open piece.
/// A character that would push a non-empty open piece past `limit` bytes
/// closes it and opens the next one.
pub open spec fn piece_scan(p: Seq<char>, limit: nat) -> (Seq<Seq<char>>, Seq<char>)
    decreases p.len(),
{
    if p.len() == 0 {
        (Seq::empty(), Seq::empty())
    } else {
        let (done, cur) = piece_scan(p.drop_last(), limit);
        let c = p.last();
        if utf8_size(cur) + utf8_width(c) > limit && cur.len() > 0 {
            (done.push(cur), seq![c])
        } else {
            (done, cur.push(c))
        }
    }
}

/// The pieces of `p` under a byte limit (the open piece closes at the end).
pub open spec fn pieces(p: Seq<char>, limit: nat) -> Seq<Seq<char>> {
    let (done, cur) = piece_scan(p, limit);
    if cur.len() > 0 {
        done.push(cur)
    } else {
        done
    }
}

/// What `split_long_line` returns: the line whole when it fits the token
/// budget, else its pieces of at most `4 * max_tokens` bytes.
pub open spec fn long_line_chunks(line: Seq<char>, max_tokens: nat) -> Seq<Seq<char>> {
    if token_count(line) <= max_tokens {
        seq![line]
    } else {
        pieces(line, piece_bytes(max_tokens))
    }
}

/// Splits one line that may exceed `max_tokens` into pieces of at most
/// `4 * max_tokens` bytes (a lone character may exceed that).
pub fn split_long_line(line: &str, max_tokens: usize) -> (r: Vec<String>)
    ensures
        views(r@) == long_line_chunks(line@, max_tokens as nat),
{
    if count_tokens(line) <= max_tokens {
        let mut r: Vec<String> = Vec::new();
        r.push(String::from_str(line));
        assert(views(r@) =~= seq![line@]);
        return r;
    }
    let limit: u128 = if (max_tokens as u128) * 4 >= 1 {
        (max_tokens as u128) * 4
    } else {
        1
    };
    let ghost lim = piece_bytes(max_tokens as nat);
    let v = chars_of(line);
    let mut done: Vec<String> = Vec::new();
    let mut start: usize = 0;
    let mut bytes: u128 = 0;
    let mut i: usize = 0;
    while i < v.len()
        invariant
            start <= i <= v.len(),
            limit == lim,
            lim <= 4 * usize::MAX + 1,
            bytes == utf8_size(v@.subrange(start as int, i as int)),
            bytes <= lim + 4,
            (views(done@), v@.subrange(start as int, i as int)) == piece_scan(
                v@.take(i as int),
                lim,
            ),
        decreases v.len() - i,
    {
        let c = v[i];
        let w = char_utf8_width(c);
        assert(v@.take(i + 1).drop_last() =~= v@.take(i as int));
        assert(v@.take(i + 1).last() == c);
        if bytes + (w as u128) > limit && start < i {
            done.push(string_of_range(&v, start, i));
            start = i;
            bytes = w as u128;
            assert(v@.subrange(start as int, i + 1) =~= seq![c]);
            assert(seq![c].drop_last() =~= Seq::<char>::empty());
            assert(utf8_size(seq![c]) == utf8_size(Seq::<char>::empty()) + utf8_width(c));
        } else {
            bytes = bytes + (w as u128);
            assert(v@.subrange(start as int, i + 1).drop_last() =~= v@.subrange(
                start as int,
                i as int,
            ));
            assert(utf8_size(v@.subrange(start as int, i + 1)) == utf8_size(
                v@.subrange(start as int, i as int),
            ) + utf8_width(c));
        }
        i = i + 1;
        assert(views(done@) =~= piece_scan(v@.take(i as int), lim).0);
        assert(v@.subrange(start as int, i as int) =~= piece_scan(v@.take(i as int), lim).1);
    }
    assert(v@.take(v.len() as int) =~= v@);
    if start < v.len() {
        done.push(string_of_range(&v, start, v.len()));
        assert(views(done@) =~= pieces(v@, lim));
    }
    done
}

// ---------------------------------------------------------------------------
// Splitting a diff
// ---------------------------------------------------------------------------

/// State while walking a diff's lines: the chunks closed so far, the open
/// chunk's text, and the running token estimate of the open chunk (the sum
/// of its lines' counts plus one per newline joining them).
pub type DiffScan = (Seq<Seq<char>>, Seq<char>, int);

/// One line of the walk. A line that would push the open chunk past the
/// budget closes it; a line over the budget on its own is split by bytes.
/// An empty open chunk is never closed.
pub open spec fn diff_step(st: DiffScan, line: Seq<char>, max_tokens: nat) -> DiffScan {
    let (chunks, cur, t) = st;
    let lt = token_count(line) as int;
    let joiner: int = if cur.len() > 0 { 1 } else { 0 };
    if t + joiner + lt > max_tokens {
        if cur.len() == 0 {
            (chunks + long_line_chunks(line, max_tokens), cur, t)
        } else if lt > max_tokens {
            (chunks.push(cur) + long_line_chunks(line, max_tokens), Seq::empty(), 0)
        } else {
            (chunks.push(cur), line, lt)
        }
    } else if joiner == 1 {
        (chunks, cur + seq!['\n'] + line, t + joiner + lt)
    } else {
        (chunks, cur + line, t + joiner + lt)
    }
}

/// The walk over a sequence of lines.
pub open spec fn diff_scan(ls: Seq<Seq<char>>, max_tokens: nat) -> DiffScan
    decreases ls.len(),
{
    if ls.len() == 0 {
        (Seq::empty(), Seq::empty(), 0)
    } else {
        diff_step(diff_scan(ls.drop_last(), max_tokens), ls.last(), max_tokens)
    }
}

/// The chunks of the walk, with a non-empty open chunk closed at the end.
pub open spec fn diff_chunks(ls: Seq<Seq<char>>, max_tokens: nat) -> Seq<Seq<char>> {
    let (chunks, cur, _) = diff_scan(ls, max_tokens);
    if cur.len() > 0 {
        chunks.push(cur)
    } else {
        chunks
    }
}

/// The effective budget: at least one token.
pub open spec fn effective_budget(max_tokens: nat) -> nat {
    if max_tokens >= 1 {
        max_tokens
    } else {
        1
    }
}

/// What `split_diff` returns: the diff whole when it fits the budget, else
/// the chunks of its lines.
pub open spec fn diff_split(diff: Seq<char>, max_tokens: nat) -> Seq<Seq<char>> {
    let m = effective_budget(max_tokens);
    if token_count(diff) <= m {
        seq![diff]
    } else {
        diff_chunks(lines(diff), m)
    }
}

/// Splits a diff into chunks whose estimated token counts fit `max_tokens`
/// (at least one), keeping it whole when it already fits.
pub fn split_diff(diff: &str, max_tokens: usize) -> (r: Vec<String>)
    ensures
        views(r@) == diff_split(diff@, max_tokens as nat),
        diff@.len() > 0 ==> forall|k: int| 0 <= k < r.len() ==> (#[trigger] r@[k])@.len() > 0,
{
    let max_tokens = if max_tokens >= 1 {
        max_tokens
    } else {
        1
    };
    let ghost m = max_tokens as nat;
    if count_tokens(diff) <= max_tokens {
        let mut r: Vec<String> = Vec::new();
        r.push(String::from_str(diff));
        assert(views(r@) =~= seq![diff@]);
        return r;
    }
    let ls = lines_of(diff);
    let ghost lv = views(ls@);
    let mut chunks: Vec<String> = Vec::new();
    let mut current = String::new();
    let mut current_tokens: usize = 0;
    let mut i: usize = 0;
    while i < ls.len()
        invariant
            i <= ls.len(),
            lv == views(ls@),
            m == max_tokens,
            current_tokens <= max_tokens,
            (views(chunks@), current@, current_tokens as int) == diff_scan(lv.take(i as int), m),
            current@.len() == 0 ==> current_tokens == 0,
            forall|k: int| 0 <= k < chunks.len() ==> (#[trigger] chunks@[k])@.len() > 0,
        decreases ls.len() - i,
    {
        let line = ls[i].as_str();
        assert(lv.take(i + 1).drop_last() =~= lv.take(i as int));
        assert(lv.take(i + 1).last() == line@);
        let line_tokens = count_tokens(line);
        let joiner: usize = if current.as_str().is_empty() {
            0
        } else {
            1
        };
        if (current_tokens as u128) + (joiner as u128) + (line_tokens as u128) > (
        max_tokens as u128) {
            if current.as_str().is_empty() {
                let mut extra = split_long_line(line, max_tokens);
                proof {
                    law_split_long_line_lossless(line@, m);
                }
                let ghost before = views(chunks@);
                let ghost old_chunks = chunks@;
                let ghost added = extra@;
                chunks.append(&mut extra);
                assert(views(chunks@) =~= before + long_line_chunks(line@, m));
                assert forall|k: int| 0 <= k < chunks.len() implies (#[trigger] chunks@[k])@.len()
                    > 0 by {
                    if k >= old_chunks.len() {
                        assert(chunks@[k] == added[k - old_chunks.len()]);
                        assert(views(added)[k - old_chunks.len()] == added[k - old_chunks.len()]@);
                    } else {
                        assert(chunks@[k] == old_chunks[k]);
                    }
                }
            } else {
                let ghost before = views(chunks@);
                chunks.push(current);
                current = String::new();
                current_tokens = 0;
                if line_tokens > max_tokens {
                    let mut extra = split_long_line(line, max_tokens);
                    proof {
                        law_split_long_line_lossless(line@, m);
                    }
                    let ghost pushed = views(chunks@);
                    let ghost old_chunks = chunks@;
                    let ghost added = extra@;
                    chunks.append(&mut extra);
                    assert(views(chunks@) =~= pushed + long_line_chunks(line@, m));
                    assert forall|k: int| 0 <= k < chunks.len() implies (
                    #[trigger] chunks@[k])@.len() > 0 by {
                        if k >= old_chunks.len() {
                            assert(chunks@[k] == added[k - old_chunks.len()]);
                            assert(views(added)[k - old_chunks.len()] == added[k
                                - old_chunks.len()]@);
                        } else {
                            assert(chunks@[k] == old_chunks[k]);
                        }
                    }
                } else {
                    current.append(line);
                    current_tokens = line_tokens;
                }
            }
        } else {
            if joiner == 1 {
                push_char(&mut current, '\n');
            }
            current.append(line);
            current_tokens = current_tokens + joiner + line_tokens;
        }
        i = i + 1;
    }
    assert(lv.take(ls.len() as int) =~= lv);
    if !current.as_str().is_empty() {
        chunks.push(current);
        assert(views(chunks@) =~= diff_chunks(lv, m));
    }
    chunks
}

// ---------------------------------------------------------------------------
// Laws
// ---------------------------------------------------------------------------

/// A piece is within the byte limit, or is a single character.
pub open spec fn piece_fits(piece: Seq<char>, limit: nat) -> bool {
    utf8_size(piece) <= limit || piece.len() == 1
}

proof fn lemma_piece_scan(p: Seq<char>, limit: nat)
    ensures
        ({
            let (done, cur) = piece_scan(p, limit);
            &&& p.len() > 0 ==> cur.len() > 0
            &&& p.len() == 0 ==> done.len() == 0 && cur.len() == 0
            &&& p.len() > 0 ==> join(done.push(cur), Seq::empty()) == p
            &&& forall|k: int| 0 <= k < done.len() ==> done[k].len() > 0
            &&& forall|k: int| 0 <= k < done.len() ==> piece_fits(#[trigger] done[k], limit)
            &&& p.len() > 0 ==> piece_fits(cur, limit)
        }),
    decreases p.len(),
{
    if p.len() > 0 {
        let q = p.drop_last();
        lemma_piece_scan(q, limit);
        let (done, cur) = piece_scan(q, limit);
        let c = p.last();
        if utf8_size(cur) + utf8_width(c) > limit && cur.len() > 0 {
            lemma_join_push(done.push(cur), seq![c], Seq::empty());
            assert(q + Seq::<char>::empty() + seq![c] =~= p);
        } else {
            if q.len() == 0 {
                assert(cur.push(c) =~= seq![c]);
                lemma_join_push(done, seq![c], Seq::empty());
                assert(seq![c] =~= p);
            } else {
                lemma_join_extend_last(done, cur, seq![c], Seq::empty());
                assert(cur.push(c) =~= cur + seq![c]);
                assert(q + seq![c] =~= p);
            }
            assert(cur.push(c).drop_last() =~= cur);
        }
    }
}

/// Splitting one line loses nothing: its pieces concatenate back to the
/// line, none is empty, and each fits the byte budget (`4 * max_tokens`, at
/// least one) unless it is a single character.
pub proof fn law_split_long_line_lossless(line: Seq<char>, max_tokens: nat)
    requires
        line.len() > 0,
    ensures
        join(long_line_chunks(line, max_tokens), Seq::empty()) == line,
        forall|k: int|
            0 <= k < long_line_chunks(line, max_tokens).len() ==> (#[trigger] long_line_chunks(
                line,
                max_tokens,
            )[k]).len() > 0,
        token_count(line) > max_tokens ==> forall|k: int|
            0 <= k < long_line_chunks(line, max_tokens).len() ==> piece_fits(
                #[trigger] long_line_chunks(line, max_tokens)[k],
                piece_bytes(max_tokens),
            ),
{
    let lim = piece_bytes(max_tokens);
    if token_count(line) <= max_tokens {
        lemma_join_push(Seq::empty(), line, Seq::empty());
        assert(Seq::<Seq<char>>::empty().push(line) =~= seq![line]);
    } else {
        lemma_piece_scan(line, lim);
        let (done, cur) = piece_scan(line, lim);
        assert forall|k: int| 0 <= k < done.push(cur).len() implies piece_fits(
            #[trigger] done.push(cur)[k],
            lim,
        ) by {
            if k < done.len() {
                assert(done.push(cur)[k] == done[k]);
            }
        }
        assert forall|k: int| 0 <= k < done.push(cur).len() implies (
        #[trigger] done.push(cur)[k]).len() > 0 by {
            if k < done.len() {
                assert(done.push(cur)[k] == done[k]);
            }
        }
    }
}

/// A diff that already fits the budget (at least one token) comes back as
/// the single chunk it is.
pub proof fn law_split_diff_keeps_fitting_diff_whole(diff: Seq<char>, max_tokens: nat)
    requires
        token_count(diff) <= effective_budget(max_tokens),
    ensures
        diff_split(diff, max_tokens) == seq![diff],
{
}

/// While every line fits the budget and none is empty, the open chunk is
/// never empty and the chunks joined with newlines give back the lines
/// joined with newlines.
proof fn lemma_diff_scan_join(ls: Seq<Seq<char>>, m: nat)
    requires
        m >= 1,
        forall|k: int| 0 <= k < ls.len() ==> (#[trigger] ls[k]).len() > 0,
        forall|k: int| 0 <= k < ls.len() ==> token_count(#[trigger] ls[k]) <= m,
    ensures
        ls.len() > 0 ==> diff_scan(ls, m).1.len() > 0,
        ls.len() > 0 ==> join(diff_scan(ls, m).0.push(diff_scan(ls, m).1), seq!['\n']) == join(
            ls,
            seq!['\n'],
        ),
        ls.len() == 0 ==> diff_scan(ls, m).0.len() == 0 && diff_scan(ls, m).1.len() == 0 && diff_scan(ls, m).2 == 0,
    decreases ls.len(),
{
    if ls.len() > 0 {
        let prev = ls.drop_last();
        assert forall|k: int| 0 <= k < prev.len() implies (#[trigger] prev[k]).len() > 0 by {
            assert(prev[k] == ls[k]);
        }
        assert forall|k: int| 0 <= k < prev.len() implies token_count(#[trigger] prev[k])
            <= m by {
            assert(prev[k] == ls[k]);
        }
        lemma_diff_scan_join(prev, m);
        let (chunks, cur, t) = diff_scan(prev, m);
        let line = ls.last();
        assert(line == ls[ls.len() - 1]);
        let nl = seq!['\n'];
        lemma_join_push(prev, line, nl);
        if prev.len() == 0 {
            assert(chunks.len() == 0 && cur.len() == 0 && t == 0);
            lemma_join_push(Seq::empty(), line, nl);
            assert(Seq::<char>::empty() + line =~= line);
        } else {
            let lt = token_count(line) as int;
            if t + 1 + lt > m {
                lemma_join_push(chunks.push(cur), line, nl);
            } else {
                lemma_join_extend_last(chunks, cur, nl + line, nl);
                assert(cur + seq!['\n'] + line =~= cur + (nl + line));
                assert(join(ls.drop_last(), nl) + nl + line =~= join(prev, nl) + (nl + line));
            }
        }
    }
}

proof fn lemma_diff_scan_chunks_nonempty(ls: Seq<Seq<char>>, m: nat)
    requires
        m >= 1,
        forall|k: int| 0 <= k < ls.len() ==> (#[trigger] ls[k]).len() > 0,
        forall|k: int| 0 <= k < ls.len() ==> token_count(#[trigger] ls[k]) <= m,
    ensures
        forall|k: int| 0 <= k < diff_scan(ls, m).0.len() ==> (#[trigger] diff_scan(ls, m).0[k]).len()
            > 0,
    decreases ls.len(),
{
    if ls.len() > 0 {
        let prev = ls.drop_last();
        assert forall|k: int| 0 <= k < prev.len() implies (#[trigger] prev[k]).len() > 0 by {
            assert(prev[k] == ls[k]);
        }
        assert forall|k: int| 0 <= k < prev.len() implies token_count(#[trigger] prev[k])
            <= m by {
            assert(prev[k] == ls[k]);
        }
        lemma_diff_scan_chunks_nonempty(prev, m);
        lemma_diff_scan_join(prev, m);
        let (chunks, cur, t) = diff_scan(prev, m);
        let line = ls.last();
        assert(line == ls[ls.len() - 1]);
        let next = diff_scan(ls, m).0;
        assert forall|k: int| 0 <= k < next.len() implies (#[trigger] next[k]).len() > 0 by {
            if k < chunks.len() {
                assert(next[k] == chunks[k]);
            }
        }
    }
}

/// Splitting a diff made of lines loses nothing: when the diff is non-empty
/// lines without line breaks, joined with newlines, and each line fits the
/// budget, its chunks are non-empty and joined with newlines they give back
/// the diff.
pub proof fn law_split_diff_lossless_over_lines(ls: Seq<Seq<char>>, max_tokens: nat)
    requires
        ls.len() > 0,
        forall|k: int| 0 <= k < ls.len() ==> (#[trigger] ls[k]).len() > 0,
        forall|k: int, i: int|
            0 <= k < ls.len() && 0 <= i < ls[k].len() ==> #[trigger] ls[k][i] != '\n' && ls[k][i]
                != '\r',
        forall|k: int|
            0 <= k < ls.len() ==> token_count(#[trigger] ls[k]) <= effective_budget(
                max_tokens,
            ),
    ensures
        join(diff_split(join(ls, seq!['\n']), max_tokens), seq!['\n']) == join(ls, seq!['\n']),
        forall|k: int|
            0 <= k < diff_split(join(ls, seq!['\n']), max_tokens).len() ==> (
            #[trigger] diff_split(join(ls, seq!['\n']), max_tokens)[k]).len() > 0,
{
    let diff = join(ls, seq!['\n']);
    let m = effective_budget(max_tokens);
    assert(ls.last() == ls[ls.len() - 1]);
    lemma_lines_of_join(ls);
    lemma_join_lines_shape(ls);
    law_split_diff_lossless(diff, max_tokens);
    if token_count(diff) > m {
        lemma_diff_scan_join(ls, m);
        lemma_diff_scan_chunks_nonempty(ls, m);
        let (chunks, cur, t) = diff_scan(ls, m);
        let r = diff_split(diff, max_tokens);
        assert(r == chunks.push(cur));
        assert forall|k: int| 0 <= k < r.len() implies (#[trigger] r[k]).len() > 0 by {
            if k < chunks.len() {
                assert(r[k] == chunks[k]);
            }
        }
    }
}

/// Splitting a diff is lossless when every line fits the budget: for a diff
/// without carriage returns, not ending with a newline and without empty
/// lines, the chunks joined with newlines are the diff.
pub proof fn law_split_diff_lossless(diff: Seq<char>, max_tokens: nat)
    requires
        forall|i: int| 0 <= i < diff.len() ==> diff[i] != '\r',
        diff.len() == 0 || diff.last() != '\n',
        forall|k: int| 0 <= k < lines(diff).len() ==> (#[trigger] lines(diff)[k]).len() > 0,
        forall|k: int|
            0 <= k < lines(diff).len() ==> token_count(#[trigger] lines(diff)[k])
                <= effective_budget(max_tokens),
    ensures
        join(diff_split(diff, max_tokens), seq!['\n']) == diff,
{
    let m = effective_budget(max_tokens);
    lemma_lines_join(diff);
    if token_count(diff) <= m {
        lemma_join_push(Seq::empty(), diff, seq!['\n']);
        assert(Seq::<Seq<char>>::empty().push(diff) =~= seq![diff]);
    } else {
        let ls = lines(diff);
        lemma_diff_scan_join(ls, m);
        if ls.len() == 0 {
            assert(join(ls, seq!['\n']) == Seq::<char>::empty());
        }
    }
}

/// A one-line diff (no newline) that is over budget is cut into pieces that
/// concatenate back to it.
pub proof fn law_split_diff_single_line_lossless(diff: Seq<char>, max_tokens: nat)
    requires
        diff.len() > 0,
        forall|i: int| 0 <= i < diff.len() ==> diff[i] != '\n',
    ensures
        join(diff_split(diff, max_tokens), Seq::empty()) == diff,
{
    let m = effective_budget(max_tokens);
    if token_count(diff) <= m {
        lemma_join_push(Seq::empty(), diff, Seq::empty());
        assert(Seq::<Seq<char>>::empty().push(diff) =~= seq![diff]);
    } else {
        lemma_single_line(diff);
        let ls = lines(diff);
        assert(ls.drop_last() =~= Seq::<Seq<char>>::empty());
        assert(ls.last() == diff);
        assert(diff_scan(ls.drop_last(), m) == (Seq::<Seq<char>>::empty(), Seq::<char>::empty(), 0int));
        assert(diff_scan(ls, m) == diff_step(diff_scan(ls.drop_last(), m), diff, m));
        law_split_long_line_lossless(diff, m);
        assert(Seq::<Seq<char>>::empty() + long_line_chunks(diff, m) =~= long_line_chunks(diff, m));
    }
}

proof fn lemma_single_line_scan(p: Seq<char>)
    requires
        forall|i: int| 0 <= i < p.len() ==> p[i] != '\n',
    ensures
        line_scan(p).0.len() == 0,
        line_scan(p).1 == p,
    decreases p.len(),
{
    if p.len() > 0 {
        lemma_single_line_scan(p.drop_last());
        assert(p.drop_last().push(p.last()) =~= p);
    }
}

proof fn lemma_single_line(p: Seq<char>)
    requires
        p.len() > 0,
        forall|i: int| 0 <= i < p.len() ==> p[i] != '\n',
    ensures
        lines(p) == seq![p],
{
    lemma_single_line_scan(p);
    assert(Seq::<Seq<char>>::empty().push(p) =~= seq![p]);
}

/// The token estimate of a block of lines: their counts plus one per newline
/// joining them.
pub open spec fn block_estimate(block: Seq<Seq<char>>) -> int
    decreases block.len(),
{
    if block.len() == 0 {
        0
    } else if block.len() == 1 {
        token_count(block[0]) as int
    } else {
        block_estimate(block.drop_last()) + 1 + token_count(block.last())
    }
}

/// The lines of consecutive blocks, in order.
pub open spec fn flatten_blocks(blocks: Seq<Seq<Seq<char>>>) -> Seq<Seq<char>>
    decreases blocks.len(),
{
    if blocks.len() == 0 {
        Seq::empty()
    } else {
        flatten_blocks(blocks.drop_last()) + blocks.last()
    }
}

/// Each block joined with newlines.
pub open spec fn joined_blocks(blocks: Seq<Seq<Seq<char>>>) -> Seq<Seq<char>> {
    blocks.map_values(|b: Seq<Seq<char>>| join(b, seq!['\n']))
}

/// The blocks of lines behind the walk when every line fits: the closed
/// blocks and the open one.
spec fn block_scan(ls: Seq<Seq<char>>, m: nat) -> (Seq<Seq<Seq<char>>>, Seq<Seq<char>>)
    decreases ls.len(),
{
    if ls.len() == 0 {
        (Seq::empty(), Seq::empty())
    } else {
        let (closed, open) = block_scan(ls.drop_last(), m);
        let l = ls.last();
        if open.len() == 0 {
            (closed, seq![l])
        } else if block_estimate(open) + 1 + token_count(l) > m {
            (closed.push(open), seq![l])
        } else {
            (closed, open.push(l))
        }
    }
}

proof fn lemma_block_scan(ls: Seq<Seq<char>>, m: nat)
    requires
        m >= 1,
        forall|k: int| 0 <= k < ls.len() ==> (#[trigger] ls[k]).len() > 0,
        forall|k: int| 0 <= k < ls.len() ==> token_count(#[trigger] ls[k]) <= m,
    ensures
        ({
            let (closed, open) = block_scan(ls, m);
            let (chunks, cur, t) = diff_scan(ls, m);
            &&& chunks == joined_blocks(closed)
            &&& cur == join(open, seq!['\n'])
            &&& t == block_estimate(open)
            &&& 0 <= t <= m
            &&& (ls.len() > 0 <==> open.len() > 0)
            &&& flatten_blocks(closed) + open == ls
            &&& forall|k: int| 0 <= k < closed.len() ==> (#[trigger] closed[k]).len() > 0
            &&& forall|k: int|
                0 <= k < closed.len() ==> block_estimate(#[trigger] closed[k]) <= m
            &&& forall|k: int| 0 <= k < open.len() ==> (#[trigger] open[k]).len() > 0
        }),
    decreases ls.len(),
{
    if ls.len() == 0 {
        assert(joined_blocks(Seq::empty()) =~= Seq::<Seq<char>>::empty());
        assert(flatten_blocks(Seq::empty()) + Seq::<Seq<char>>::empty() =~= ls);
    } else {
        let prev = ls.drop_last();
        assert forall|k: int| 0 <= k < prev.len() implies (#[trigger] prev[k]).len() > 0 by {
            assert(prev[k] == ls[k]);
        }
        assert forall|k: int| 0 <= k < prev.len() implies token_count(#[trigger] prev[k])
            <= m by {
            assert(prev[k] == ls[k]);
        }
        lemma_block_scan(prev, m);
        let (closed, open) = block_scan(prev, m);
        let (chunks, cur, t) = diff_scan(prev, m);
        let l = ls.last();
        assert(l == ls[ls.len() - 1]);
        let lt = token_count(l) as int;
        let nl = seq!['\n'];
        if open.len() == 0 {
            assert(prev.len() == 0);
            assert(cur.len() == 0) by {
                assert(join(open, nl) == Seq::<char>::empty());
            }
            assert(cur + l =~= l);
            lemma_join_push(Seq::empty(), l, nl);
            assert(Seq::<Seq<char>>::empty().push(l) =~= seq![l]);
            assert(flatten_blocks(closed) + seq![l] =~= ls);
        } else {
            assert(open[0].len() > 0);
            lemma_join_push(open.drop_last(), open.last(), nl);
            assert(open.drop_last().push(open.last()) =~= open);
            assert(cur.len() > 0) by {
                lemma_join_nonempty(open, nl);
            }
            if t + 1 + lt > m {
                assert(joined_blocks(closed.push(open)) =~= joined_blocks(closed).push(join(open, nl)));
                lemma_join_push(Seq::empty(), l, nl);
                assert(Seq::<Seq<char>>::empty().push(l) =~= seq![l]);
                assert(closed.push(open).drop_last() =~= closed);
                assert(flatten_blocks(closed.push(open)) + seq![l] =~= ls);
                assert forall|k: int| 0 <= k < closed.push(open).len() implies block_estimate(
                    #[trigger] closed.push(open)[k],
                ) <= m && closed.push(open)[k].len() > 0 by {
                    if k < closed.len() {
                        assert(closed.push(open)[k] == closed[k]);
                    }
                }
            } else {
                lemma_join_push(open, l, nl);
                assert(open.push(l).drop_last() =~= open);
                assert(ls =~= prev.push(l));
                assert((flatten_blocks(closed) + open).push(l) =~= flatten_blocks(closed) + open.push(l));
                assert(flatten_blocks(closed) + open.push(l) =~= ls);
                assert forall|k: int| 0 <= k < open.push(l).len() implies (
                #[trigger] open.push(l)[k]).len() > 0 by {
                    if k < open.len() {
                        assert(open.push(l)[k] == open[k]);
                    }
                }
            }
        }
    }
}

proof fn lemma_join_nonempty(parts: Seq<Seq<char>>, sep: Seq<char>)
    requires
        parts.len() > 0,
        parts[0].len() > 0,
    ensures
        join(parts, sep).len() > 0,
    decreases parts.len(),
{
    if parts.len() > 1 {
        lemma_join_nonempty(parts.drop_last(), sep);
    }
}

/// When every line fits the budget and none is empty, an over-budget diff is
/// cut between lines only: its chunks are consecutive blocks of its lines,
/// each joined with newlines, and each block's estimate (its lines' token
/// counts plus one per joining newline) stays within the budget.
pub proof fn law_split_diff_chunks_fit_budget(diff: Seq<char>, max_tokens: nat)
    requires
        token_count(diff) > effective_budget(max_tokens),
        forall|k: int| 0 <= k < lines(diff).len() ==> (#[trigger] lines(diff)[k]).len() > 0,
        forall|k: int|
            0 <= k < lines(diff).len() ==> token_count(#[trigger] lines(diff)[k])
                <= effective_budget(max_tokens),
    ensures
        exists|blocks: Seq<Seq<Seq<char>>>|
            {
                &&& flatten_blocks(blocks) == lines(diff)
                &&& diff_split(diff, max_tokens) == joined_blocks(blocks)
                &&& forall|k: int|
                    0 <= k < blocks.len() ==> (#[trigger] blocks[k]).len() > 0 && block_estimate(
                        blocks[k],
                    ) <= effective_budget(max_tokens)
            },
{
    let m = effective_budget(max_tokens);
    let ls = lines(diff);
    lemma_block_scan(ls, m);
    let (closed, open) = block_scan(ls, m);
    if ls.len() == 0 {
        assert(flatten_blocks(closed) =~= ls);
        assert(joined_blocks(closed) == diff_split(diff, max_tokens));
    } else {
        let blocks = closed.push(open);
        assert(blocks.drop_last() =~= closed);
        assert(joined_blocks(blocks) =~= joined_blocks(closed).push(join(open, seq!['\n'])));
        assert(open[0].len() > 0);
        lemma_join_nonempty(open, seq!['\n']);
        assert forall|k: int| 0 <= k < blocks.len() implies (#[trigger] blocks[k]).len() > 0
            && block_estimate(blocks[k]) <= m by {
            if k < closed.len() {
                assert(blocks[k] == closed[k]);
            }
        }
        assert(flatten_blocks(blocks) == lines(diff));
    }
}

/// Every message costs at least the four tokens of overhead.
pub proof fn law_message_overhead(messages: Seq<ChatMessage>)
    ensures
        messages_tokens(messages) >= 4 * messages.len(),
    decreases messages.len(),
{
    if messages.len() > 0 {
        law_message_overhead(messages.drop_last());
    }
}

/// Counting a conversation adds up message by message: no messages count
/// nothing, one message counts its content's tokens plus four, and the
/// count of two conversations one after the other is the sum of their
/// counts (roles are not counted).
pub proof fn law_count_messages_additive(a: Seq<ChatMessage>, b: Seq<ChatMessage>)
    ensures
        messages_tokens(Seq::<ChatMessage>::empty()) == 0,
        a.len() == 1 ==> messages_tokens(a) == token_count(a[0].content@) + 4,
        messages_tokens(a + b) == messages_tokens(a) + messages_tokens(b),
    decreases b.len(),
{
    if a.len() == 1 {
        assert(a.drop_last() =~= Seq::<ChatMessage>::empty());
        assert(messages_tokens(a.drop_last()) == 0);
        assert(a.last() == a[0]);
    }
    if b.len() == 0 {
        assert(a + b =~= a);
    } else {
        law_count_messages_additive(a, b.drop_last());
        assert((a + b).drop_last() =~= a + b.drop_last());
        assert((a + b).last() == b.last());
    }
}

// ---------------------------------------------------------------------------
// Nothing of a diff is lost
// ---------------------------------------------------------------------------

/// `s` without its line-break characters (`\n` and `\r`).
pub open spec fn without_breaks(s: Seq<char>) -> Seq<char>
    decreases s.len(),
{
    if s.len() == 0 {
        Seq::empty()
    } else {
        without_breaks(s.drop_last()) + if s.last() == '\n' || s.last() == '\r' {
            Seq::<char>::empty()
        } else {
            seq![s.last()]
        }
    }
}

/// The parts one after the other.
pub open spec fn concat_all(parts: Seq<Seq<char>>) -> Seq<char>
    decreases parts.len(),
{
    if parts.len() == 0 {
        Seq::empty()
    } else {
        concat_all(parts.drop_last()) + parts.last()
    }
}

proof fn lemma_without_breaks_add(a: Seq<char>, b: Seq<char>)
    ensures
        without_breaks(a + b) == without_breaks(a) + without_breaks(b),
    decreases b.len(),
{
    if b.len() == 0 {
        assert(a + b =~= a);
        assert(without_breaks(a) + without_breaks(b) =~= without_breaks(a));
    } else {
        lemma_without_breaks_add(a, b.drop_last());
        assert((a + b).drop_last() =~= a + b.drop_last());
        assert((a + b).last() == b.last());
    }
}

proof fn lemma_concat_push(parts: Seq<Seq<char>>, x: Seq<char>)
    ensures
        concat_all(parts.push(x)) == concat_all(parts) + x,
{
    assert(parts.push(x).drop_last() =~= parts);
}

proof fn lemma_concat_add(p: Seq<Seq<char>>, q: Seq<Seq<char>>)
    ensures
        concat_all(p + q) == concat_all(p) + concat_all(q),
    decreases q.len(),
{
    if q.len() == 0 {
        assert(p + q =~= p);
        assert(concat_all(p) + concat_all(q) =~= concat_all(p));
    } else {
        lemma_concat_add(p, q.drop_last());
        assert((p + q).drop_last() =~= p + q.drop_last());
        assert((p + q).last() == q.last());
        assert(concat_all(p) + concat_all(q.drop_last()) + q.last() =~= concat_all(p) + (
        concat_all(q.drop_last()) + q.last()));
    }
}

proof fn lemma_join_empty_is_concat(parts: Seq<Seq<char>>)
    ensures
        join(parts, Seq::empty()) == concat_all(parts),
    decreases parts.len(),
{
    if parts.len() == 1 {
        assert(parts.drop_last() =~= Seq::<Seq<char>>::empty());
        assert(concat_all(parts.drop_last()) == Seq::<char>::empty());
        assert(parts.last() == parts[0]);
        assert(Seq::<char>::empty() + parts.last() =~= parts[0]);
    } else if parts.len() > 1 {
        let init = parts.drop_last();
        lemma_join_empty_is_concat(init);
        assert(join(parts, Seq::empty()) == join(init, Seq::empty()) + Seq::<char>::empty()
            + parts.last());
        assert(join(init, Seq::empty()) + Seq::<char>::empty() =~= join(init, Seq::empty()));
        assert(concat_all(parts) == concat_all(init) + parts.last());
    }
}

/// The pieces of an over-long line, one after the other, are the line.
proof fn lemma_long_line_chunks_concat(line: Seq<char>, m: nat)
    ensures
        concat_all(long_line_chunks(line, m)) == line,
{
    if token_count(line) <= m {
        lemma_concat_push(Seq::empty(), line);
        assert(seq![line] =~= Seq::<Seq<char>>::empty().push(line));
        assert(Seq::<char>::empty() + line =~= line);
    } else {
        let lim = piece_bytes(m);
        lemma_piece_scan(line, lim);
        let (done, cur) = piece_scan(line, lim);
        if line.len() > 0 {
            lemma_join_empty_is_concat(done.push(cur));
        } else {
            assert(pieces(line, lim) =~= Seq::<Seq<char>>::empty());
            assert(line =~= Seq::<char>::empty());
        }
    }
}

proof fn lemma_strip_cr_without_breaks(line: Seq<char>)
    ensures
        without_breaks(strip_cr(line)) == without_breaks(line),
{
}

/// The lines of a text hold all of its characters but its line breaks.
proof fn lemma_line_scan_without_breaks(p: Seq<char>)
    ensures
        without_breaks(concat_all(line_scan(p).0) + line_scan(p).1) == without_breaks(p),
    decreases p.len(),
{
    if p.len() > 0 {
        let q = p.drop_last();
        lemma_line_scan_without_breaks(q);
        let (done, cur) = line_scan(q);
        let c = p.last();
        assert(q.push(c) =~= p);
        lemma_without_breaks_add(concat_all(done), cur);
        if c == '\n' {
            lemma_concat_push(done, strip_cr(cur));
            lemma_without_breaks_add(concat_all(done), strip_cr(cur));
            lemma_strip_cr_without_breaks(cur);
            assert(concat_all(done.push(strip_cr(cur))) + Seq::<char>::empty() =~= concat_all(
                done.push(strip_cr(cur)),
            ));
        } else {
            let x = concat_all(done) + cur;
            assert(concat_all(done) + cur.push(c) =~= x.push(c));
            assert(x.push(c).drop_last() =~= x);
            assert(x.push(c).last() == c);
        }
    }
}

proof fn lemma_lines_without_breaks(s: Seq<char>)
    ensures
        without_breaks(concat_all(lines(s))) == without_breaks(s),
{
    lemma_line_scan_without_breaks(s);
    let (done, cur) = line_scan(s);
    if cur.len() > 0 {
        lemma_concat_push(done, cur);
    } else {
        assert(concat_all(done) + cur =~= concat_all(done));
    }
}

/// The walk over the lines keeps every character of them: the closed
/// chunks and the open one, one after the other and without line breaks,
/// are the lines one after the other without line breaks.
proof fn lemma_diff_scan_without_breaks(ls: Seq<Seq<char>>, m: nat)
    ensures
        without_breaks(concat_all(diff_scan(ls, m).0) + diff_scan(ls, m).1) == without_breaks(
            concat_all(ls),
        ),
    decreases ls.len(),
{
    if ls.len() > 0 {
        let prev = ls.drop_last();
        lemma_diff_scan_without_breaks(prev, m);
        let (chunks, cur, t) = diff_scan(prev, m);
        let line = ls.last();
        lemma_concat_push(prev, line);
        assert(prev.push(line) =~= ls);
        lemma_without_breaks_add(concat_all(prev), line);
        lemma_without_breaks_add(concat_all(chunks), cur);
        lemma_long_line_chunks_concat(line, m);
        let lt = token_count(line) as int;
        let joiner: int = if cur.len() > 0 {
            1
        } else {
            0
        };
        let (c2, cur2, t2) = diff_step((chunks, cur, t), line, m);
        if t + joiner + lt > m {
            if cur.len() == 0 {
                lemma_concat_add(chunks, long_line_chunks(line, m));
                lemma_without_breaks_add(concat_all(chunks), line);
                assert(concat_all(chunks) + cur =~= concat_all(chunks));
                lemma_without_breaks_add(concat_all(chunks) + line, cur);
                assert(concat_all(chunks) + line + cur =~= concat_all(chunks) + line);
            } else if lt > m {
                lemma_concat_add(chunks.push(cur), long_line_chunks(line, m));
                lemma_concat_push(chunks, cur);
                lemma_without_breaks_add(concat_all(chunks) + cur, line);
                assert(concat_all(c2) + cur2 =~= concat_all(chunks) + cur + line);
            } else {
                lemma_concat_push(chunks, cur);
                lemma_without_breaks_add(concat_all(chunks) + cur, line);
            }
        } else if joiner == 1 {
            lemma_without_breaks_add(concat_all(chunks) + cur, seq!['\n']);
            lemma_without_breaks_add(concat_all(chunks) + cur + seq!['\n'], line);
            assert(seq!['\n'].drop_last() =~= Seq::<char>::empty());
            assert(seq!['\n'].last() == '\n');
            assert(without_breaks(Seq::<char>::empty()) == Seq::<char>::empty());
            assert(without_breaks(seq!['\n']) == without_breaks(seq!['\n'].drop_last())
                + Seq::<char>::empty());
            assert(without_breaks(seq!['\n']) =~= Seq::<char>::empty());
            assert(concat_all(chunks) + (cur + seq!['\n'] + line) =~= concat_all(chunks) + cur
                + seq!['\n'] + line);
        } else {
            lemma_without_breaks_add(concat_all(chunks) + cur, line);
            assert(concat_all(chunks) + (cur + line) =~= concat_all(chunks) + cur + line);
        }
    }
}

/// Splitting a diff loses no character of it, whatever the token counts of
/// its lines: the chunks one after the other, once line breaks are taken
/// out, are the diff with its line breaks taken out. Every line is kept, in
/// order, over-long lines included.
pub proof fn law_split_diff_keeps_every_character(diff: Seq<char>, max_tokens: nat)
    ensures
        without_breaks(concat_all(diff_split(diff, max_tokens))) == without_breaks(diff),
{
    let m = effective_budget(max_tokens);
    if token_count(diff) <= m {
        lemma_concat_push(Seq::empty(), diff);
        assert(seq![diff] =~= Seq::<Seq<char>>::empty().push(diff));
        assert(Seq::<char>::empty() + diff =~= diff);
    } else {
        let ls = lines(diff);
        lemma_diff_scan_without_breaks(ls, m);
        lemma_lines_without_breaks(diff);
        let (chunks, cur, t) = diff_scan(ls, m);
        lemma_without_breaks_add(concat_all(chunks), cur);
        if cur.len() > 0 {
            lemma_concat_push(chunks, cur);
        } else {
            assert(concat_all(chunks) + cur =~= concat_all(chunks));
        }
    }
}

} // verus!
