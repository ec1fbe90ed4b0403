//! Character-level text primitives shared by the rest of the library:
//! decimal rendering, joining, substring search, trimming and line
//! splitting, each with the meaning `std` documents for it.
use vstd::prelude::*;
use vstd::string::StrSliceExecFns;
use vstd::string::StringExecFns;

verus! {

broadcast use vstd::string::group_string_axioms;

// ---------------------------------------------------------------------------
// Building strings
// ---------------------------------------------------------------------------

/// Appends one character (`String::push`).
#[verifier::external_body]
pub(crate) fn push_char(s: &mut String, c: char)
    ensures
        final(s)@ == old(s)@.push(c),
{
    s.push(c);
}

/// The characters of a string slice, in order.
pub fn chars_of(s: &str) -> (r: Vec<char>)
    ensures
        r@ == s@,
{
    let mut r: Vec<char> = Vec::new();
    for c in it: s.chars()
        invariant
            it.seq() == s@,
            r@ == it.seq().take(it.index() as int),
    {
        r.push(c);
    }
    r
}

/// A string made of the characters `v[from..to]`.
pub fn string_of_range(v: &Vec<char>, from: usize, to: usize) -> (r: String)
    requires
        from <= to <= v.len(),
    ensures
        r@ == v@.subrange(from as int, to as int),
{
    let mut r = String::new();
    let mut i: usize = from;
    while i < to
        invariant
            from <= i <= to <= v.len(),
            r@ == v@.subrange(from as int, i as int),
        decreases to - i,
    {
        push_char(&mut r, v[i]);
        i = i + 1;
        assert(r@ == v@.subrange(from as int, i as int));
    }
    r
}

/// The concatenation of two string slices.
pub fn concat2(a: &str, b: &str) -> (r: String)
    ensures
        r@ == a@ + b@,
{
    let mut r = String::from_str(a);
    r.append(b);
    r
}

/// The concatenation of three string slices.
pub fn concat3(a: &str, b: &str, c: &str) -> (r: String)
    ensures
        r@ == a@ + b@ + c@,
{
    let mut r = String::from_str(a);
    r.append(b);
    r.append(c);
    r
}

// ---------------------------------------------------------------------------
// Decimal rendering of unsigned integers (what `{}` prints for a `usize`)
// ---------------------------------------------------------------------------

/// The ASCII digit for `d < 10`.
pub open spec fn digit_char(d: nat) -> char {
    ((48 + d) as u32) as char
}

/// The decimal representation of `n`, without leading zeros.
pub open spec fn decimal(n: nat) -> Seq<char>
    decreases n,
{
    if n < 10 {
        seq![digit_char(n)]
    } else {
        decimal(n / 10).push(digit_char(n % 10))
    }
}

fn digit(d: usize) -> (c: char)
    requires
        d < 10,
    ensures
        c == digit_char(d as nat),
{
    let b: u8 = 48u8 + d as u8;
    b as char
}

/// Renders `n` in decimal, as `format!("{n}")` does.
pub fn decimal_string(n: usize) -> (r: String)
    ensures
        r@ == decimal(n as nat),
    decreases n,
{
    if n < 10 {
        let mut r = String::new();
        push_char(&mut r, digit(n));
        r
    } else {
        let mut r = decimal_string(n / 10);
        push_char(&mut r, digit(n % 10));
        r
    }
}

// ---------------------------------------------------------------------------
// Joining
// ---------------------------------------------------------------------------

/// `parts` joined with `sep` between neighbours (`[..].join(sep)`).
pub open spec fn join(parts: Seq<Seq<char>>, sep: Seq<char>) -> Seq<char>
    decreases parts.len(),
{
    if parts.len() == 0 {
        Seq::empty()
    } else if parts.len() == 1 {
        parts[0]
    } else {
        join(parts.drop_last(), sep) + sep + parts.last()
    }
}

/// The views of a vector of strings.
pub open spec fn views(v: Seq<String>) -> Seq<Seq<char>> {
    v.map_values(|s: String| s@)
}

/// Joins `parts` with `sep` between neighbours.
pub fn join_strings(parts: &[String], sep: &str) -> (r: String)
    ensures
        r@ == join(views(parts@), sep@),
{
    let mut r = String::new();
    let mut i: usize = 0;
    while i < parts.len()
        invariant
            i <= parts.len(),
            r@ == join(views(parts@.take(i as int)), sep@),
        decreases parts.len() - i,
    {
        let ghost before = parts@.take(i as int);
        if i > 0 {
            r.append(sep);
        }
        r.append(parts[i].as_str());
        i = i + 1;
        assert(views(parts@.take(i as int)).drop_last() =~= views(before));
    }
    assert(parts@.take(parts.len() as int) =~= parts@);
    r
}

// ---------------------------------------------------------------------------
// Substring search (`str::contains` with a string pattern)
// ---------------------------------------------------------------------------

/// `needle` occurs in `hay` at position `i`.
pub open spec fn occurs_at(hay: Seq<char>, needle: Seq<char>, i: int) -> bool {
    0 <= i && i + needle.len() <= hay.len() && hay.subrange(i, i + needle.len()) == needle
}

/// `needle` occurs somewhere in `hay`.
pub open spec fn contains(hay: Seq<char>, needle: Seq<char>) -> bool {
    exists|i: int| occurs_at(hay, needle, i)
}

fn matches_at(hay: &Vec<char>, needle: &Vec<char>, i: usize) -> (r: bool)
    requires
        i + needle.len() <= hay.len(),
    ensures
        r == occurs_at(hay@, needle@, i as int),
{
    let mut k: usize = 0;
    while k < needle.len()
        invariant
            i + needle.len() <= hay.len(),
            k <= needle.len(),
            forall|j: int| 0 <= j < k ==> hay@[i + j] == needle@[j],
        decreases needle.len() - k,
    {
        if hay[i + k] != needle[k] {
            assert(hay@.subrange(i as int, i + needle.len())[k as int] != needle@[k as int]);
            return false;
        }
        k = k + 1;
    }
    assert(hay@.subrange(i as int, i + needle.len()) =~= needle@);
    true
}

/// Whether `needle` occurs in `hay`, over character vectors.
pub fn contains_chars(hay: &Vec<char>, needle: &Vec<char>) -> (r: bool)
    ensures
        r == contains(hay@, needle@),
{
    if needle.len() > hay.len() {
        assert forall|i: int| !occurs_at(hay@, needle@, i) by {}
        return false;
    }
    let last = hay.len() - needle.len();
    let mut i: usize = 0;
    while i < last
        invariant
            last == hay.len() - needle.len(),
            needle.len() <= hay.len(),
            i <= last,
            forall|j: int| 0 <= j < i ==> !occurs_at(hay@, needle@, j),
        decreases last - i,
    {
        if matches_at(hay, needle, i) {
            return true;
        }
        i = i + 1;
    }
    if matches_at(hay, needle, last) {
        return true;
    }
    assert forall|j: int| !occurs_at(hay@, needle@, j) by {
        if 0 <= j < i {
        }
    }
    false
}

/// Whether `needle` occurs in `hay` (`str::contains`).
pub fn contains_str(hay: &str, needle: &str) -> (r: bool)
    ensures
        r == contains(hay@, needle@),
{
    let h = chars_of(hay);
    let n = chars_of(needle);
    contains_chars(&h, &n)
}

// ---------------------------------------------------------------------------
// Equality
// ---------------------------------------------------------------------------

/// Whether two string slices hold the same characters.
pub fn str_equals(a: &str, b: &str) -> (r: bool)
    ensures
        r == (a@ == b@),
{
    let x = chars_of(a);
    let y = chars_of(b);
    if x.len() != y.len() {
        return false;
    }
    let mut i: usize = 0;
    while i < x.len()
        invariant
            x@ == a@,
            y@ == b@,
            x.len() == y.len(),
            i <= x.len(),
            forall|k: int| 0 <= k < i ==> x@[k] == y@[k],
        decreases x.len() - i,
    {
        if x[i] != y[i] {
            assert(a@[i as int] != b@[i as int]);
            return false;
        }
        i = i + 1;
    }
    assert(x@ =~= y@);
    true
}

/// The view of an optional string.
pub open spec fn opt_view(o: Option<String>) -> Option<Seq<char>> {
    match o {
        Some(s) => Some(s@),
        None => None,
    }
}

/// A copy of an optional string.
pub fn clone_opt(o: &Option<String>) -> (r: Option<String>)
    ensures
        opt_view(r) == opt_view(*o),
{
    match o {
        Some(s) => Some(s.clone()),
        None => None,
    }
}

// ---------------------------------------------------------------------------
// Whitespace and trimming (`char::is_whitespace`, `str::trim`)
// ---------------------------------------------------------------------------

/// Unicode `White_Space`, the property `char::is_whitespace` tests.
pub open spec fn is_whitespace(c: char) -> bool {
    let u = c as u32;
    ||| 0x09 <= u <= 0x0d
    ||| u == 0x20
    ||| u == 0x85
    ||| u == 0xa0
    ||| u == 0x1680
    ||| 0x2000 <= u <= 0x200a
    ||| u == 0x2028
    ||| u == 0x2029
    ||| u == 0x202f
    ||| u == 0x205f
    ||| u == 0x3000
}

/// Whether `c` is Unicode whitespace.
pub fn char_is_whitespace(c: char) -> (r: bool)
    ensures
        r == is_whitespace(c),
{
    let u = c as u32;
    (0x09 <= u && u <= 0x0d) || u == 0x20 || u == 0x85 || u == 0xa0 || u == 0x1680 || (0x2000
        <= u && u <= 0x200a) || u == 0x2028 || u == 0x2029 || u == 0x202f || u == 0x205f || u
        == 0x3000
}

/// `s` without its leading whitespace.
pub open spec fn trim_start(s: Seq<char>) -> Seq<char>
    decreases s.len(),
{
    if s.len() > 0 && is_whitespace(s[0]) {
        trim_start(s.drop_first())
    } else {
        s
    }
}

/// `s` without its trailing whitespace.
pub open spec fn trim_end(s: Seq<char>) -> Seq<char>
    decreases s.len(),
{
    if s.len() > 0 && is_whitespace(s.last()) {
        trim_end(s.drop_last())
    } else {
        s
    }
}

/// `s` without leading and trailing whitespace.
pub open spec fn trim(s: Seq<char>) -> Seq<char> {
    trim_end(trim_start(s))
}

/// Whether a string is empty once trimmed.
pub open spec fn is_blank(s: Seq<char>) -> bool {
    trim(s).len() == 0
}

proof fn lemma_trim_start_at(s: Seq<char>, i: int)
    requires
        0 <= i <= s.len(),
        forall|j: int| 0 <= j < i ==> is_whitespace(s[j]),
        i < s.len() ==> !is_whitespace(s[i]),
    ensures
        trim_start(s) == s.subrange(i, s.len() as int),
    decreases i,
{
    if i == 0 {
        assert(s.subrange(0, s.len() as int) =~= s);
    } else {
        lemma_trim_start_at(s.drop_first(), i - 1);
        assert(s.drop_first().subrange(i - 1, s.len() - 1) =~= s.subrange(i, s.len() as int));
    }
}

proof fn lemma_trim_end_at(s: Seq<char>, j: int)
    requires
        0 <= j <= s.len(),
        forall|k: int| j <= k < s.len() ==> is_whitespace(s[k]),
        j > 0 ==> !is_whitespace(s[j - 1]),
    ensures
        trim_end(s) == s.subrange(0, j),
    decreases s.len() - j,
{
    if j == s.len() {
        assert(s.subrange(0, j) =~= s);
    } else {
        lemma_trim_end_at(s.drop_last(), j);
        assert(s.drop_last().subrange(0, j) =~= s.subrange(0, j));
    }
}

/// Character bounds `[start, end)` of the trimmed part of `v`.
fn trim_bounds(v: &Vec<char>) -> (r: (usize, usize))
    ensures
        r.0 <= r.1 <= v.len(),
        trim(v@) == v@.subrange(r.0 as int, r.1 as int),
{
    let mut i: usize = 0;
    while i < v.len() && char_is_whitespace(v[i])
        invariant
            i <= v.len(),
            forall|j: int| 0 <= j < i ==> is_whitespace(v@[j]),
        decreases v.len() - i,
    {
        i = i + 1;
    }
    proof {
        lemma_trim_start_at(v@, i as int);
    }
    let ghost t = v@.subrange(i as int, v.len() as int);
    let mut j: usize = v.len();
    while j > i && char_is_whitespace(v[j - 1])
        invariant
            i <= j <= v.len(),
            t == v@.subrange(i as int, v.len() as int),
            forall|k: int| j <= k < v.len() ==> is_whitespace(v@[k]),
        decreases j - i,
    {
        j = j - 1;
    }
    proof {
        lemma_trim_end_at(t, j - i);
        assert(t.subrange(0, j - i) =~= v@.subrange(i as int, j as int));
    }
    (i, j)
}

/// `s` with leading and trailing whitespace removed (`str::trim`).
pub fn trim_str(s: &str) -> (r: String)
    ensures
        r@ == trim(s@),
{
    let v = chars_of(s);
    let (i, j) = trim_bounds(&v);
    string_of_range(&v, i, j)
}

/// Whether `s` is empty or only whitespace (`s.trim().is_empty()`).
pub fn is_blank_str(s: &str) -> (r: bool)
    ensures
        r == is_blank(s@),
{
    let v = chars_of(s);
    let (i, j) = trim_bounds(&v);
    i == j
}

// ---------------------------------------------------------------------------
// Words (`str::split_whitespace`)
// ---------------------------------------------------------------------------

/// Reading `s` left to right: how many words (maximal runs of
/// non-whitespace characters) have begun, and whether one is open.
pub open spec fn word_scan(s: Seq<char>) -> (nat, bool)
    decreases s.len(),
{
    if s.len() == 0 {
        (0, false)
    } else {
        let (n, open) = word_scan(s.drop_last());
        if is_whitespace(s.last()) {
            (n, false)
        } else if open {
            (n, true)
        } else {
            (n + 1, true)
        }
    }
}

/// The number of words of `s`, as `s.split_whitespace().count()` counts.
pub open spec fn whitespace_words(s: Seq<char>) -> nat {
    word_scan(s).0
}

proof fn lemma_all_whitespace_is_blank(s: Seq<char>)
    requires
        forall|j: int| 0 <= j < s.len() ==> is_whitespace(s[j]),
    ensures
        is_blank(s),
{
    lemma_trim_start_at(s, s.len() as int);
    assert(s.subrange(s.len() as int, s.len() as int) =~= Seq::<char>::empty());
}

/// The number of words of `s` (`s.split_whitespace().count()`): never more
/// than its characters, and at least one unless `s` is blank.
pub fn whitespace_word_count(s: &str) -> (r: usize)
    ensures
        r == whitespace_words(s@),
        r <= s@.len(),
        !is_blank(s@) ==> r >= 1,
{
    let v = chars_of(s);
    let mut count: usize = 0;
    let mut open = false;
    let mut i: usize = 0;
    while i < v.len()
        invariant
            i <= v.len(),
            v@ == s@,
            (count as nat, open) == word_scan(v@.take(i as int)),
            count <= i,
            open ==> count >= 1,
            count == 0 ==> forall|j: int| 0 <= j < i ==> is_whitespace(v@[j]),
        decreases v.len() - i,
    {
        assert(v@.take(i + 1).drop_last() =~= v@.take(i as int));
        assert(v@.take(i + 1).last() == v@[i as int]);
        if char_is_whitespace(v[i]) {
            open = false;
        } else if !open {
            count = count + 1;
            open = true;
        }
        i = i + 1;
    }
    assert(v@.take(v.len() as int) =~= v@);
    proof {
        if count == 0 {
            lemma_all_whitespace_is_blank(s@);
        }
    }
    count
}

// ---------------------------------------------------------------------------
// Lines (`str::lines`)
// ---------------------------------------------------------------------------

/// `line` without one trailing carriage return, if it has one.
pub open spec fn strip_cr(line: Seq<char>) -> Seq<char> {
    if line.len() > 0 && line.last() == '\r' {
        line.drop_last()
    } else {
        line
    }
}

/// Reading `p` left to right: the lines completed so far (each ended by
/// `\n`, with a `\r` just before that `\n` removed) and the text after the
/// last `\n`.
pub open spec fn line_scan(p: Seq<char>) -> (Seq<Seq<char>>, Seq<char>)
    decreases p.len(),
{
    if p.len() == 0 {
        (Seq::empty(), Seq::empty())
    } else {
        let (done, cur) = line_scan(p.drop_last());
        if p.last() == '\n' {
            (done.push(strip_cr(cur)), Seq::empty())
        } else {
            (done, cur.push(p.last()))
        }
    }
}

/// The lines of `s`, as `str::lines` yields them: split at `\n` (and
/// `\r\n`), with no empty line after a final line ending.
pub open spec fn lines(s: Seq<char>) -> Seq<Seq<char>> {
    let (done, cur) = line_scan(s);
    if cur.len() > 0 {
        done.push(cur)
    } else {
        done
    }
}

/// Lines of `v` as strings.
pub fn lines_of_chars(v: &Vec<char>) -> (r: Vec<String>)
    ensures
        views(r@) == lines(v@),
{
    let mut done: Vec<String> = Vec::new();
    let mut start: usize = 0;
    let mut i: usize = 0;
    while i < v.len()
        invariant
            start <= i <= v.len(),
            (views(done@), v@.subrange(start as int, i as int)) == line_scan(v@.take(i as int)),
        decreases v.len() - i,
    {
        let c = v[i];
        assert(v@.take(i + 1).drop_last() =~= v@.take(i as int));
        if c == '\n' {
            let end = if i > start && v[i - 1] == '\r' {
                i - 1
            } else {
                i
            };
            assert(v@.subrange(start as int, end as int) =~= strip_cr(
                v@.subrange(start as int, i as int),
            ));
            done.push(string_of_range(v, start, end));
            start = i + 1;
        }
        i = i + 1;
        assert(views(done@) =~= line_scan(v@.take(i as int)).0);
        assert(v@.subrange(start as int, i as int) =~= line_scan(v@.take(i as int)).1);
    }
    assert(v@.take(v.len() as int) =~= v@);
    if start < v.len() {
        done.push(string_of_range(v, start, v.len()));
        assert(views(done@) =~= lines(v@));
    }
    done
}

/// The lines of `s` (`str::lines`).
pub fn lines_of(s: &str) -> (r: Vec<String>)
    ensures
        views(r@) == lines(s@),
{
    let v = chars_of(s);
    lines_of_chars(&v)
}

// ---------------------------------------------------------------------------
// Facts about joining and line splitting
// ---------------------------------------------------------------------------

/// Joining after pushing one more part adds the separator and that part.
pub proof fn lemma_join_push(parts: Seq<Seq<char>>, last: Seq<char>, sep: Seq<char>)
    ensures
        join(parts.push(last), sep) == if parts.len() == 0 {
            last
        } else {
            join(parts, sep) + sep + last
        },
{
    assert(parts.push(last).drop_last() =~= parts);
    if parts.len() == 0 {
        assert(parts.push(last)[0] == last);
    }
}

/// Extending the last part extends the joined text by the same characters.
pub proof fn lemma_join_extend_last(
    parts: Seq<Seq<char>>,
    last: Seq<char>,
    more: Seq<char>,
    sep: Seq<char>,
)
    ensures
        join(parts.push(last + more), sep) == join(parts.push(last), sep) + more,
{
    lemma_join_push(parts, last + more, sep);
    lemma_join_push(parts, last, sep);
    if parts.len() == 0 {
    } else {
        assert(join(parts, sep) + sep + (last + more) =~= join(parts, sep) + sep + last + more);
    }
}

/// Without carriage returns, the completed lines and the open text of a scan
/// join back (with newlines) to the text scanned.
proof fn lemma_line_scan_join(p: Seq<char>)
    requires
        forall|i: int| 0 <= i < p.len() ==> p[i] != '\r',
    ensures
        join(line_scan(p).0.push(line_scan(p).1), seq!['\n']) == p,
    decreases p.len(),
{
    if p.len() == 0 {
        lemma_join_push(Seq::empty(), Seq::empty(), seq!['\n']);
    } else {
        let q = p.drop_last();
        lemma_line_scan_join(q);
        let (done, cur) = line_scan(q);
        let c = p.last();
        if c == '\n' {
            if cur.len() > 0 {
                assert(cur.last() == q[q.len() - 1]);
            }
            assert(strip_cr(cur) == cur);
            lemma_join_push(done.push(cur), Seq::empty(), seq!['\n']);
            assert(q + seq!['\n'] + Seq::<char>::empty() =~= p);
        } else {
            lemma_join_extend_last(done, cur, seq![c], seq!['\n']);
            assert(cur.push(c) =~= cur + seq![c]);
            assert(q + seq![c] =~= p);
        }
    }
}

/// A text without carriage returns that does not end with a newline is its
/// lines joined with newlines.
pub proof fn lemma_lines_join(s: Seq<char>)
    requires
        forall|i: int| 0 <= i < s.len() ==> s[i] != '\r',
        s.len() == 0 || s.last() != '\n',
    ensures
        join(lines(s), seq!['\n']) == s,
{
    lemma_line_scan_join(s);
    let (done, cur) = line_scan(s);
    if s.len() > 0 {
        let q = s.drop_last();
        let (d0, c0) = line_scan(q);
        assert(cur == c0.push(s.last()));
    }
}

proof fn lemma_line_scan_append(p: Seq<char>, q: Seq<char>)
    requires
        forall|i: int| 0 <= i < q.len() ==> q[i] != '\n',
    ensures
        line_scan(p + q) == (line_scan(p).0, line_scan(p).1 + q),
    decreases q.len(),
{
    if q.len() == 0 {
        assert(p + q =~= p);
        assert(line_scan(p).1 + q =~= line_scan(p).1);
    } else {
        let q1 = q.drop_last();
        lemma_line_scan_append(p, q1);
        assert((p + q).drop_last() =~= p + q1);
        assert((p + q).last() == q[q.len() - 1]);
        assert((line_scan(p).1 + q1).push(q.last()) =~= line_scan(p).1 + q);
    }
}

/// Parts without line breaks, joined with newlines: every part but the last
/// is a completed line and the last is the open text.
proof fn lemma_line_scan_of_join(ls: Seq<Seq<char>>)
    requires
        ls.len() > 0,
        forall|k: int, i: int|
            0 <= k < ls.len() && 0 <= i < ls[k].len() ==> #[trigger] ls[k][i] != '\n' && ls[k][i]
                != '\r',
    ensures
        line_scan(join(ls, seq!['\n'])) == (ls.drop_last(), ls.last()),
    decreases ls.len(),
{
    let nl = seq!['\n'];
    let l = ls.last();
    assert forall|i: int| 0 <= i < l.len() implies l[i] != '\n' by {
        assert(ls[ls.len() - 1][i] != '\n');
    }
    if ls.len() == 1 {
        lemma_line_scan_append(Seq::empty(), l);
        assert(Seq::<char>::empty() + l =~= l);
        assert(ls.drop_last() =~= Seq::<Seq<char>>::empty());
    } else {
        let prev = ls.drop_last();
        assert forall|k: int, i: int| 0 <= k < prev.len() && 0 <= i < prev[k].len() implies #[trigger] prev[k][i]
            != '\n' && prev[k][i] != '\r' by {
            assert(prev[k] == ls[k]);
        }
        lemma_line_scan_of_join(prev);
        let j = join(prev, nl);
        let pl = prev.last();
        assert(pl == ls[ls.len() - 2]);
        if pl.len() > 0 {
            assert(pl.last() == ls[ls.len() - 2][pl.len() - 1]);
        }
        assert(strip_cr(pl) == pl);
        assert((j + nl).drop_last() =~= j);
        assert(line_scan(j + nl) == (prev.drop_last().push(pl), Seq::<char>::empty()));
        assert(prev.drop_last().push(pl) =~= prev);
        lemma_line_scan_append(j + nl, l);
        assert(join(ls, nl) == j + nl + l);
        assert(Seq::<char>::empty() + l =~= l);
    }
}

/// Non-empty parts without line breaks, joined with newlines, split back
/// into the same lines.
pub proof fn lemma_lines_of_join(ls: Seq<Seq<char>>)
    requires
        forall|k: int| 0 <= k < ls.len() ==> (#[trigger] ls[k]).len() > 0,
        forall|k: int, i: int|
            0 <= k < ls.len() && 0 <= i < ls[k].len() ==> #[trigger] ls[k][i] != '\n' && ls[k][i]
                != '\r',
    ensures
        lines(join(ls, seq!['\n'])) == ls,
{
    if ls.len() > 0 {
        lemma_line_scan_of_join(ls);
        assert(ls.last() == ls[ls.len() - 1]);
        assert(ls.drop_last().push(ls.last()) =~= ls);
    } else {
        assert(lines(Seq::<char>::empty()) =~= ls);
    }
}

/// Parts without carriage returns joined with newlines hold no carriage
/// return, and a non-empty last part without a line break means the text
/// does not end with a newline.
pub proof fn lemma_join_lines_shape(ls: Seq<Seq<char>>)
    requires
        ls.len() > 0,
        ls.last().len() > 0,
        forall|k: int, i: int|
            0 <= k < ls.len() && 0 <= i < ls[k].len() ==> #[trigger] ls[k][i] != '\n' && ls[k][i]
                != '\r',
    ensures
        forall|i: int|
            0 <= i < join(ls, seq!['\n']).len() ==> join(ls, seq!['\n'])[i] != '\r',
        join(ls, seq!['\n']).len() > 0,
        join(ls, seq!['\n']).last() != '\n',
    decreases ls.len(),
{
    let nl = seq!['\n'];
    let l = ls.last();
    assert(l.last() == ls[ls.len() - 1][l.len() - 1]);
    if ls.len() == 1 {
        assert forall|i: int| 0 <= i < l.len() implies l[i] != '\r' by {
            assert(ls[0][i] != '\r');
        }
    } else {
        let prev = ls.drop_last();
        assert forall|k: int, i: int| 0 <= k < prev.len() && 0 <= i < prev[k].len() implies #[trigger] prev[k][i]
            != '\n' && prev[k][i] != '\r' by {
            assert(prev[k] == ls[k]);
        }
        if prev.last().len() > 0 {
            lemma_join_lines_shape(prev);
        } else {
            lemma_join_no_cr(prev);
        }
        let j = join(prev, nl);
        assert(join(ls, nl) == j + nl + l);
        assert forall|i: int| 0 <= i < join(ls, nl).len() implies join(ls, nl)[i] != '\r' by {
            if i < j.len() {
                assert(join(ls, nl)[i] == j[i]);
            } else if i == j.len() {
                assert(join(ls, nl)[i] == '\n');
            } else {
                assert(join(ls, nl)[i] == l[i - j.len() - 1]);
                assert(ls[ls.len() - 1][i - j.len() - 1] != '\r');
            }
        }
        assert(join(ls, nl).last() == l.last());
    }
}

proof fn lemma_join_no_cr(ls: Seq<Seq<char>>)
    requires
        forall|k: int, i: int|
            0 <= k < ls.len() && 0 <= i < ls[k].len() ==> #[trigger] ls[k][i] != '\r',
    ensures
        forall|i: int|
            0 <= i < join(ls, seq!['\n']).len() ==> join(ls, seq!['\n'])[i] != '\r',
    decreases ls.len(),
{
    let nl = seq!['\n'];
    if ls.len() == 1 {
        assert forall|i: int| 0 <= i < ls[0].len() implies ls[0][i] != '\r' by {}
    } else if ls.len() > 1 {
        let prev = ls.drop_last();
        assert forall|k: int, i: int| 0 <= k < prev.len() && 0 <= i < prev[k].len() implies #[trigger] prev[k][i]
            != '\r' by {
            assert(prev[k] == ls[k]);
        }
        lemma_join_no_cr(prev);
        let j = join(prev, nl);
        let l = ls.last();
        assert forall|i: int| 0 <= i < join(ls, nl).len() implies join(ls, nl)[i] != '\r' by {
            if i < j.len() {
                assert(join(ls, nl)[i] == j[i]);
            } else if i == j.len() {
                assert(join(ls, nl)[i] == '\n');
            } else {
                assert(join(ls, nl)[i] == l[i - j.len() - 1]);
                assert(ls[ls.len() - 1][i - j.len() - 1] != '\r');
            }
        }
    }
}

// ---------------------------------------------------------------------------
// UTF-8 sizes (`char::len_utf8`, `str::len`)
// ---------------------------------------------------------------------------

/// Bytes that `c` takes in UTF-8.
pub open spec fn utf8_width(c: char) -> nat {
    let u = c as u32;
    if u < 0x80 {
        1
    } else if u < 0x800 {
        2
    } else if u < 0x10000 {
        3
    } else {
        4
    }
}

/// Bytes that `s` takes in UTF-8.
pub open spec fn utf8_size(s: Seq<char>) -> nat
    decreases s.len(),
{
    if s.len() == 0 {
        0
    } else {
        utf8_size(s.drop_last()) + utf8_width(s.last())
    }
}

/// Every character takes at least one byte.
pub proof fn lemma_utf8_size_at_least_len(s: Seq<char>)
    ensures
        utf8_size(s) >= s.len(),
    decreases s.len(),
{
    if s.len() > 0 {
        lemma_utf8_size_at_least_len(s.drop_last());
    }
}

/// A text that is not blank has at least one character.
pub proof fn lemma_not_blank_nonempty(s: Seq<char>)
    requires
        !is_blank(s),
    ensures
        s.len() > 0,
{
    if s.len() == 0 {
        assert(trim_start(s) == s);
        assert(trim_end(s) == s);
    }
}

/// Bytes that `c` takes in UTF-8 (`char::len_utf8`).
pub fn char_utf8_width(c: char) -> (r: usize)
    ensures
        r == utf8_width(c),
        1 <= r <= 4,
{
    let u = c as u32;
    if u < 0x80 {
        1
    } else if u < 0x800 {
        2
    } else if u < 0x10000 {
        3
    } else {
        4
    }
}

/// A character prefix of `s` takes exactly `n` bytes: `n` is a character
/// boundary of `s` (`str::is_char_boundary`).
pub open spec fn byte_boundary(s: Seq<char>, n: nat) -> bool {
    exists|k: int| 0 <= k <= s.len() && utf8_size(#[trigger] s.take(k)) == n
}

proof fn lemma_utf8_size_take_step(s: Seq<char>, k: int)
    requires
        0 <= k < s.len(),
    ensures
        utf8_size(s.take(k + 1)) == utf8_size(s.take(k)) + utf8_width(s[k]),
{
    assert(s.take(k + 1).drop_last() =~= s.take(k));
}

proof fn lemma_utf8_size_take_mono(s: Seq<char>, j: int, k: int)
    requires
        0 <= j < k <= s.len(),
    ensures
        utf8_size(s.take(j)) < utf8_size(s.take(k)),
    decreases k - j,
{
    lemma_utf8_size_take_step(s, k - 1);
    if j < k - 1 {
        lemma_utf8_size_take_mono(s, j, k - 1);
    }
}

/// The first `n` bytes of `s` (`&s[..n]`), which must end on a character
/// boundary.
pub fn byte_prefix(s: &str, n: usize) -> (r: String)
    requires
        byte_boundary(s@, n as nat),
    ensures
        r@.len() <= s@.len(),
        r@ == s@.take(r@.len() as int),
        utf8_size(r@) == n,
{
    let v = chars_of(s);
    let ghost k = choose|k: int| 0 <= k <= s@.len() && utf8_size(#[trigger] s@.take(k)) == n;
    let mut i: usize = 0;
    let mut bytes: usize = 0;
    while bytes < n
        invariant
            v@ == s@,
            0 <= k <= v.len(),
            utf8_size(v@.take(k)) == n,
            i <= k,
            bytes == utf8_size(v@.take(i as int)),
            bytes <= n,
        decreases k - i,
    {
        proof {
            if i == k {
                assert(false);
            }
            lemma_utf8_size_take_step(v@, i as int);
            if i + 1 < k {
                lemma_utf8_size_take_mono(v@, i + 1, k);
            }
        }
        bytes = bytes + char_utf8_width(v[i]);
        i = i + 1;
    }
    assert(v@.subrange(0, i as int) =~= v@.take(i as int));
    string_of_range(&v, 0, i)
}

// ---------------------------------------------------------------------------
// Lower case (`str::to_lowercase`)
// ---------------------------------------------------------------------------

/// What `str::to_lowercase` returns for a string: Unicode lower-case mapping
/// of every character, which depends on the characters alone.
pub uninterp spec fn lowercase(s: Seq<char>) -> Seq<char>;

/// Calls `str::to_lowercase`. The contract claims only that the result is a
/// function of the characters of `s` (named `lowercase`); the Unicode case
/// tables it applies are not written out here.
#[verifier::external_body]
pub(crate) fn to_lowercase(s: &str) -> (r: String)
    ensures
        r@ == lowercase(s@),
{
    s.to_lowercase()
}

} // verus!
