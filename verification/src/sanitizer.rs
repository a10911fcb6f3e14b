//! The patch sanitizer: strips terminal escape noise from agent output,
//! extracts the unified-diff body between formatting fences, and guarantees
//! a single trailing newline.

use vstd::prelude::*;
use vstd::string::StrSliceExecFns;

use crate::text::{
    control_char, first_nl, is_control_char, is_ws_char, join_lines, join_nl, lemma_first_nl_is,
    lines_spec, split_lines, str_chars, string_of_chars, strip_tail_cr, subvec, trim_start_rec,
    ws_char,
};

verus! {

/// The escape character that opens a terminal control sequence.
pub open spec fn esc_char() -> char {
    '\u{1b}'
}

/// A byte that terminates a CSI control sequence: ASCII `'@'` to `'~'`.
pub open spec fn csi_final(c: char) -> bool {
    0x40 <= c as u32 && c as u32 <= 0x7E
}

/// Number of characters a CSI sequence body occupies: everything up to and
/// including its final byte, or all of `s` if no final byte occurs.
pub open spec fn csi_len(s: Seq<char>) -> int
    decreases s.len(),
{
    if s.len() == 0 {
        0
    } else if csi_final(s[0]) {
        1
    } else {
        1 + csi_len(s.skip(1))
    }
}

pub proof fn lemma_csi_len_bounds(s: Seq<char>)
    ensures
        0 <= csi_len(s) <= s.len(),
    decreases s.len(),
{
    if s.len() > 0 && !csi_final(s[0]) {
        lemma_csi_len_bounds(s.skip(1));
    }
}

/// A final byte at position `m - 1`, with none before it, pins `csi_len`.
proof fn lemma_csi_len_found(s: Seq<char>, m: int)
    requires
        1 <= m <= s.len(),
        csi_final(s[m - 1]),
        forall|k: int| 0 <= k < m - 1 ==> !csi_final(s[k]),
    ensures
        csi_len(s) == m,
    decreases m,
{
    if m > 1 {
        assert(forall|k: int| 0 <= k < m - 2 ==> s.skip(1)[k] == s[k + 1]);
        assert(s.skip(1)[m - 2] == s[m - 1]);
        lemma_csi_len_found(s.skip(1), m - 1);
    }
}

/// With no final byte at all, `csi_len` swallows everything.
proof fn lemma_csi_len_all(s: Seq<char>)
    requires
        forall|k: int| 0 <= k < s.len() ==> !csi_final(s[k]),
    ensures
        csi_len(s) == s.len(),
    decreases s.len(),
{
    if s.len() > 0 {
        assert(forall|k: int| 0 <= k < s.skip(1).len() ==> s.skip(1)[k] == s[k + 1]);
        lemma_csi_len_all(s.skip(1));
    }
}

/// How many characters an escape sequence starting at `s[0]` consumes:
/// the escape alone if it ends the text, the escape plus one unknown
/// follower, or the escape, the `'['` and the CSI body.
pub open spec fn ansi_skip(s: Seq<char>) -> int {
    if s.len() <= 1 {
        1
    } else if s[1] == '[' {
        2 + csi_len(s.skip(2))
    } else {
        2
    }
}

pub proof fn lemma_ansi_skip_bounds(s: Seq<char>)
    requires
        s.len() >= 1,
    ensures
        1 <= ansi_skip(s) <= s.len(),
{
    if s.len() > 1 && s[1] == '[' {
        lemma_csi_len_bounds(s.skip(2));
    }
}

/// A control character that the sanitizer removes: anything in the control
/// category except newline and tab.
pub open spec fn stripped_control(c: char) -> bool {
    control_char(c) && c != '\n' && c != '\t'
}

/// The text without terminal escape sequences and stray control characters,
/// as the sanitizer's first pass leaves it.
pub open spec fn strip_ansi(s: Seq<char>) -> Seq<char>
    decreases s.len(),
{
    if s.len() == 0 {
        Seq::empty()
    } else if s[0] == esc_char() {
        let k = ansi_skip(s);
        if 1 <= k <= s.len() {
            strip_ansi(s.skip(k))
        } else {
            Seq::empty()
        }
    } else if stripped_control(s[0]) {
        strip_ansi(s.skip(1))
    } else {
        seq![s[0]] + strip_ansi(s.skip(1))
    }
}

/// Text free of escape sequences and stripped control characters passes
/// through the first pass unchanged.
pub proof fn lemma_strip_ansi_id(s: Seq<char>)
    requires
        forall|k: int| 0 <= k < s.len() ==> !stripped_control(s[k]) && s[k] != esc_char(),
    ensures
        strip_ansi(s) == s,
    decreases s.len(),
{
    if s.len() > 0 {
        assert(forall|k: int| 0 <= k < s.skip(1).len() ==> s.skip(1)[k] == s[k + 1]);
        lemma_strip_ansi_id(s.skip(1));
        assert(seq![s[0]] + s.skip(1) =~= s);
    }
}

/// Removes escape sequences and control characters other than newline and
/// tab, the way the agent transcript is scrubbed before further parsing.
pub fn strip_ansi_chars(v: &Vec<char>) -> (r: Vec<char>)
    ensures
        r@ == strip_ansi(v@),
{
    let n = v.len();
    let mut r: Vec<char> = Vec::new();
    let mut i: usize = 0;
    proof {
        assert(v@.skip(0) =~= v@);
    }
    while i < n
        invariant
            n == v@.len(),
            i <= n,
            strip_ansi(v@) == r@ + strip_ansi(v@.skip(i as int)),
        decreases n - i,
    {
        let ghost rest = v@.skip(i as int);
        let c = v[i];
        if c == '\u{1b}' {
            // measure the escape sequence
            let k: usize;
            if i + 1 >= n {
                k = 1;
            } else if v[i + 1] == '[' {
                let mut j: usize = i + 2;
                let mut found = false;
                while j < n && !found
                    invariant
                        n == v@.len(),
                        i + 2 <= j <= n,
                        !found ==> forall|t: int| i + 2 <= t < j ==> !csi_final(v@[t]),
                        found ==> j >= i + 3 && csi_final(v@[j - 1]) && forall|t: int|
                            i + 2 <= t < j - 1 ==> !csi_final(v@[t]),
                    decreases n - j,
                {
                    let u = v[j] as u32;
                    if 0x40 <= u && u <= 0x7E {
                        found = true;
                    }
                    j = j + 1;
                }
                proof {
                    let t = v@.skip(i + 2);
                    assert(forall|m: int| 0 <= m < t.len() ==> t[m] == v@[m + i + 2]);
                    if found {
                        lemma_csi_len_found(t, j - i - 2);
                    } else {
                        lemma_csi_len_all(t);
                    }
                }
                k = j - i;
            } else {
                k = 2;
            }
            proof {
                assert(rest.len() >= 1 && rest[0] == esc_char());
                assert(forall|m: int| 0 <= m < rest.len() ==> rest[m] == v@[m + i]);
                if i + 1 >= n {
                    assert(rest.len() == 1);
                    assert(ansi_skip(rest) == 1);
                } else if v@[i + 1] == '[' {
                    assert(rest[1] == '[');
                    assert(rest.skip(2) =~= v@.skip(i + 2));
                    assert(ansi_skip(rest) == 2 + csi_len(v@.skip(i + 2)));
                } else {
                    assert(rest[1] != '[');
                    assert(ansi_skip(rest) == 2);
                }
                assert(ansi_skip(rest) == k);
                lemma_ansi_skip_bounds(rest);
                assert(strip_ansi(rest) == strip_ansi(rest.skip(k as int)));
                assert(rest.skip(k as int) =~= v@.skip(i + k));
            }
            i = i + k;
        } else if is_control_char(c) && c != '\n' && c != '\t' {
            proof {
                assert(rest[0] == c);
                assert(strip_ansi(rest) == strip_ansi(rest.skip(1)));
                assert(rest.skip(1) =~= v@.skip(i + 1));
            }
            i = i + 1;
        } else {
            r.push(c);
            proof {
                assert(rest[0] == c);
                assert(!stripped_control(c) && c != esc_char());
                assert(strip_ansi(rest) == seq![c] + strip_ansi(rest.skip(1)));
                assert(rest.skip(1) =~= v@.skip(i + 1));
                assert(r@ + strip_ansi(v@.skip(i + 1)) =~= strip_ansi(v@));
            }
            i = i + 1;
        }
    }
    proof {
        assert(v@.skip(n as int) =~= Seq::<char>::empty());
        assert(r@ =~= strip_ansi(v@));
    }
    r
}

/// Whether the characters of `p` begin the suffix of `v` that starts at
/// `at`.
pub fn chars_start_with_at(v: &Vec<char>, at: usize, p: &str) -> (r: bool)
    requires
        at <= v@.len(),
    ensures
        r == p@.is_prefix_of(v@.skip(at as int)),
{
    let n = p.unicode_len();
    let vn = v.len();
    let ghost t = v@.skip(at as int);
    if vn - at < n {
        proof {
            assert(!p@.is_prefix_of(t));
        }
        return false;
    }
    let mut k: usize = 0;
    while k < n
        invariant
            n == p@.len(),
            vn == v@.len(),
            at + n <= vn,
            t == v@.skip(at as int),
            k <= n,
            forall|m: int| 0 <= m < k ==> p@[m] == t[m],
        decreases n - k,
    {
        if p.get_char(k) != v[at + k] {
            proof {
                assert(t[k as int] == v@[at + k]);
                assert(!p@.is_prefix_of(t));
            }
            return false;
        }
        proof {
            assert(t[k as int] == v@[at + k]);
        }
        k = k + 1;
    }
    proof {
        assert(p@ =~= t.subrange(0, n as int));
    }
    true
}

/// Length of the run of leading white space, tied to `trim_start_rec`.
pub fn ws_prefix_len(v: &Vec<char>) -> (a: usize)
    ensures
        a <= v@.len(),
        trim_start_rec(v@) == v@.skip(a as int),
{
    let n = v.len();
    let mut a: usize = 0;
    while a < n && is_ws_char(v[a])
        invariant
            n == v@.len(),
            a <= n,
            forall|j: int| 0 <= j < a ==> ws_char(v@[j]),
        decreases n - a,
    {
        a = a + 1;
    }
    proof {
        crate::text::lemma_trim_start_skip(v@, a as int);
        if a < n {
            assert(trim_start_rec(v@.skip(a as int)) == v@.skip(a as int));
        } else {
            assert(v@.skip(a as int) =~= Seq::<char>::empty());
        }
    }
    a
}

/// A formatting fence: after leading white space the line opens with three
/// backticks.
pub open spec fn fence_line(l: Seq<char>) -> bool {
    "```"@.is_prefix_of(trim_start_rec(l))
}

/// A line that can begin a unified diff: a diff header, a file marker, a
/// hunk header, or an index line.
pub open spec fn diff_start_line(l: Seq<char>) -> bool {
    "diff "@.is_prefix_of(l) || "--- "@.is_prefix_of(l) || "+++ "@.is_prefix_of(l)
        || "@@ "@.is_prefix_of(l) || "index "@.is_prefix_of(l)
}

/// Executable test for `fence_line`.
pub fn is_fence_line(l: &Vec<char>) -> (r: bool)
    ensures
        r == fence_line(l@),
{
    let a = ws_prefix_len(l);
    chars_start_with_at(l, a, "```")
}

/// Executable test for `diff_start_line`.
pub fn is_diff_start_line(l: &Vec<char>) -> (r: bool)
    ensures
        r == diff_start_line(l@),
{
    proof {
        assert(l@.skip(0) =~= l@);
    }
    chars_start_with_at(l, 0, "diff ") || chars_start_with_at(l, 0, "--- ")
        || chars_start_with_at(l, 0, "+++ ") || chars_start_with_at(l, 0, "@@ ")
        || chars_start_with_at(l, 0, "index ")
}

/// Index of the first line satisfying `p`, or the number of lines if none
/// does.
pub open spec fn first_idx(ls: Seq<Seq<char>>, p: spec_fn(Seq<char>) -> bool) -> int
    decreases ls.len(),
{
    if ls.len() == 0 {
        0
    } else if p(ls[0]) {
        0
    } else {
        1 + first_idx(ls.skip(1), p)
    }
}

pub proof fn lemma_first_idx_is(ls: Seq<Seq<char>>, p: spec_fn(Seq<char>) -> bool, m: int)
    requires
        0 <= m <= ls.len(),
        m < ls.len() ==> p(ls[m]),
        forall|j: int| 0 <= j < m ==> !p(ls[j]),
    ensures
        first_idx(ls, p) == m,
    decreases m,
{
    if ls.len() > 0 && !p(ls[0]) {
        assert(m >= 1);
        assert(forall|j: int| 0 <= j < m - 1 ==> ls.skip(1)[j] == ls[j + 1]);
        if m - 1 < ls.skip(1).len() {
            assert(ls.skip(1)[m - 1] == ls[m]);
        }
        lemma_first_idx_is(ls.skip(1), p, m - 1);
    }
}

/// End of the line range once trailing fence lines are peeled off, scanning
/// down from `b` but never below `a`.
pub open spec fn strip_end(ls: Seq<Seq<char>>, a: int, b: int) -> int
    decreases b - a,
{
    if a < b && b <= ls.len() && fence_line(ls[b - 1]) {
        strip_end(ls, a, b - 1)
    } else {
        b
    }
}

/// What the fence stripper returns: escape noise removed, leading and
/// trailing fence lines dropped, the rest joined with a guaranteed final
/// newline.
pub open spec fn strip_fences_spec(s: Seq<char>) -> Seq<char> {
    let ls = lines_spec(strip_ansi(s));
    let a = first_idx(ls, |l: Seq<char>| !fence_line(l));
    let b = strip_end(ls, a, ls.len() as int);
    let body = join_nl(ls.subrange(a, b));
    if body.len() > 0 && body.last() == '\n' {
        body
    } else {
        body.push('\n')
    }
}

/// Strips terminal escape noise and leading and trailing Markdown code
/// fences, guaranteeing a trailing newline; the commit-message cleaner.
pub fn strip_markdown_fences(s: &str) -> (r: String)
    ensures
        r@ == strip_fences_spec(s@),
{
    let v = str_chars(s);
    let f = strip_ansi_chars(&v);
    let ls = split_lines(&f);
    let ghost lsd = ls.deep_view();
    proof {
        assert(lsd.len() == ls@.len());
        assert(forall|j: int| 0 <= j < ls@.len() ==> lsd[j] =~= #[trigger] ls@[j]@);
    }
    let n = ls.len();
    let mut a: usize = 0;
    while a < n && is_fence_line(&ls[a])
        invariant
            n == ls@.len(),
            lsd == ls.deep_view(),
            lsd.len() == n,
            forall|j: int| 0 <= j < ls@.len() ==> lsd[j] == #[trigger] ls@[j]@,
            a <= n,
            forall|j: int| 0 <= j < a ==> fence_line(lsd[j]),
        decreases n - a,
    {
        a = a + 1;
    }
    proof {
        lemma_first_idx_is(lsd, |l: Seq<char>| !fence_line(l), a as int);
    }
    let mut b: usize = n;
    while b > a && is_fence_line(&ls[b - 1])
        invariant
            n == ls@.len(),
            lsd == ls.deep_view(),
            lsd.len() == n,
            forall|j: int| 0 <= j < ls@.len() ==> lsd[j] == #[trigger] ls@[j]@,
            a <= b <= n,
            strip_end(lsd, a as int, n as int) == strip_end(lsd, a as int, b as int),
        decreases b,
    {
        b = b - 1;
    }
    proof {
        assert(strip_end(lsd, a as int, b as int) == b as int);
    }
    let mut body = join_lines(&ls, a, b);
    let needs_nl = body.len() == 0 || body[body.len() - 1] != '\n';
    if needs_nl {
        body.push('\n');
    }
    proof {
        assert(lsd.subrange(a as int, b as int) =~= ls.deep_view().subrange(a as int, b as int));
    }
    string_of_chars(&body)
}

/// What the patch sanitizer returns: after escape noise is removed,
/// everything before the first recognizable diff line is discarded, the
/// diff body runs until the first fence line, and the result carries one
/// trailing newline; with no diff line at all the result is empty.
pub open spec fn clean_spec(s: Seq<char>) -> Seq<char> {
    let ls = lines_spec(strip_ansi(s));
    let d = first_idx(ls, |l: Seq<char>| diff_start_line(l));
    if d < ls.len() {
        let rest = ls.skip(d);
        let f = first_idx(rest, |l: Seq<char>| fence_line(l));
        join_nl(rest.take(f)).push('\n')
    } else {
        Seq::empty()
    }
}

/// The patch sanitizer: turns raw agent output into a directly applicable
/// unified diff, or into the empty string when no diff is present.
pub fn clean(raw: &str) -> (r: String)
    ensures
        r@ == clean_spec(raw@),
{
    let v = str_chars(raw);
    let f = strip_ansi_chars(&v);
    let ls = split_lines(&f);
    let ghost lsd = ls.deep_view();
    proof {
        assert(lsd.len() == ls@.len());
        assert(forall|j: int| 0 <= j < ls@.len() ==> lsd[j] =~= #[trigger] ls@[j]@);
    }
    let n = ls.len();
    let mut d: usize = 0;
    while d < n && !is_diff_start_line(&ls[d])
        invariant
            n == ls@.len(),
            lsd == ls.deep_view(),
            lsd.len() == n,
            forall|j: int| 0 <= j < ls@.len() ==> lsd[j] == #[trigger] ls@[j]@,
            d <= n,
            forall|j: int| 0 <= j < d ==> !diff_start_line(lsd[j]),
        decreases n - d,
    {
        d = d + 1;
    }
    proof {
        lemma_first_idx_is(lsd, |l: Seq<char>| diff_start_line(l), d as int);
    }
    if d == n {
        proof {
            assert(clean_spec(raw@) =~= Seq::<char>::empty());
        }
        return String::new();
    }
    let mut e: usize = d;
    while e < n && !is_fence_line(&ls[e])
        invariant
            n == ls@.len(),
            lsd == ls.deep_view(),
            lsd.len() == n,
            forall|j: int| 0 <= j < ls@.len() ==> lsd[j] == #[trigger] ls@[j]@,
            d <= e <= n,
            forall|j: int| d <= j < e ==> !fence_line(lsd[j]),
        decreases n - e,
    {
        e = e + 1;
    }
    let ghost rest = lsd.skip(d as int);
    proof {
        assert(forall|j: int| 0 <= j < rest.len() ==> rest[j] == lsd[j + d]);
        lemma_first_idx_is(rest, |l: Seq<char>| fence_line(l), e - d);
    }
    let mut body = join_lines(&ls, d, e);
    body.push('\n');
    proof {
        assert(rest.take(e - d) =~= lsd.subrange(d as int, e as int));
    }
    string_of_chars(&body)
}

/// A line of printable text: no control characters other than tab, hence
/// no newline, carriage return or escape inside it.
pub open spec fn plain_line(l: Seq<char>) -> bool {
    forall|k: int| 0 <= k < l.len() ==> !stripped_control(l[k]) && l[k] != '\n'
}

proof fn lemma_plain_join(body: Seq<Seq<char>>)
    requires
        forall|i: int| 0 <= i < body.len() ==> plain_line(#[trigger] body[i]),
    ensures
        forall|k: int|
            0 <= k < join_nl(body).len() ==> !stripped_control(#[trigger] join_nl(body)[k])
                && join_nl(body)[k] != esc_char(),
    decreases body.len(),
{
    if body.len() == 0 {
    } else if body.len() == 1 {
        assert(join_nl(body) == body[0]);
        assert(forall|k: int| 0 <= k < body[0].len() ==> !stripped_control(body[0][k]));
        assert(forall|k: int|
            0 <= k < join_nl(body).len() ==> !stripped_control(join_nl(body)[k]));
        assert(forall|k: int|
            0 <= k < join_nl(body).len() ==> !control_char(join_nl(body)[k]) || join_nl(body)[k]
                == '\n' || join_nl(body)[k] == '\t');
    } else {
        lemma_plain_join(body.skip(1));
        assert(forall|i: int| 0 <= i < body.skip(1).len() ==> body.skip(1)[i] == body[i + 1]);
        let j = join_nl(body);
        assert(j == body[0] + seq!['\n'] + join_nl(body.skip(1)));
    }
}

/// Lines of text followed by an explicit newline split back into
/// themselves ahead of whatever follows.
proof fn lemma_lines_of_line(l: Seq<char>, rest: Seq<char>)
    requires
        plain_line(l),
    ensures
        lines_spec(l + seq!['\n'] + rest) == seq![l] + lines_spec(rest),
{
    let s = l + seq!['\n'] + rest;
    assert(s.len() == l.len() + 1 + rest.len());
    assert(forall|j: int| 0 <= j < l.len() ==> s[j] == l[j]);
    assert(s[l.len() as int] == '\n');
    assert(forall|j: int| 0 <= j < l.len() ==> s[j] != '\n') by {
        assert(forall|j: int| 0 <= j < l.len() ==> !stripped_control(l[j]) && l[j] != '\n');
    }
    lemma_first_nl_is(s, l.len() as int);
    assert(s.take(l.len() as int) =~= l);
    assert(l.len() > 0 ==> l.last() != '\r') by {
        if l.len() > 0 {
            assert(!stripped_control(l[l.len() - 1]) && l[l.len() - 1] != '\n');
        }
    }
    assert(strip_tail_cr(l) == l);
    assert(s.skip(l.len() as int + 1) =~= rest);
    assert(lines_spec(s) == seq![l] + lines_spec(rest));
}

/// Joined plain lines followed by a newline and a remainder split back
/// into exactly those lines ahead of the remainder's own lines.
proof fn lemma_lines_of_joined(body: Seq<Seq<char>>, rest: Seq<char>)
    requires
        body.len() > 0,
        forall|i: int| 0 <= i < body.len() ==> plain_line(#[trigger] body[i]),
    ensures
        lines_spec(join_nl(body) + seq!['\n'] + rest) == body + lines_spec(rest),
    decreases body.len(),
{
    if body.len() == 1 {
        lemma_lines_of_line(body[0], rest);
        assert(join_nl(body) == body[0]);
        assert(seq![body[0]] =~= body);
    } else {
        assert(forall|i: int| 0 <= i < body.skip(1).len() ==> body.skip(1)[i] == body[i + 1]);
        lemma_lines_of_joined(body.skip(1), rest);
        let tail = join_nl(body.skip(1)) + seq!['\n'] + rest;
        lemma_lines_of_line(body[0], tail);
        assert(join_nl(body) == body[0] + seq!['\n'] + join_nl(body.skip(1)));
        assert(join_nl(body) + seq!['\n'] + rest =~= body[0] + seq!['\n'] + tail);
        assert(seq![body[0]] + (body.skip(1) + lines_spec(rest)) =~= body + lines_spec(rest));
    }
}

/// The fence itself is a fence line.
proof fn lemma_fence_is_fence()
    ensures
        fence_line("```"@),
        !diff_start_line("```"@),
        plain_line("```"@),
{
    reveal_strlit("```");
    reveal_strlit("diff ");
    reveal_strlit("--- ");
    reveal_strlit("+++ ");
    reveal_strlit("@@ ");
    reveal_strlit("index ");
    let f = "```"@;
    assert(f.len() == 3 && f[0] == '`' && f[1] == '`' && f[2] == '`');
    assert(!ws_char(f[0]));
    assert(trim_start_rec(f) == f);
    assert(f.is_prefix_of(f)) by {
        assert(f =~= f.subrange(0, 3));
    }
    if "diff "@.is_prefix_of(f) {
        assert("diff "@ == f.subrange(0, 5));
        assert(false);
    }
    if "--- "@.is_prefix_of(f) {
        assert("--- "@ == f.subrange(0, 4));
        assert(f[0] == f.subrange(0, 4)[0]);
        assert(false);
    }
    if "+++ "@.is_prefix_of(f) {
        assert("+++ "@ == f.subrange(0, 4));
        assert(f[0] == f.subrange(0, 4)[0]);
        assert(false);
    }
    if "@@ "@.is_prefix_of(f) {
        assert("@@ "@ == f.subrange(0, 3));
        assert(f[0] == f.subrange(0, 3)[0]);
        assert(false);
    }
    if "index "@.is_prefix_of(f) {
        assert("index "@ == f.subrange(0, 6));
        assert(false);
    }
}

/// Sanitizer round trip, fenced side: agent output consisting of a fence
/// line, a well-formed diff body, and a closing fence line cleans to
/// exactly the diff body with a single trailing newline and no fences.
pub proof fn lemma_clean_fenced_diff(body: Seq<Seq<char>>)
    requires
        body.len() > 0,
        diff_start_line(body[0]),
        forall|i: int| 0 <= i < body.len() ==> plain_line(#[trigger] body[i]),
        forall|i: int| 0 <= i < body.len() ==> !fence_line(#[trigger] body[i]),
    ensures
        clean_spec("```"@ + seq!['\n'] + join_nl(body) + seq!['\n'] + "```"@ + seq!['\n'])
            == join_nl(body).push('\n'),
{
    lemma_fence_is_fence();
    let f = "```"@;
    let s = f + seq!['\n'] + join_nl(body) + seq!['\n'] + f + seq!['\n'];
    // the whole input is free of escape noise
    lemma_plain_join(body);
    assert(forall|k: int| 0 <= k < s.len() ==> !stripped_control(s[k]) && s[k] != esc_char()) by {
        reveal_strlit("```");
        assert(forall|k: int|
            0 <= k < join_nl(body).len() ==> !stripped_control(#[trigger] join_nl(body)[k])
                && join_nl(body)[k] != esc_char());
        assert(s =~= f + seq!['\n'] + join_nl(body) + seq!['\n'] + f + seq!['\n']);
        assert(!stripped_control('\n') && !stripped_control('`'));
    }
    lemma_strip_ansi_id(s);
    // the lines are: fence, body lines, fence
    let tail1 = join_nl(body) + seq!['\n'] + (f + seq!['\n']);
    lemma_lines_of_line(f, tail1);
    assert(s =~= f + seq!['\n'] + tail1);
    lemma_lines_of_joined(body, f + seq!['\n']);
    lemma_lines_of_line(f, Seq::empty());
    assert(f + seq!['\n'] =~= f + seq!['\n'] + Seq::<char>::empty());
    assert(lines_spec(f + seq!['\n']) == seq![f] + lines_spec(Seq::empty()));
    assert(lines_spec(Seq::<char>::empty()) =~= Seq::<Seq<char>>::empty());
    let ls = lines_spec(s);
    assert(ls =~= seq![f] + body + seq![f]);
    // the first diff line is right after the opening fence
    assert(ls[0] == f && !diff_start_line(ls[0]));
    assert(ls[1] == body[0] && diff_start_line(ls[1]));
    lemma_first_idx_is(ls, |l: Seq<char>| diff_start_line(l), 1);
    let rest = ls.skip(1);
    assert(rest =~= body + seq![f]);
    assert(forall|j: int| 0 <= j < body.len() ==> rest[j] == body[j]);
    assert(rest[body.len() as int] == f);
    lemma_first_idx_is(rest, |l: Seq<char>| fence_line(l), body.len() as int);
    assert(rest.take(body.len() as int) =~= body);
}

/// Sanitizer round trip, empty side: output in which no line can begin a
/// diff cleans to the empty string.
pub proof fn lemma_clean_no_diff(s: Seq<char>)
    requires
        forall|j: int|
            0 <= j < lines_spec(strip_ansi(s)).len() ==> !diff_start_line(
                #[trigger] lines_spec(strip_ansi(s))[j],
            ),
    ensures
        clean_spec(s) == Seq::<char>::empty(),
{
    let ls = lines_spec(strip_ansi(s));
    lemma_first_idx_is(ls, |l: Seq<char>| diff_start_line(l), ls.len() as int);
}

} // verus!
