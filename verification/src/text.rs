//! Character-level text utilities shared by the sanitizer, the transcript
//! reader and the store: conversions between `&str` and character vectors,
//! trimming, line splitting and joining, and decimal formatting.

use vstd::prelude::*;
use vstd::string::StrSliceExecFns;

verus! {

/// Collects the characters of a string slice into a vector.
pub fn str_chars(s: &str) -> (r: Vec<char>)
    ensures
        r@ == s@,
{
    let n = s.unicode_len();
    let mut r: Vec<char> = Vec::new();
    let mut i: usize = 0;
    while i < n
        invariant
            n == s@.len(),
            i <= n,
            r@ == s@.take(i as int),
        decreases n - i,
    {
        let c = s.get_char(i);
        r.push(c);
        i = i + 1;
        proof {
            assert(r@ =~= s@.take(i as int));
        }
    }
    proof {
        assert(r@ =~= s@);
    }
    r
}

/// Relies on `String::push` from std: appends exactly one character to the
/// end of the string.
#[verifier::external_body]
fn push_char(s: &mut String, c: char)
    ensures
        final(s)@ == old(s)@.push(c),
{
    s.push(c);
}

/// Builds a string out of a vector of characters.
pub fn string_of_chars(v: &Vec<char>) -> (r: String)
    ensures
        r@ == v@,
{
    let mut r = String::new();
    let mut i: usize = 0;
    while i < v.len()
        invariant
            i <= v@.len(),
            r@ == v@.take(i as int),
        decreases v@.len() - i,
    {
        push_char(&mut r, v[i]);
        i = i + 1;
        proof {
            assert(r@ =~= v@.take(i as int));
        }
    }
    proof {
        assert(r@ =~= v@);
    }
    r
}

/// Copies the characters of `v` between positions `a` (inclusive) and `b`
/// (exclusive).
pub fn subvec(v: &Vec<char>, a: usize, b: usize) -> (r: Vec<char>)
    requires
        a <= b <= v@.len(),
    ensures
        r@ == v@.subrange(a as int, b as int),
{
    let mut r: Vec<char> = Vec::new();
    let mut i: usize = a;
    while i < b
        invariant
            a <= i <= b <= v@.len(),
            r@ == v@.subrange(a as int, i as int),
        decreases b - i,
    {
        r.push(v[i]);
        i = i + 1;
        proof {
            assert(r@ =~= v@.subrange(a as int, i as int));
        }
    }
    r
}

/// The characters that Unicode marks White_Space; the set behind `str::trim`.
pub open spec fn ws_char(c: char) -> bool {
    (0x09 <= c as u32 && c as u32 <= 0x0D) || c as u32 == 0x20 || c as u32 == 0x85 || c as u32
        == 0xA0 || c as u32 == 0x1680 || (0x2000 <= c as u32 && c as u32 <= 0x200A) || c as u32
        == 0x2028 || c as u32 == 0x2029 || c as u32 == 0x202F || c as u32 == 0x205F || c as u32
        == 0x3000
}

/// Whether `c` lies in the Unicode control (Cc) category, the set behind
/// `char::is_control`.
pub open spec fn control_char(c: char) -> bool {
    (c as u32) < 0x20 || (0x7F <= c as u32 && c as u32 <= 0x9F)
}

/// Executable test for `ws_char`.
pub fn is_ws_char(c: char) -> (r: bool)
    ensures
        r == ws_char(c),
{
    let u = c as u32;
    (0x09 <= u && u <= 0x0D) || u == 0x20 || u == 0x85 || u == 0xA0 || u == 0x1680 || (0x2000 <= u
        && u <= 0x200A) || u == 0x2028 || u == 0x2029 || u == 0x202F || u == 0x205F || u == 0x3000
}

/// Executable test for `control_char`.
pub fn is_control_char(c: char) -> (r: bool)
    ensures
        r == control_char(c),
{
    let u = c as u32;
    u < 0x20 || (0x7F <= u && u <= 0x9F)
}

pub open spec fn trim_start_rec(s: Seq<char>) -> Seq<char>
    decreases s.len(),
{
    if s.len() > 0 && ws_char(s[0]) {
        trim_start_rec(s.skip(1))
    } else {
        s
    }
}

pub open spec fn trim_end_rec(s: Seq<char>) -> Seq<char>
    decreases s.len(),
{
    if s.len() > 0 && ws_char(s.last()) {
        trim_end_rec(s.drop_last())
    } else {
        s
    }
}

/// What `str::trim` leaves: the input without leading and trailing
/// white space.
pub open spec fn trim_spec(s: Seq<char>) -> Seq<char> {
    trim_end_rec(trim_start_rec(s))
}

pub proof fn lemma_trim_start_skip(s: Seq<char>, a: int)
    requires
        0 <= a <= s.len(),
        forall|j: int| 0 <= j < a ==> ws_char(s[j]),
    ensures
        trim_start_rec(s) == trim_start_rec(s.skip(a)),
    decreases a,
{
    if a > 0 {
        assert(trim_start_rec(s) == trim_start_rec(s.skip(1)));
        assert(s.skip(1).skip(a - 1) =~= s.skip(a));
        lemma_trim_start_skip(s.skip(1), a - 1);
    } else {
        assert(s.skip(0) =~= s);
    }
}

proof fn lemma_trim_end_take(s: Seq<char>, b: int)
    requires
        0 <= b <= s.len(),
        forall|j: int| b <= j < s.len() ==> ws_char(s[j]),
    ensures
        trim_end_rec(s) == trim_end_rec(s.take(b)),
    decreases s.len() - b,
{
    if b < s.len() {
        assert(s.last() == s[s.len() - 1]);
        assert(trim_end_rec(s) == trim_end_rec(s.drop_last()));
        assert(s.drop_last() =~= s.take(s.len() - 1));
        lemma_trim_end_take(s.take(s.len() - 1), b);
        assert(s.take(s.len() - 1).take(b) =~= s.take(b));
    } else {
        assert(s.take(b) =~= s);
    }
}

/// Removes leading and trailing white space, as `str::trim` does.
pub fn trim_chars(v: &Vec<char>) -> (r: Vec<char>)
    ensures
        r@ == trim_spec(v@),
{
    let n = v.len();
    let mut a: usize = 0;
    while a < n && is_ws_char(v[a])
        invariant
            n == v@.len(),
            a <= n,
            forall|j: int| 0 <= j < a ==> ws_char(v@[j]),
        decreases n - a,
    {
        a = a + 1;
    }
    proof {
        lemma_trim_start_skip(v@, a as int);
        if a < n {
            assert(trim_start_rec(v@.skip(a as int)) == v@.skip(a as int));
        } else {
            assert(v@.skip(a as int) =~= Seq::<char>::empty());
        }
    }
    // here trim_start_rec(v@) == v@.skip(a)
    let mut b: usize = n;
    while b > a && is_ws_char(v[b - 1])
        invariant
            n == v@.len(),
            a <= b <= n,
            forall|j: int| b <= j < n ==> ws_char(v@[j]),
        decreases b,
    {
        b = b - 1;
    }
    let r = subvec(v, a, b);
    proof {
        let t = v@.skip(a as int);
        assert(forall|j: int|
            b - a <= j < t.len() ==> ws_char(#[trigger] t[j]) && t[j] == v@[j + a]);
        lemma_trim_end_take(t, b - a);
        if b > a {
            assert(t.take(b - a).last() == v@[b - 1]);
            assert(!ws_char(t.take(b - a).last()));
            assert(trim_end_rec(t.take(b - a)) == t.take(b - a));
        } else {
            assert(t.take(0) =~= Seq::<char>::empty());
        }
        assert(t.take(b - a) =~= v@.subrange(a as int, b as int));
    }
    r
}

/// Position of the first newline in `s`, or `s.len()` if there is none.
pub open spec fn first_nl(s: Seq<char>) -> int
    decreases s.len(),
{
    if s.len() == 0 {
        0
    } else if s[0] == '\n' {
        0
    } else {
        1 + first_nl(s.skip(1))
    }
}

/// A position that carries a newline, with none before it, is `first_nl`.
pub proof fn lemma_first_nl_is(s: Seq<char>, m: int)
    requires
        0 <= m <= s.len(),
        m < s.len() ==> s[m] == '\n',
        forall|j: int| 0 <= j < m ==> s[j] != '\n',
    ensures
        first_nl(s) == m,
    decreases m,
{
    if s.len() > 0 && s[0] != '\n' {
        assert(m >= 1);
        assert(forall|j: int| 0 <= j < m - 1 ==> s.skip(1)[j] == s[j + 1]);
        lemma_first_nl_is(s.skip(1), m - 1);
    }
}

/// Removes one trailing carriage return, if present.
pub open spec fn strip_tail_cr(s: Seq<char>) -> Seq<char> {
    if s.len() > 0 && s.last() == '\r' {
        s.drop_last()
    } else {
        s
    }
}

/// The lines of `s`, as `str::lines` yields them: segments split at every
/// newline, a carriage return just before a newline removed, and no final
/// empty segment after a terminating newline.
pub open spec fn lines_spec(s: Seq<char>) -> Seq<Seq<char>>
    decreases s.len(),
{
    if s.len() == 0 {
        Seq::empty()
    } else {
        let i = first_nl(s);
        if 0 <= i && i < s.len() {
            seq![strip_tail_cr(s.take(i))] + lines_spec(s.skip(i + 1))
        } else {
            seq![s]
        }
    }
}

/// First position at or after `from` that holds a newline, or the length.
fn find_nl_from(v: &Vec<char>, from: usize) -> (j: usize)
    requires
        from <= v@.len(),
    ensures
        from <= j <= v@.len(),
        j < v@.len() ==> v@[j as int] == '\n',
        forall|k: int| from <= k < j ==> v@[k] != '\n',
{
    let mut j = from;
    while j < v.len() && v[j] != '\n'
        invariant
            from <= j <= v@.len(),
            forall|k: int| from <= k < j ==> v@[k] != '\n',
        decreases v@.len() - j,
    {
        j = j + 1;
    }
    j
}

/// Splits `v` into its lines, as `str::lines` does.
pub fn split_lines(v: &Vec<char>) -> (r: Vec<Vec<char>>)
    ensures
        r.deep_view() == lines_spec(v@),
{
    let mut r: Vec<Vec<char>> = Vec::new();
    let mut i: usize = 0;
    proof {
        assert(v@.skip(0) =~= v@);
        assert(r.deep_view() =~= Seq::<Seq<char>>::empty());
    }
    while i < v.len()
        invariant
            i <= v@.len(),
            lines_spec(v@) == r.deep_view() + lines_spec(v@.skip(i as int)),
        decreases v@.len() - i,
    {
        let ghost rest = v@.skip(i as int);
        let j = find_nl_from(v, i);
        proof {
            assert(forall|k: int| 0 <= k < rest.len() ==> rest[k] == v@[k + i]);
            lemma_first_nl_is(rest, j - i);
        }
        if j < v.len() {
            let mut seg = subvec(v, i, j);
            if seg.len() > 0 && seg[seg.len() - 1] == '\r' {
                seg.pop();
            }
            proof {
                assert(rest.take(j - i) =~= v@.subrange(i as int, j as int));
                assert(seg@ == strip_tail_cr(rest.take(j - i)));
                assert(rest.skip(j - i + 1) =~= v@.skip(j + 1));
                assert(lines_spec(rest) == seq![seg@] + lines_spec(v@.skip(j + 1)));
            }
            let ghost prev = r.deep_view();
            let ghost segv = seg@;
            r.push(seg);
            proof {
                assert(r.deep_view() =~~= prev.push(segv));
                assert(prev.push(segv) =~= prev + seq![segv]);
                assert(lines_spec(v@) == r.deep_view() + lines_spec(v@.skip(j + 1)));
            }
            i = j + 1;
        } else {
            let seg = subvec(v, i, v.len());
            proof {
                assert(seg@ =~= rest);
                assert(lines_spec(rest) == seq![rest]);
            }
            let ghost prev = r.deep_view();
            let ghost segv = seg@;
            r.push(seg);
            proof {
                assert(r.deep_view() =~~= prev.push(segv));
                assert(prev.push(segv) =~= prev + seq![segv]);
                assert(v@.skip(v@.len() as int) =~= Seq::<char>::empty());
                assert(lines_spec(v@) == r.deep_view() + lines_spec(v@.skip(v@.len() as int)));
            }
            i = v.len();
        }
    }
    proof {
        assert(v@.skip(i as int) =~= Seq::<char>::empty());
        assert(r.deep_view() =~= lines_spec(v@));
    }
    r
}

/// The lines joined with single newlines between them, no terminator.
pub open spec fn join_nl(ls: Seq<Seq<char>>) -> Seq<char>
    decreases ls.len(),
{
    if ls.len() == 0 {
        Seq::empty()
    } else if ls.len() == 1 {
        ls[0]
    } else {
        ls[0] + seq!['\n'] + join_nl(ls.skip(1))
    }
}

pub proof fn lemma_join_nl_push(ls: Seq<Seq<char>>, x: Seq<char>)
    ensures
        ls.len() == 0 ==> join_nl(ls.push(x)) == x,
        ls.len() > 0 ==> join_nl(ls.push(x)) == join_nl(ls) + seq!['\n'] + x,
    decreases ls.len(),
{
    if ls.len() == 0 {
        assert(ls.push(x)[0] =~= x);
    } else if ls.len() == 1 {
        assert(ls.push(x).skip(1) =~= seq![x]);
        assert(join_nl(seq![x]) == seq![x][0]);
        assert(ls.push(x)[0] == ls[0]);
        assert(join_nl(ls.push(x)) == ls[0] + seq!['\n'] + x);
    } else {
        lemma_join_nl_push(ls.skip(1), x);
        assert(ls.push(x).skip(1) =~= ls.skip(1).push(x));
        assert(join_nl(ls.push(x)) == ls[0] + seq!['\n'] + join_nl(ls.skip(1).push(x)));
        assert(ls[0] + seq!['\n'] + (join_nl(ls.skip(1)) + seq!['\n'] + x) =~= (ls[0] + seq!['\n']
            + join_nl(ls.skip(1))) + seq!['\n'] + x);
    }
}

/// Joins the lines with indices in `[from, to)` with newlines between them.
pub fn join_lines(ls: &Vec<Vec<char>>, from: usize, to: usize) -> (r: Vec<char>)
    requires
        from <= to <= ls@.len(),
    ensures
        r@ == join_nl(ls.deep_view().subrange(from as int, to as int)),
{
    let mut r: Vec<char> = Vec::new();
    let mut k: usize = from;
    while k < to
        invariant
            from <= k <= to <= ls@.len(),
            ls.deep_view().len() == ls@.len(),
            r@ == join_nl(ls.deep_view().subrange(from as int, k as int)),
        decreases to - k,
    {
        if k > from {
            r.push('\n');
        }
        let line = &ls[k];
        let mut m: usize = 0;
        let ghost mid = r@;
        while m < line.len()
            invariant
                m <= line@.len(),
                r@ == mid + line@.take(m as int),
            decreases line@.len() - m,
        {
            r.push(line[m]);
            m = m + 1;
            proof {
                assert(r@ =~= mid + line@.take(m as int));
            }
        }
        proof {
            let pre = ls.deep_view().subrange(from as int, k as int);
            let post = ls.deep_view().subrange(from as int, k as int + 1);
            assert(post =~= pre.push(ls.deep_view()[k as int]));
            lemma_join_nl_push(pre, ls.deep_view()[k as int]);
            assert(line@.take(m as int) =~= line@);
            assert(line@ =~= ls.deep_view()[k as int]);
            if k > from {
                assert(r@ =~= join_nl(pre) + seq!['\n'] + line@);
            } else {
                assert(pre.len() == 0);
                assert(r@ =~= line@);
            }
        }
        k = k + 1;
    }
    r
}

/// The character for a single decimal digit.
pub open spec fn digit_char(d: int) -> char {
    if d == 0 {
        '0'
    } else if d == 1 {
        '1'
    } else if d == 2 {
        '2'
    } else if d == 3 {
        '3'
    } else if d == 4 {
        '4'
    } else if d == 5 {
        '5'
    } else if d == 6 {
        '6'
    } else if d == 7 {
        '7'
    } else if d == 8 {
        '8'
    } else {
        '9'
    }
}

/// The decimal digits of `n`, most significant first, no leading zeros
/// except for zero itself.
pub open spec fn dec_str(n: nat) -> Seq<char>
    decreases n,
{
    if n < 10 {
        seq![digit_char(n as int)]
    } else {
        dec_str(n / 10).push(digit_char((n % 10) as int))
    }
}

fn exec_digit_char(d: u64) -> (c: char)
    requires
        d < 10,
    ensures
        c == digit_char(d as int),
{
    if d == 0 {
        '0'
    } else if d == 1 {
        '1'
    } else if d == 2 {
        '2'
    } else if d == 3 {
        '3'
    } else if d == 4 {
        '4'
    } else if d == 5 {
        '5'
    } else if d == 6 {
        '6'
    } else if d == 7 {
        '7'
    } else if d == 8 {
        '8'
    } else {
        '9'
    }
}

/// Formats `n` in decimal, as `u64::to_string` would.
pub fn u64_to_dec(n: u64) -> (r: String)
    ensures
        r@ == dec_str(n as nat),
{
    let mut digits: Vec<char> = Vec::new();
    digits.push(exec_digit_char(n % 10));
    let mut m: u64 = n / 10;
    proof {
        assert(digits@.reverse() =~= seq![digit_char((n % 10) as int)]);
        if n < 10 {
            assert(dec_str(n as nat) == seq![digit_char(n as int)]);
            assert(Seq::<char>::empty() + digits@.reverse() =~= digits@.reverse());
        } else {
            assert(dec_str(n as nat) == dec_str((n as nat) / 10).push(
                digit_char(((n as nat) % 10) as int),
            ));
            assert(dec_str((n as nat) / 10) + digits@.reverse() =~= dec_str(n as nat));
        }
    }
    while m > 0
        invariant
            dec_str(n as nat) == (if m > 0 {
                dec_str(m as nat)
            } else {
                Seq::<char>::empty()
            }) + digits@.reverse(),
        decreases m,
    {
        let ghost m0 = m as nat;
        let ghost ds0 = digits@;
        let d = m % 10;
        digits.push(exec_digit_char(d));
        m = m / 10;
        proof {
            assert(digits@.reverse() =~= seq![digit_char(d as int)] + ds0.reverse());
            if m0 < 10 {
                assert(dec_str(m0) == seq![digit_char(m0 as int)]);
                assert(Seq::<char>::empty() + digits@.reverse() =~= dec_str(m0) + ds0.reverse());
            } else {
                assert(dec_str(m0) == dec_str(m0 / 10).push(digit_char((m0 % 10) as int)));
                assert(dec_str(m0 / 10) + digits@.reverse() =~= dec_str(m0) + ds0.reverse());
            }
        }
    }
    proof {
        assert(Seq::<char>::empty() + digits@.reverse() =~= digits@.reverse());
    }
    let mut out: Vec<char> = Vec::new();
    let mut i: usize = digits.len();
    while i > 0
        invariant
            i <= digits@.len(),
            out@.len() == digits@.len() - i,
            forall|k: int|
                0 <= k < out@.len() ==> out@[k] == digits@[digits@.len() - 1 - k],
        decreases i,
    {
        i = i - 1;
        out.push(digits[i]);
    }
    proof {
        assert(out@ =~= digits@.reverse());
    }
    string_of_chars(&out)
}


/// Appends the characters of `s` to `acc`.
pub fn push_str_chars(acc: &mut Vec<char>, s: &str)
    ensures
        final(acc)@ == old(acc)@ + s@,
{
    let n = s.unicode_len();
    let mut i: usize = 0;
    while i < n
        invariant
            n == s@.len(),
            i <= n,
            acc@ == old(acc)@ + s@.take(i as int),
        decreases n - i,
    {
        acc.push(s.get_char(i));
        i = i + 1;
        proof {
            assert(acc@ =~= old(acc)@ + s@.take(i as int));
        }
    }
    proof {
        assert(acc@ =~= old(acc)@ + s@);
    }
}

/// Removes leading and trailing white space from a string.
pub fn trim_string(s: &str) -> (r: String)
    ensures
        r@ == trim_spec(s@),
{
    let v = str_chars(s);
    let t = trim_chars(&v);
    string_of_chars(&t)
}


/// Clones a vector of strings, keeping every element equal.
pub fn clone_string_vec(v: &Vec<String>) -> (r: Vec<String>)
    ensures
        r@ == v@,
        r.deep_view() == v.deep_view(),
{
    let mut r: Vec<String> = Vec::new();
    let mut i: usize = 0;
    while i < v.len()
        invariant
            i <= v@.len(),
            r@ == v@.take(i as int),
        decreases v@.len() - i,
    {
        r.push(v[i].clone());
        i = i + 1;
        proof {
            assert(r@ =~= v@.take(i as int));
        }
    }
    proof {
        assert(r@ =~= v@);
        assert(r.deep_view() =~~= v.deep_view());
    }
    r
}

} // verus!


