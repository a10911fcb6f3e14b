//! The service restarter: derives the service-unit name for a project
//! deterministically from the last segment of its path.

use vstd::prelude::*;
use vstd::string::StringExecFns;

use crate::text::{str_chars, string_of_chars, subvec};

verus! {

/// Index of the last path separator in `p`, or `-1` if there is none.
pub open spec fn last_slash(p: Seq<char>) -> int
    decreases p.len(),
{
    if p.len() == 0 {
        -1
    } else if p.last() == '/' {
        p.len() - 1
    } else {
        last_slash(p.drop_last())
    }
}

proof fn lemma_last_slash_is(p: Seq<char>, m: int)
    requires
        -1 <= m < p.len(),
        m >= 0 ==> p[m] == '/',
        forall|k: int| m < k < p.len() ==> p[k] != '/',
    ensures
        last_slash(p) == m,
    decreases p.len(),
{
    if p.len() > 0 && p.last() != '/' {
        assert(m < p.len() - 1);
        lemma_last_slash_is(p.drop_last(), m);
    }
}

/// The last segment of a path: everything after the final separator.
pub open spec fn last_segment_spec(p: Seq<char>) -> Seq<char> {
    p.skip(last_slash(p) + 1)
}

/// The service unit restarted for a project: the last path segment with
/// the fixed unit-type suffix.
pub open spec fn unit_name_spec(p: Seq<char>) -> Seq<char> {
    last_segment_spec(p) + ".service"@
}

/// Derives the service-unit name for a project path.
pub fn unit_name(project: &str) -> (r: String)
    ensures
        r@ == unit_name_spec(project@),
{
    let v = str_chars(project);
    let n = v.len();
    let mut j: usize = n;
    while j > 0 && v[j - 1] != '/'
        invariant
            n == v@.len(),
            j <= n,
            forall|k: int| j <= k < n ==> v@[k] != '/',
        decreases j,
    {
        j = j - 1;
    }
    proof {
        if j > 0 {
            lemma_last_slash_is(v@, j - 1);
        } else {
            lemma_last_slash_is(v@, -1);
        }
    }
    let seg = subvec(&v, j, n);
    let mut r = string_of_chars(&seg);
    r.append(".service");
    proof {
        assert(seg@ =~= last_segment_spec(project@));
    }
    r
}

} // verus!
