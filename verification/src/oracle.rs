//! The change oracle: resolves a project's version-control head to a
//! fingerprint and decides whether maintenance work can be skipped.

use vstd::prelude::*;

use crate::store::{fp_key, fp_key_spec, StatusStore};
use crate::text::{str_chars, string_of_chars, subvec, trim_chars, trim_spec, trim_string};

verus! {

/// What the head file resolves to: a symbolic reference naming the ref
/// file to read next, or the concrete revision directly.
pub enum HeadResolution {
    Symbolic(String),
    Direct(String),
}

/// Resolution step on the contents of the version-control head file: a
/// `"ref: "` prefix names a symbolic reference, to be followed exactly one
/// level; otherwise the trimmed contents are the revision itself.
pub fn get_head_hash(head_contents: &str) -> (r: HeadResolution)
    ensures
        "ref: "@.is_prefix_of(head_contents@) ==> (r matches HeadResolution::Symbolic(p) && p@
            == trim_spec(head_contents@.skip(5))),
        !"ref: "@.is_prefix_of(head_contents@) ==> (r matches HeadResolution::Direct(h) && h@
            == trim_spec(head_contents@)),
{
    let v = str_chars(head_contents);
    proof {
        assert(v@.skip(0) =~= v@);
    }
    if crate::sanitizer::chars_start_with_at(&v, 0, "ref: ") {
        proof {
            reveal_strlit("ref: ");
        }
        let tail = subvec(&v, 5, v.len());
        proof {
            assert(tail@ =~= head_contents@.skip(5));
        }
        let t = trim_chars(&tail);
        HeadResolution::Symbolic(string_of_chars(&t))
    } else {
        HeadResolution::Direct(trim_string(head_contents))
    }
}

/// The trimmed contents of a symbolic reference's file: the fingerprint.
pub fn resolve_symbolic_ref(ref_contents: &str) -> (r: String)
    ensures
        r@ == trim_spec(ref_contents@),
{
    trim_string(ref_contents)
}

/// Whether a pass may skip a project: only on an exact match between the
/// fresh fingerprint and the recorded one; an unavailable fingerprint
/// never skips.
pub open spec fn skip_spec(
    store: Map<Seq<char>, Seq<char>>,
    p: Seq<char>,
    fresh: Option<Seq<char>>,
) -> bool {
    match fresh {
        Some(f) => store.contains_key(fp_key_spec(p)) && store[fp_key_spec(p)] == f,
        None => false,
    }
}

/// Compares the fresh fingerprint with the recorded one; no store write
/// happens here.
pub fn should_skip(store: &StatusStore, project: &str, fresh: &Option<String>) -> (r: bool)
    ensures
        r == skip_spec(
            store@,
            project@,
            match fresh {
                Some(f) => Some(f@),
                None => None,
            },
        ),
{
    match fresh {
        Some(f) => {
            let key = fp_key(project);
            match store.get(&key) {
                Some(v) => v == *f,
                None => false,
            }
        },
        None => false,
    }
}

} // verus!
