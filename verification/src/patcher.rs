//! The patch generator's decision logic: a patch cached for the current
//! revision is reused without a generation call; fresh agent output is
//! kept only when non-empty after trimming, and cached for the revision.

use vstd::prelude::*;
use vstd::string::StrSliceExecFns;
use vstd::string::StringExecFns;

use crate::store::StatusStore;
use crate::text::{trim_spec, trim_string};

verus! {

/// Key under which a patch is cached for one project at one revision.
pub open spec fn patch_cache_key_spec(p: Seq<char>, head: Seq<char>) -> Seq<char> {
    "patchcache:"@ + p + ":"@ + head
}

/// Builds the patch-cache key for a project and revision.
pub fn patch_cache_key(project: &str, head: &str) -> (k: String)
    ensures
        k@ == patch_cache_key_spec(project@, head@),
{
    let mut k = String::from_str("patchcache:");
    k.append(project);
    k.append(":");
    k.append(head);
    k
}

/// The patch recorded for this project at this revision, if any; when
/// present, no new generation call is needed.
pub fn cached_patch(store: &StatusStore, project: &str, head: &str) -> (r: Option<String>)
    ensures
        match r {
            Some(p) => store@.contains_key(patch_cache_key_spec(project@, head@)) && p@
                == store@[patch_cache_key_spec(project@, head@)],
            None => !store@.contains_key(patch_cache_key_spec(project@, head@)),
        },
{
    let key = patch_cache_key(project, head);
    store.get(&key)
}

/// Records the generator's decision on fresh agent output: a non-empty
/// trimmed patch is cached for this revision and returned; output that is
/// empty after trimming yields nothing and leaves the store untouched.
pub fn record_patch_output(store: &mut StatusStore, project: &str, head: &str, output: &str) -> (r:
    Option<String>)
    ensures
        trim_spec(output@).len() > 0 ==> (r matches Some(p) && p@ == trim_spec(output@)
            && final(store)@ == old(store)@.insert(
            patch_cache_key_spec(project@, head@),
            trim_spec(output@),
        )),
        trim_spec(output@).len() == 0 ==> final(store)@ == old(store)@ && r is None,
{
    let patch = trim_string(output);
    if patch.as_str().unicode_len() > 0 {
        let key = patch_cache_key(project, head);
        let stored = patch.clone();
        store.insert(key, stored);
        Some(patch)
    } else {
        proof {
            assert(patch@.len() == 0);
        }
        None
    }
}

} // verus!
