//! The status store: the durable key/value map that holds all externally
//! observable state, modelled as a map from keys to values, together with
//! the key namespace the pipeline writes under.

use vstd::prelude::*;
use vstd::string::StringExecFns;

verus! {

/// The key/value map behind the dashboard: every pipeline transition is an
/// upsert here, and readers see only what was last written per key.
pub struct StatusStore {
    entries: Vec<(String, String)>,
}

/// The map described by an upsert history: later writes win.
pub open spec fn map_of(entries: Seq<(String, String)>) -> Map<Seq<char>, Seq<char>>
    decreases entries.len(),
{
    if entries.len() == 0 {
        Map::empty()
    } else {
        map_of(entries.drop_last()).insert(entries.last().0@, entries.last().1@)
    }
}

impl View for StatusStore {
    type V = Map<Seq<char>, Seq<char>>;

    closed spec fn view(&self) -> Map<Seq<char>, Seq<char>> {
        map_of(self.entries@)
    }
}

impl StatusStore {
    /// An empty store.
    pub fn new() -> (s: Self)
        ensures
            s@ == Map::<Seq<char>, Seq<char>>::empty(),
    {
        let s = StatusStore { entries: Vec::new() };
        proof {
            assert(s.entries@.len() == 0);
        }
        s
    }

    /// Upserts one key.
    pub fn insert(&mut self, key: String, value: String)
        ensures
            final(self)@ == old(self)@.insert(key@, value@),
    {
        let ghost k = key@;
        let ghost v = value@;
        self.entries.push((key, value));
        proof {
            assert(self.entries@.drop_last() =~= old(self).entries@);
            assert(self.entries@.last().0@ == k && self.entries@.last().1@ == v);
        }
    }

    /// Reads the value last written under `key`, if any.
    pub fn get(&self, key: &String) -> (r: Option<String>)
        ensures
            match r {
                Some(v) => self@.contains_key(key@) && v@ == self@[key@],
                None => !self@.contains_key(key@),
            },
    {
        let n = self.entries.len();
        let mut i: usize = n;
        proof {
            assert(self.entries@.take(n as int) =~= self.entries@);
        }
        while i > 0
            invariant
                i <= n,
                n == self.entries@.len(),
                self@.contains_key(key@) == map_of(self.entries@.take(i as int)).contains_key(
                    key@,
                ),
                self@.contains_key(key@) ==> map_of(self.entries@.take(i as int))[key@]
                    == self@[key@],
            decreases i,
        {
            let ghost pre = self.entries@.take(i as int);
            proof {
                assert(pre.last() == self.entries@[i - 1]);
                assert(pre.drop_last() =~= self.entries@.take(i - 1));
            }
            let hit = {
                let pair = &self.entries[i - 1];
                pair.0 == *key
            };
            if hit {
                let pair = &self.entries[i - 1];
                return Some(pair.1.clone());
            }
            i = i - 1;
        }
        proof {
            assert(self.entries@.take(0) =~= Seq::<(String, String)>::empty());
        }
        None
    }
}

/// Key that caches a project's last recorded fingerprint.
pub open spec fn fp_key_spec(p: Seq<char>) -> Seq<char> {
    "fp:"@ + p
}

/// Key that caches a project's last stored summary artifact.
pub open spec fn summary_key_spec(p: Seq<char>) -> Seq<char> {
    "summary:"@ + p
}

/// Key that caches a project's last sanitized patch.
pub open spec fn patch_key_spec(p: Seq<char>) -> Seq<char> {
    "patch:"@ + p
}

/// Key that holds a project's bounded commit log, as a JSON array.
pub open spec fn log_key_spec(p: Seq<char>) -> Seq<char> {
    "log:"@ + p
}

/// Key that holds the overall run status.
pub open spec fn status_key_spec() -> Seq<char> {
    "status"@
}

/// Key that holds the start time of the latest pass.
pub open spec fn run_start_key_spec() -> Seq<char> {
    "run.start"@
}

/// Key that holds the end time of the latest pass.
pub open spec fn run_end_key_spec() -> Seq<char> {
    "run.end"@
}

/// Key that holds the project a pass is currently visiting.
pub open spec fn current_key_spec() -> Seq<char> {
    "current"@
}

fn prefixed_key(prefix: &str, p: &str) -> (k: String)
    ensures
        k@ == prefix@ + p@,
{
    let mut k = String::from_str(prefix);
    k.append(p);
    k
}

/// Builds the fingerprint key for a project.
pub fn fp_key(p: &str) -> (k: String)
    ensures
        k@ == fp_key_spec(p@),
{
    prefixed_key("fp:", p)
}

/// Builds the summary key for a project.
pub fn summary_key(p: &str) -> (k: String)
    ensures
        k@ == summary_key_spec(p@),
{
    prefixed_key("summary:", p)
}

/// Builds the patch key for a project.
pub fn patch_key(p: &str) -> (k: String)
    ensures
        k@ == patch_key_spec(p@),
{
    prefixed_key("patch:", p)
}

/// Builds the commit-log key for a project.
pub fn log_key(p: &str) -> (k: String)
    ensures
        k@ == log_key_spec(p@),
{
    prefixed_key("log:", p)
}

/// The run-level keys: those not tied to any one project.
pub open spec fn run_level_key(k: Seq<char>) -> bool {
    k == status_key_spec() || k == run_start_key_spec() || k == run_end_key_spec() || k
        == current_key_spec()
}

/// The per-project keys.
pub open spec fn project_key(p: Seq<char>, k: Seq<char>) -> bool {
    k == fp_key_spec(p) || k == summary_key_spec(p) || k == patch_key_spec(p) || k
        == log_key_spec(p)
}

/// The key namespace separates projects from each other and from the
/// run-level keys: equal keys with a project prefix name equal projects,
/// and no project key is a run-level key.
pub proof fn lemma_keys_distinct(p: Seq<char>, q: Seq<char>)
    ensures
        fp_key_spec(p) == fp_key_spec(q) ==> p == q,
        summary_key_spec(p) == summary_key_spec(q) ==> p == q,
        patch_key_spec(p) == patch_key_spec(q) ==> p == q,
        log_key_spec(p) == log_key_spec(q) ==> p == q,
        fp_key_spec(p) != summary_key_spec(q),
        fp_key_spec(p) != patch_key_spec(q),
        fp_key_spec(p) != log_key_spec(q),
        summary_key_spec(p) != patch_key_spec(q),
        summary_key_spec(p) != log_key_spec(q),
        patch_key_spec(p) != log_key_spec(q),
        !run_level_key(fp_key_spec(p)),
        !run_level_key(summary_key_spec(p)),
        !run_level_key(patch_key_spec(p)),
        !run_level_key(log_key_spec(p)),
{
    reveal_strlit("fp:");
    reveal_strlit("summary:");
    reveal_strlit("patch:");
    reveal_strlit("log:");
    reveal_strlit("status");
    reveal_strlit("run.start");
    reveal_strlit("run.end");
    reveal_strlit("current");
    assert(fp_key_spec(p)[0] == 'f' && fp_key_spec(q)[0] == 'f');
    assert(summary_key_spec(p)[0] == 's' && summary_key_spec(q)[0] == 's');
    assert(patch_key_spec(p)[0] == 'p' && patch_key_spec(q)[0] == 'p');
    assert(log_key_spec(p)[0] == 'l' && log_key_spec(q)[0] == 'l');
    assert(fp_key_spec(p) == fp_key_spec(q) ==> p == q) by {
        if fp_key_spec(p) == fp_key_spec(q) {
            assert(fp_key_spec(p).skip(3) =~= p);
            assert(fp_key_spec(q).skip(3) =~= q);
        }
    }
    assert(summary_key_spec(p) == summary_key_spec(q) ==> p == q) by {
        if summary_key_spec(p) == summary_key_spec(q) {
            assert(summary_key_spec(p).skip(8) =~= p);
            assert(summary_key_spec(q).skip(8) =~= q);
        }
    }
    assert(patch_key_spec(p) == patch_key_spec(q) ==> p == q) by {
        if patch_key_spec(p) == patch_key_spec(q) {
            assert(patch_key_spec(p).skip(6) =~= p);
            assert(patch_key_spec(q).skip(6) =~= q);
        }
    }
    assert(log_key_spec(p) == log_key_spec(q) ==> p == q) by {
        if log_key_spec(p) == log_key_spec(q) {
            assert(log_key_spec(p).skip(4) =~= p);
            assert(log_key_spec(q).skip(4) =~= q);
        }
    }
    assert(summary_key_spec(p)[1] == 'u');
    assert(status_key_spec()[1] == 't');
    assert(status_key_spec()[0] == 's');
    assert(run_start_key_spec()[0] == 'r');
    assert(run_end_key_spec()[0] == 'r');
    assert(current_key_spec()[0] == 'c');
}

} // verus!
