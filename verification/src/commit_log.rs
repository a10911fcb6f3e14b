//! The bounded commit log: an ordered list of commit messages per project,
//! capped at the 50 most recent entries and persisted in the status store
//! as a JSON array.

use vstd::prelude::*;

use crate::store::{log_key, log_key_spec, StatusStore};

verus! {

/// How many commit messages a project's log retains.
pub open spec fn log_cap() -> int {
    50
}

/// The JSON text that encodes a list of messages.
pub uninterp spec fn log_encoding(msgs: Seq<Seq<char>>) -> Seq<char>;

/// The list of messages a JSON text decodes to, if it is a valid array of
/// strings.
pub uninterp spec fn log_decoding(s: Seq<char>) -> Option<Seq<Seq<char>>>;

/// Relies on `serde_json::to_string` over a vector of strings: it emits a
/// JSON array holding exactly those strings, `serde_json::from_str` reads
/// that array back to an equal vector, and serializing strings never
/// fails.
#[verifier::external_body]
fn encode_log(msgs: &Vec<String>) -> (r: String)
    ensures
        r@ == log_encoding(msgs.deep_view()),
        log_decoding(r@) == Some(msgs.deep_view()),
{
    serde_json::to_string(msgs).unwrap()
}

/// Relies on `serde_json::from_str::<Vec<String>>`: whether and how a text
/// parses as a JSON array of strings is a function of the text alone.
#[verifier::external_body]
fn decode_log(s: &str) -> (r: Option<Vec<String>>)
    ensures
        r.deep_view() == log_decoding(s@),
{
    serde_json::from_str::<Vec<String>>(s).ok()
}

/// A log clipped to its most recent `log_cap` entries, oldest first.
pub open spec fn clip(l: Seq<Seq<char>>) -> Seq<Seq<char>> {
    if l.len() > log_cap() {
        l.skip(l.len() - log_cap())
    } else {
        l
    }
}

/// One append to the bounded log: the message goes to the end and the
/// oldest entries beyond the cap fall off the front.
pub open spec fn bounded_append(log: Seq<Seq<char>>, m: Seq<char>) -> Seq<Seq<char>> {
    clip(log.push(m))
}

/// Appends a message to the log, evicting the oldest entries beyond the
/// cap.
pub fn append_bounded(log: &mut Vec<String>, msg: String)
    ensures
        final(log).deep_view() == bounded_append(old(log).deep_view(), msg@),
{
    let ghost target = bounded_append(old(log).deep_view(), msg@);
    let ghost m = msg@;
    log.push(msg);
    proof {
        assert(log.deep_view() =~~= old(log).deep_view().push(m));
        assert(clip(log.deep_view()) == target);
    }
    while log.len() > 50
        invariant
            clip(log.deep_view()) == target,
            log.deep_view().len() == log@.len(),
        decreases log@.len(),
    {
        let ghost before = log.deep_view();
        log.remove(0);
        proof {
            assert(log.deep_view() =~~= before.skip(1));
            assert(before.len() > 50);
            assert(clip(before.skip(1)) =~~= clip(before));
        }
    }
    proof {
        assert(log.deep_view().len() <= 50);
        assert(clip(log.deep_view()) == log.deep_view());
    }
}

/// The bounded log obtained by appending each of `ms` in order.
pub open spec fn apply_appends(log: Seq<Seq<char>>, ms: Seq<Seq<char>>) -> Seq<Seq<char>>
    decreases ms.len(),
{
    if ms.len() == 0 {
        log
    } else {
        apply_appends(bounded_append(log, ms[0]), ms.skip(1))
    }
}

/// Commit log bound: starting from any log within the cap, appending a
/// sequence of messages one by one leaves exactly the most recent
/// `log_cap` of all messages seen, in chronological order — after 60
/// successful pushes onto an empty log, exactly the last 50 remain.
pub proof fn lemma_commit_log_bound(log: Seq<Seq<char>>, ms: Seq<Seq<char>>)
    requires
        log.len() <= log_cap(),
    ensures
        apply_appends(log, ms) == clip(log + ms),
    decreases ms.len(),
{
    if ms.len() == 0 {
        assert(log + ms =~= log);
        assert(clip(log) == log);
    } else {
        let next = bounded_append(log, ms[0]);
        assert(next.len() <= log_cap());
        lemma_commit_log_bound(next, ms.skip(1));
        assert(apply_appends(log, ms) == apply_appends(next, ms.skip(1)));
        if log.len() == log_cap() {
            assert(next =~= log.push(ms[0]).skip(1));
            assert(next + ms.skip(1) =~= (log + ms).skip(1));
            assert(clip((log + ms).skip(1)) =~~= clip(log + ms));
        } else {
            assert(next =~= log.push(ms[0]));
            assert(next + ms.skip(1) =~= log + ms);
        }
    }
}

/// The decoded commit log stored for a project: the JSON array under its
/// log key, or empty when absent or unreadable.
pub open spec fn stored_log_spec(store: Map<Seq<char>, Seq<char>>, p: Seq<char>) -> Seq<
    Seq<char>,
> {
    if store.contains_key(log_key_spec(p)) {
        match log_decoding(store[log_key_spec(p)]) {
            Some(l) => l,
            None => Seq::empty(),
        }
    } else {
        Seq::empty()
    }
}

/// Reads a project's commit log back out of the store.
pub fn read_stored_log(store: &StatusStore, project: &str) -> (r: Vec<String>)
    ensures
        r.deep_view() == stored_log_spec(store@, project@),
{
    let key = log_key(project);
    match store.get(&key) {
        Some(v) => match decode_log(v.as_str()) {
            Some(l) => l,
            None => {
                let r: Vec<String> = Vec::new();
                proof {
                    assert(r.deep_view() =~= Seq::<Seq<char>>::empty());
                }
                r
            },
        },
        None => {
            let r: Vec<String> = Vec::new();
            proof {
                assert(r.deep_view() =~= Seq::<Seq<char>>::empty());
            }
            r
        },
    }
}

/// Appends one commit message to a project's persisted log and returns the
/// JSON text now stored under the log key, for mirroring to durable
/// storage.
pub fn push_stored_log(store: &mut StatusStore, project: &str, msg: String) -> (enc: String)
    ensures
        enc@ == log_encoding(bounded_append(stored_log_spec(old(store)@, project@), msg@)),
        final(store)@ == old(store)@.insert(log_key_spec(project@), enc@),
{
    let mut log = read_stored_log(store, project);
    append_bounded(&mut log, msg);
    let enc = encode_log(&log);
    let key = log_key(project);
    let stored = enc.clone();
    store.insert(key, stored);
    enc
}

} // verus!
