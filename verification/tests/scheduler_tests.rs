use mainteno::codex_client::GenError;
use mainteno::config::SchedulerConfig;
use mainteno::scheduler::{Action, Event, Scheduler};

fn cfg(projects: Vec<&str>) -> SchedulerConfig {
    SchedulerConfig {
        enabled: true,
        projects: projects.into_iter().map(|p| p.to_string()).collect(),
    }
}

fn get(s: &Scheduler, key: &str) -> Option<String> {
    s.store_ref().get(&key.to_string())
}

/// Runs one full successful sub-pipeline for the project the pass stands
/// at, checking the order of the requested actions.
fn drive_happy_project(s: &mut Scheduler, project: &str, fp: &str, patch_raw: &str, msg_raw: &str) {
    match s.next_action() {
        Some(Action::CheckPath { project: p }) => assert_eq!(p, project),
        other => panic!("expected path check, got {:?}", other.is_some()),
    }
    s.handle_event(Event::PathChecked(true));
    assert!(matches!(s.next_action(), Some(Action::ComputeFingerprint { .. })));
    s.handle_event(Event::FingerprintComputed(Some(fp.to_string())));
    assert!(matches!(s.next_action(), Some(Action::RunSummarize { .. })));
    s.handle_event(Event::AgentOutput(Ok("a plain summary".to_string())));
    assert!(matches!(s.next_action(), Some(Action::RunGeneratePatch { .. })));
    s.handle_event(Event::AgentOutput(Ok(patch_raw.to_string())));
    match s.next_action() {
        Some(Action::GitApply { project: p, .. }) => assert_eq!(p, project),
        _ => panic!("expected apply after a non-empty sanitized patch"),
    }
    s.handle_event(Event::GitDone(true));
    assert!(matches!(s.next_action(), Some(Action::RunCommitMessage { .. })));
    s.handle_event(Event::AgentOutput(Ok(msg_raw.to_string())));
    assert!(matches!(s.next_action(), Some(Action::GitAdd { .. })));
    s.handle_event(Event::GitDone(true));
    assert!(matches!(s.next_action(), Some(Action::GitCommit { .. })));
    s.handle_event(Event::GitDone(true));
    assert!(matches!(s.next_action(), Some(Action::GitPush { .. })));
    s.handle_event(Event::GitDone(true));
    assert!(matches!(s.next_action(), Some(Action::RestartUnit { .. })));
    s.handle_event(Event::Restarted(true));
}

#[test]
fn scenario_unchanged_p1_changed_p2() {
    let mut s = Scheduler::new(&cfg(vec!["p1", "p2"]));
    let diff = "```\n--- a/x\n+++ b/x\n@@ ...\n```";

    // first pass: record p1's fingerprint (patch generation fails), skip p2
    s.begin_pass(1000);
    s.handle_event(Event::PathChecked(true));
    s.handle_event(Event::FingerprintComputed(Some("f1".to_string())));
    s.handle_event(Event::AgentOutput(Ok("p1 summary".to_string())));
    s.handle_event(Event::AgentOutput(Err(GenError {
        exit_code: 1,
        stderr: "agent down".to_string(),
    })));
    s.handle_event(Event::PathChecked(false));
    assert!(s.next_action().is_none());
    s.finish_pass(1001);
    assert_eq!(get(&s, "fp:p1").as_deref(), Some("f1"));
    let p1_summary = get(&s, "summary:p1");

    // second pass: p1 unchanged, p2 changed with a fenced diff
    s.begin_pass(2000);
    assert!(matches!(s.next_action(), Some(Action::CheckPath { .. })));
    s.handle_event(Event::PathChecked(true));
    assert!(matches!(s.next_action(), Some(Action::ComputeFingerprint { .. })));
    let writes = s.handle_event(Event::FingerprintComputed(Some("f1".to_string())));
    // p1 is skipped: no subprocess work follows the fingerprint check, and
    // the only write is the run-level marker of the next current project
    assert_eq!(writes.len(), 1);
    assert_eq!(writes[0].0, "current");
    assert_eq!(writes[0].1, "p2");
    match s.next_action() {
        Some(Action::CheckPath { project }) => assert_eq!(project, "p2"),
        _ => panic!("expected the pass to stand at p2"),
    }
    // p1's cached entries are untouched
    assert_eq!(get(&s, "fp:p1").as_deref(), Some("f1"));
    assert_eq!(get(&s, "summary:p1"), p1_summary);

    drive_happy_project(&mut s, "p2", "f2", diff, "Tidy up x");
    assert!(s.next_action().is_none());
    s.finish_pass(2002);

    // the stored patch is the diff without fences, with one trailing newline
    assert_eq!(get(&s, "patch:p2").as_deref(), Some("--- a/x\n+++ b/x\n@@ ...\n"));
    // the commit log grew by exactly one entry
    let log = s.commit_log("p2");
    assert_eq!(log.len(), 1);
    assert_eq!(log[0], "Tidy up x\n");
    // run record cleared
    assert_eq!(get(&s, "status").as_deref(), Some("idle"));
    assert_eq!(get(&s, "current").as_deref(), Some(""));
}

#[test]
fn failure_isolation_second_project_completes() {
    let mut s = Scheduler::new(&cfg(vec!["a", "b"]));
    s.begin_pass(1);
    s.handle_event(Event::PathChecked(true));
    s.handle_event(Event::FingerprintComputed(Some("fa".to_string())));
    // project a's generation call fails
    s.handle_event(Event::AgentOutput(Err(GenError {
        exit_code: 7,
        stderr: "spawn failed".to_string(),
    })));
    // project b still runs its full pipeline in the same pass
    drive_happy_project(&mut s, "b", "fb", "--- a/y\n+++ b/y\n@@ -1 +1 @@\n-u\n+v", "msg b");
    assert!(s.next_action().is_none());
    s.finish_pass(2);
    assert_eq!(s.commit_log("b").len(), 1);
    assert!(get(&s, "patch:b").is_some());
    // a's failure left no artifacts for a
    assert!(get(&s, "summary:a").is_none());
}

#[test]
fn empty_sanitized_patch_skips_without_error() {
    let mut s = Scheduler::new(&cfg(vec!["solo"]));
    s.begin_pass(5);
    s.handle_event(Event::PathChecked(true));
    s.handle_event(Event::FingerprintComputed(Some("f".to_string())));
    s.handle_event(Event::AgentOutput(Ok("sum".to_string())));
    // no diff marker anywhere: sanitized patch is empty, project is done
    s.handle_event(Event::AgentOutput(Ok("nothing to change here".to_string())));
    assert!(s.next_action().is_none());
    assert!(get(&s, "patch:solo").is_none());
}

#[test]
fn missing_path_skips_project() {
    let mut s = Scheduler::new(&cfg(vec!["gone"]));
    s.begin_pass(5);
    s.handle_event(Event::PathChecked(false));
    assert!(s.next_action().is_none());
}

#[test]
fn unavailable_fingerprint_never_skips() {
    let mut s = Scheduler::new(&cfg(vec!["p"]));
    s.begin_pass(5);
    s.handle_event(Event::PathChecked(true));
    s.handle_event(Event::FingerprintComputed(None));
    // cannot skip: the pass proceeds to summarize
    assert!(matches!(s.next_action(), Some(Action::RunSummarize { .. })));
    s.handle_event(Event::AgentOutput(Ok("sum".to_string())));
    // with no fingerprint available, none is persisted
    assert!(get(&s, "fp:p").is_none());
    assert!(get(&s, "summary:p").is_some());
}

#[test]
fn commit_message_failure_falls_back_to_default() {
    let mut s = Scheduler::new(&cfg(vec!["p"]));
    s.begin_pass(5);
    s.handle_event(Event::PathChecked(true));
    s.handle_event(Event::FingerprintComputed(Some("f".to_string())));
    s.handle_event(Event::AgentOutput(Ok("sum".to_string())));
    s.handle_event(Event::AgentOutput(Ok("--- a/z\n+++ b/z\n@@ -1 +1 @@\n-q\n+r".to_string())));
    s.handle_event(Event::GitDone(true));
    // commit-message generation fails: the commit still happens
    s.handle_event(Event::AgentOutput(Err(GenError {
        exit_code: 2,
        stderr: "no agent".to_string(),
    })));
    assert!(matches!(s.next_action(), Some(Action::GitAdd { .. })));
    s.handle_event(Event::GitDone(true));
    match s.next_action() {
        Some(Action::GitCommit { message, .. }) => {
            assert_eq!(message, "Automated code quality improvement")
        },
        _ => panic!("expected the commit to proceed with the default message"),
    }
}

#[test]
fn failed_push_keeps_commit_log() {
    let mut s = Scheduler::new(&cfg(vec!["p"]));
    s.begin_pass(5);
    s.handle_event(Event::PathChecked(true));
    s.handle_event(Event::FingerprintComputed(Some("f".to_string())));
    s.handle_event(Event::AgentOutput(Ok("sum".to_string())));
    s.handle_event(Event::AgentOutput(Ok("--- a/z\n+++ b/z\n@@ -1 +1 @@\n-q\n+r".to_string())));
    s.handle_event(Event::GitDone(true)); // apply
    s.handle_event(Event::AgentOutput(Ok("message".to_string())));
    s.handle_event(Event::GitDone(true)); // add
    s.handle_event(Event::GitDone(true)); // commit
    s.handle_event(Event::GitDone(false)); // push fails
    assert!(s.next_action().is_none());
    assert_eq!(s.commit_log("p").len(), 0);
}

#[test]
fn restart_failure_is_not_fatal() {
    let mut s = Scheduler::new(&cfg(vec!["p", "q"]));
    s.begin_pass(5);
    drive_restartless(&mut s);
    s.handle_event(Event::Restarted(false));
    // the pass moved on to the next project regardless
    match s.next_action() {
        Some(Action::CheckPath { project }) => assert_eq!(project, "q"),
        _ => panic!("expected the pass to reach q"),
    }
}

fn drive_restartless(s: &mut Scheduler) {
    s.handle_event(Event::PathChecked(true));
    s.handle_event(Event::FingerprintComputed(Some("f".to_string())));
    s.handle_event(Event::AgentOutput(Ok("sum".to_string())));
    s.handle_event(Event::AgentOutput(Ok("--- a/z\n+++ b/z\n@@ -1 +1 @@\n-q\n+r".to_string())));
    s.handle_event(Event::GitDone(true));
    s.handle_event(Event::AgentOutput(Ok("message".to_string())));
    s.handle_event(Event::GitDone(true));
    s.handle_event(Event::GitDone(true));
    s.handle_event(Event::GitDone(true));
    assert!(matches!(s.next_action(), Some(Action::RestartUnit { .. })));
}
