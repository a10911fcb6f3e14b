//! The maintenance orchestrator: a per-project state machine that drives
//! one pass over the configured projects in order. It decides every step —
//! change detection, summarize, patch generation and sanitizing, apply,
//! commit, push, log recording, restart — while the host program only
//! performs the external actions it requests and reports their outcomes
//! back as events. A per-project failure moves the pass to the next
//! project; nothing a project does can abort the pass.

use vstd::prelude::*;
use vstd::string::StrSliceExecFns;
use vstd::string::StringExecFns;

use crate::codex_client::{
    commit_msg_of_raw, patch_text_of_raw, process_commit_message_output, process_patch_output,
    process_summary_output, summary_of_raw, GenError,
};
use crate::commit_log::{bounded_append, log_encoding, push_stored_log, stored_log_spec};
use crate::config::SchedulerConfig;
use crate::oracle::{should_skip, skip_spec};
use crate::restarter::{unit_name, unit_name_spec};
use crate::sanitizer::{clean, clean_spec};
use crate::store::{
    current_key_spec, fp_key, fp_key_spec, lemma_keys_distinct, log_key_spec, patch_key,
    patch_key_spec, project_key, run_end_key_spec, run_level_key, run_start_key_spec,
    status_key_spec, summary_key, summary_key_spec, StatusStore,
};
use crate::text::{clone_string_vec, dec_str, u64_to_dec};

verus! {

/// Where a pass stands within the current project's sub-pipeline.
pub enum Step {
    AwaitPath,
    AwaitFingerprint,
    AwaitSummary { fresh: Option<String> },
    AwaitPatch,
    AwaitApply { patch: String },
    AwaitCommitMsg { patch: String },
    AwaitAdd { msg: String },
    AwaitCommit { msg: String },
    AwaitPush { msg: String },
    AwaitRestart,
    Done,
}

/// Mathematical shape of a step.
pub enum StepModel {
    AwaitPath,
    AwaitFingerprint,
    AwaitSummary { fresh: Option<Seq<char>> },
    AwaitPatch,
    AwaitApply { patch: Seq<char> },
    AwaitCommitMsg { patch: Seq<char> },
    AwaitAdd { msg: Seq<char> },
    AwaitCommit { msg: Seq<char> },
    AwaitPush { msg: Seq<char> },
    AwaitRestart,
    Done,
}

impl DeepView for Step {
    type V = StepModel;

    open spec fn deep_view(&self) -> StepModel {
        match self {
            Step::AwaitPath => StepModel::AwaitPath,
            Step::AwaitFingerprint => StepModel::AwaitFingerprint,
            Step::AwaitSummary { fresh } => StepModel::AwaitSummary { fresh: fresh.deep_view() },
            Step::AwaitPatch => StepModel::AwaitPatch,
            Step::AwaitApply { patch } => StepModel::AwaitApply { patch: patch@ },
            Step::AwaitCommitMsg { patch } => StepModel::AwaitCommitMsg { patch: patch@ },
            Step::AwaitAdd { msg } => StepModel::AwaitAdd { msg: msg@ },
            Step::AwaitCommit { msg } => StepModel::AwaitCommit { msg: msg@ },
            Step::AwaitPush { msg } => StepModel::AwaitPush { msg: msg@ },
            Step::AwaitRestart => StepModel::AwaitRestart,
            Step::Done => StepModel::Done,
        }
    }
}

/// The external work the pass asks the host to perform next.
pub enum Action {
    CheckPath { project: String },
    ComputeFingerprint { project: String },
    RunSummarize { project: String },
    RunGeneratePatch { project: String },
    RunCommitMessage { project: String, diff: String },
    GitApply { project: String, patch: String },
    GitAdd { project: String },
    GitCommit { project: String, message: String },
    GitPush { project: String },
    RestartUnit { unit: String },
}

/// Mathematical shape of an action.
pub enum ActionModel {
    CheckPath { project: Seq<char> },
    ComputeFingerprint { project: Seq<char> },
    RunSummarize { project: Seq<char> },
    RunGeneratePatch { project: Seq<char> },
    RunCommitMessage { project: Seq<char>, diff: Seq<char> },
    GitApply { project: Seq<char>, patch: Seq<char> },
    GitAdd { project: Seq<char> },
    GitCommit { project: Seq<char>, message: Seq<char> },
    GitPush { project: Seq<char> },
    RestartUnit { unit: Seq<char> },
}

impl DeepView for Action {
    type V = ActionModel;

    open spec fn deep_view(&self) -> ActionModel {
        match self {
            Action::CheckPath { project } => ActionModel::CheckPath { project: project@ },
            Action::ComputeFingerprint { project } => ActionModel::ComputeFingerprint {
                project: project@,
            },
            Action::RunSummarize { project } => ActionModel::RunSummarize { project: project@ },
            Action::RunGeneratePatch { project } => ActionModel::RunGeneratePatch {
                project: project@,
            },
            Action::RunCommitMessage { project, diff } => ActionModel::RunCommitMessage {
                project: project@,
                diff: diff@,
            },
            Action::GitApply { project, patch } => ActionModel::GitApply {
                project: project@,
                patch: patch@,
            },
            Action::GitAdd { project } => ActionModel::GitAdd { project: project@ },
            Action::GitCommit { project, message } => ActionModel::GitCommit {
                project: project@,
                message: message@,
            },
            Action::GitPush { project } => ActionModel::GitPush { project: project@ },
            Action::RestartUnit { unit } => ActionModel::RestartUnit { unit: unit@ },
        }
    }
}

/// What the host reports back after performing an action.
pub enum Event {
    PathChecked(bool),
    FingerprintComputed(Option<String>),
    AgentOutput(Result<String, GenError>),
    GitDone(bool),
    Restarted(bool),
}

/// Mathematical shape of an event; a failed generation call carries no
/// information the pass acts on beyond the failure itself.
pub enum EventModel {
    PathChecked(bool),
    FingerprintComputed(Option<Seq<char>>),
    AgentOutput(Option<Seq<char>>),
    GitDone(bool),
    Restarted(bool),
}

/// The shape of an event.
pub open spec fn event_model(ev: Event) -> EventModel {
    match ev {
        Event::PathChecked(b) => EventModel::PathChecked(b),
        Event::FingerprintComputed(f) => EventModel::FingerprintComputed(f.deep_view()),
        Event::AgentOutput(r) => match r {
            Ok(s) => EventModel::AgentOutput(Some(s@)),
            Err(_) => EventModel::AgentOutput(None),
        },
        Event::GitDone(b) => EventModel::GitDone(b),
        Event::Restarted(b) => EventModel::Restarted(b),
    }
}

/// The full model of a scheduler mid-pass.
pub struct SchedModel {
    pub projects: Seq<Seq<char>>,
    pub enabled: bool,
    pub idx: int,
    pub step: StepModel,
    pub store: Map<Seq<char>, Seq<char>>,
}

/// A well-formed scheduler state: the index stays within the project
/// list, and sits strictly inside it whenever a pass is in flight.
pub open spec fn wf(s: SchedModel) -> bool {
    &&& 0 <= s.idx <= s.projects.len()
    &&& (s.step != StepModel::Done ==> s.idx < s.projects.len())
}

/// The fixed commit message used when message generation fails.
pub open spec fn default_commit_message_spec() -> Seq<char> {
    "Automated code quality improvement"@
}

/// Moving on to the next project: the pass records it as current, or ends
/// when none is left.
pub open spec fn advance(s: SchedModel) -> SchedModel {
    if s.idx + 1 < s.projects.len() {
        SchedModel {
            projects: s.projects,
            enabled: s.enabled,
            idx: s.idx + 1,
            step: StepModel::AwaitPath,
            store: s.store.insert(current_key_spec(), s.projects[s.idx + 1]),
        }
    } else {
        SchedModel {
            projects: s.projects,
            enabled: s.enabled,
            idx: s.projects.len() as int,
            step: StepModel::Done,
            store: s.store,
        }
    }
}

/// One step of the pass: what the reported event does to the state and
/// the store. A mismatched event changes nothing.
pub open spec fn transition(s: SchedModel, ev: EventModel) -> SchedModel {
    let p = s.projects[s.idx];
    match (s.step, ev) {
        (StepModel::AwaitPath, EventModel::PathChecked(true)) => SchedModel {
            step: StepModel::AwaitFingerprint,
            ..s
        },
        (StepModel::AwaitPath, EventModel::PathChecked(false)) => advance(s),
        (StepModel::AwaitFingerprint, EventModel::FingerprintComputed(f)) => {
            if skip_spec(s.store, p, f) {
                advance(s)
            } else {
                SchedModel { step: StepModel::AwaitSummary { fresh: f }, ..s }
            }
        },
        (StepModel::AwaitSummary { fresh }, EventModel::AgentOutput(None)) => advance(s),
        (StepModel::AwaitSummary { fresh }, EventModel::AgentOutput(Some(raw))) => {
            let st1 = s.store.insert(summary_key_spec(p), summary_of_raw(raw));
            let st2 = match fresh {
                Some(f) => st1.insert(fp_key_spec(p), f),
                None => st1,
            };
            SchedModel { step: StepModel::AwaitPatch, store: st2, ..s }
        },
        (StepModel::AwaitPatch, EventModel::AgentOutput(None)) => advance(s),
        (StepModel::AwaitPatch, EventModel::AgentOutput(Some(raw))) => {
            let patch = clean_spec(patch_text_of_raw(raw));
            if patch.len() == 0 {
                advance(s)
            } else {
                SchedModel {
                    step: StepModel::AwaitApply { patch },
                    store: s.store.insert(patch_key_spec(p), patch),
                    ..s
                }
            }
        },
        (StepModel::AwaitApply { patch }, EventModel::GitDone(true)) => SchedModel {
            step: StepModel::AwaitCommitMsg { patch },
            ..s
        },
        (StepModel::AwaitApply { patch }, EventModel::GitDone(false)) => advance(s),
        (StepModel::AwaitCommitMsg { patch }, EventModel::AgentOutput(Some(raw))) => SchedModel {
            step: StepModel::AwaitAdd { msg: commit_msg_of_raw(raw) },
            ..s
        },
        (StepModel::AwaitCommitMsg { patch }, EventModel::AgentOutput(None)) => SchedModel {
            step: StepModel::AwaitAdd { msg: default_commit_message_spec() },
            ..s
        },
        (StepModel::AwaitAdd { msg }, EventModel::GitDone(true)) => SchedModel {
            step: StepModel::AwaitCommit { msg },
            ..s
        },
        (StepModel::AwaitAdd { msg }, EventModel::GitDone(false)) => advance(s),
        (StepModel::AwaitCommit { msg }, EventModel::GitDone(true)) => SchedModel {
            step: StepModel::AwaitPush { msg },
            ..s
        },
        (StepModel::AwaitCommit { msg }, EventModel::GitDone(false)) => advance(s),
        (StepModel::AwaitPush { msg }, EventModel::GitDone(true)) => {
            let newlog = log_encoding(bounded_append(stored_log_spec(s.store, p), msg));
            SchedModel {
                step: StepModel::AwaitRestart,
                store: s.store.insert(log_key_spec(p), newlog),
                ..s
            }
        },
        (StepModel::AwaitPush { msg }, EventModel::GitDone(false)) => advance(s),
        (StepModel::AwaitRestart, EventModel::Restarted(_)) => advance(s),
        _ => s,
    }
}

/// The external action a state proposes, if the pass is not finished.
pub open spec fn action_of(s: SchedModel) -> Option<ActionModel> {
    let p = s.projects[s.idx];
    match s.step {
        StepModel::AwaitPath => Some(ActionModel::CheckPath { project: p }),
        StepModel::AwaitFingerprint => Some(ActionModel::ComputeFingerprint { project: p }),
        StepModel::AwaitSummary { fresh } => Some(ActionModel::RunSummarize { project: p }),
        StepModel::AwaitPatch => Some(ActionModel::RunGeneratePatch { project: p }),
        StepModel::AwaitApply { patch } => Some(ActionModel::GitApply { project: p, patch }),
        StepModel::AwaitCommitMsg { patch } => Some(
            ActionModel::RunCommitMessage { project: p, diff: patch },
        ),
        StepModel::AwaitAdd { msg } => Some(ActionModel::GitAdd { project: p }),
        StepModel::AwaitCommit { msg } => Some(
            ActionModel::GitCommit { project: p, message: msg },
        ),
        StepModel::AwaitPush { msg } => Some(ActionModel::GitPush { project: p }),
        StepModel::AwaitRestart => Some(
            ActionModel::RestartUnit { unit: unit_name_spec(p) },
        ),
        StepModel::Done => None,
    }
}

/// The store after a list of writes is applied in order.
pub open spec fn apply_writes(
    m: Map<Seq<char>, Seq<char>>,
    ws: Seq<(Seq<char>, Seq<char>)>,
) -> Map<Seq<char>, Seq<char>>
    decreases ws.len(),
{
    if ws.len() == 0 {
        m
    } else {
        apply_writes(m.insert(ws[0].0, ws[0].1), ws.skip(1))
    }
}

proof fn lemma_apply_writes_push(
    m: Map<Seq<char>, Seq<char>>,
    ws: Seq<(Seq<char>, Seq<char>)>,
    k: Seq<char>,
    v: Seq<char>,
)
    ensures
        apply_writes(m, ws.push((k, v))) == apply_writes(m, ws).insert(k, v),
    decreases ws.len(),
{
    if ws.len() == 0 {
        assert(ws.push((k, v))[0] == (k, v));
        assert(ws.push((k, v)).skip(1) =~= Seq::<(Seq<char>, Seq<char>)>::empty());
        assert(apply_writes(m.insert(k, v), Seq::empty()) == m.insert(k, v));
    } else {
        assert(ws.push((k, v))[0] == ws[0]);
        assert(ws.push((k, v)).skip(1) =~= ws.skip(1).push((k, v)));
        lemma_apply_writes_push(m.insert(ws[0].0, ws[0].1), ws.skip(1), k, v);
    }
}

/// The state reached when a sequence of events is reported in order.
pub open spec fn run_fold(s: SchedModel, evs: Seq<EventModel>) -> SchedModel
    decreases evs.len(),
{
    if evs.len() == 0 {
        s
    } else {
        run_fold(transition(s, evs[0]), evs.skip(1))
    }
}

/// Drives one maintenance pass over the configured projects.
pub struct Scheduler {
    projects: Vec<String>,
    enabled: bool,
    idx: usize,
    step: Step,
    store: StatusStore,
}

impl View for Scheduler {
    type V = SchedModel;

    closed spec fn view(&self) -> SchedModel {
        SchedModel {
            projects: self.projects.deep_view(),
            enabled: self.enabled,
            idx: self.idx as int,
            step: self.step.deep_view(),
            store: self.store@,
        }
    }
}

impl Scheduler {
    /// A scheduler over the configured projects; no pass is in flight.
    pub fn new(config: &SchedulerConfig) -> (s: Self)
        ensures
            s@.projects == config.projects.deep_view(),
            s@.enabled == config.enabled,
            s@.step == StepModel::Done,
            s@.store == Map::<Seq<char>, Seq<char>>::empty(),
            wf(s@),
    {
        let s = Scheduler {
            projects: clone_string_vec(&config.projects),
            enabled: config.enabled,
            idx: 0,
            step: Step::Done,
            store: StatusStore::new(),
        };
        s
    }

    /// Whether the periodic trigger may start passes at all.
    pub fn is_enabled(&self) -> (r: bool)
        ensures
            r == self@.enabled,
    {
        self.enabled
    }

    /// Read access to the status store, for the dashboard and the API.
    pub fn store_ref(&self) -> (r: &StatusStore)
        ensures
            r@ == self@.store,
    {
        &self.store
    }

    /// A project's decoded commit log, as the dashboard shows it.
    pub fn commit_log(&self, project: &str) -> (r: Vec<String>)
        ensures
            r.deep_view() == stored_log_spec(self@.store, project@),
    {
        crate::commit_log::read_stored_log(&self.store, project)
    }

    /// Begins a pass: records the run as started and positions the pass at
    /// the first project. Returns the writes made, for mirroring to
    /// durable storage.
    pub fn begin_pass(&mut self, now: u64) -> (writes: Vec<(String, String)>)
        ensures
            final(self)@.projects == old(self)@.projects,
            final(self)@.enabled == old(self)@.enabled,
            final(self)@.idx == 0,
            final(self)@.step == (if old(self)@.projects.len() > 0 {
                StepModel::AwaitPath
            } else {
                StepModel::Done
            }),
            final(self)@.store == apply_writes(old(self)@.store, writes.deep_view()),
            writes.deep_view() == begin_writes(old(self)@, now),
            wf(final(self)@),
    {
        let mut writes: Vec<(String, String)> = Vec::new();
        let ghost m0 = self.store@;
        proof {
            assert(writes.deep_view() =~= Seq::<(Seq<char>, Seq<char>)>::empty());
        }
        let ghost w0 = writes.deep_view();
        self.write_through(&mut writes, String::from_str("status"), String::from_str("running"));
        proof {
            lemma_apply_writes_push(m0, w0, "status"@, "running"@);
        }
        let ghost w1 = writes.deep_view();
        self.write_through(&mut writes, String::from_str("run.start"), u64_to_dec(now));
        proof {
            lemma_apply_writes_push(m0, w1, "run.start"@, dec_str(now as nat));
        }
        self.idx = 0;
        if self.projects.len() > 0 {
            let p = self.projects[0].clone();
            let ghost w2 = writes.deep_view();
            let ghost pv = p@;
            self.write_through(&mut writes, String::from_str("current"), p);
            proof {
                lemma_apply_writes_push(m0, w2, "current"@, pv);
            }
            self.step = Step::AwaitPath;
        } else {
            self.step = Step::Done;
        }
        proof {
            reveal_strlit("status");
            reveal_strlit("running");
            reveal_strlit("run.start");
            reveal_strlit("current");
            assert(writes.deep_view() =~~= begin_writes(old(self)@, now));
        }
        writes
    }

    /// Ends a pass: the run record is cleared — status idle, end time
    /// recorded, current project reset. Returns the writes made.
    pub fn finish_pass(&mut self, now: u64) -> (writes: Vec<(String, String)>)
        ensures
            final(self)@.projects == old(self)@.projects,
            final(self)@.enabled == old(self)@.enabled,
            final(self)@.step == StepModel::Done,
            final(self)@.store == apply_writes(old(self)@.store, writes.deep_view()),
            writes.deep_view() == finish_writes(now),
            wf(final(self)@),
    {
        let mut writes: Vec<(String, String)> = Vec::new();
        proof {
            assert(writes.deep_view() =~= Seq::<(Seq<char>, Seq<char>)>::empty());
        }
        let ghost m0 = self.store@;
        let ghost w0 = writes.deep_view();
        self.write_through(&mut writes, String::from_str("status"), String::from_str("idle"));
        proof {
            lemma_apply_writes_push(m0, w0, "status"@, "idle"@);
        }
        let ghost w1 = writes.deep_view();
        self.write_through(&mut writes, String::from_str("run.end"), u64_to_dec(now));
        proof {
            lemma_apply_writes_push(m0, w1, "run.end"@, dec_str(now as nat));
        }
        let ghost w2 = writes.deep_view();
        self.write_through(&mut writes, String::from_str("current"), String::new());
        proof {
            lemma_apply_writes_push(m0, w2, "current"@, Seq::<char>::empty());
        }
        self.step = Step::Done;
        if self.idx > self.projects.len() {
            self.idx = self.projects.len();
        }
        proof {
            reveal_strlit("status");
            reveal_strlit("idle");
            reveal_strlit("run.end");
            reveal_strlit("current");
            assert(writes.deep_view() =~~= finish_writes(now));
        }
        writes
    }

    /// The external action the pass needs next, or nothing when the pass
    /// is over.
    pub fn next_action(&self) -> (a: Option<Action>)
        requires
            wf(self@),
        ensures
            a.deep_view() == action_of(self@),
    {
        let p: &String = if self.idx < self.projects.len() {
            &self.projects[self.idx]
        } else {
            proof {
                assert(self.step.deep_view() == StepModel::Done);
            }
            return None;
        };
        match &self.step {
            Step::AwaitPath => Some(Action::CheckPath { project: p.clone() }),
            Step::AwaitFingerprint => Some(Action::ComputeFingerprint { project: p.clone() }),
            Step::AwaitSummary { fresh } => Some(Action::RunSummarize { project: p.clone() }),
            Step::AwaitPatch => Some(Action::RunGeneratePatch { project: p.clone() }),
            Step::AwaitApply { patch } => Some(
                Action::GitApply { project: p.clone(), patch: patch.clone() },
            ),
            Step::AwaitCommitMsg { patch } => Some(
                Action::RunCommitMessage { project: p.clone(), diff: patch.clone() },
            ),
            Step::AwaitAdd { msg } => Some(Action::GitAdd { project: p.clone() }),
            Step::AwaitCommit { msg } => Some(
                Action::GitCommit { project: p.clone(), message: msg.clone() },
            ),
            Step::AwaitPush { msg } => Some(Action::GitPush { project: p.clone() }),
            Step::AwaitRestart => Some(Action::RestartUnit { unit: unit_name(p.as_str()) }),
            Step::Done => None,
        }
    }

    /// Applies one reported event: moves the pass and the store exactly as
    /// `transition` prescribes, and returns the writes made, for mirroring
    /// to durable storage. A mismatched event changes nothing; no event
    /// can abort the pass.
    pub fn handle_event(&mut self, ev: Event) -> (writes: Vec<(String, String)>)
        requires
            wf(old(self)@),
        ensures
            final(self)@ == transition(old(self)@, event_model(ev)),
            wf(final(self)@),
            final(self)@.store == apply_writes(old(self)@.store, writes.deep_view()),
    {
        let ghost pre = self@;
        let ghost evm = event_model(ev);
        let mut writes: Vec<(String, String)> = Vec::new();
        proof {
            assert(writes.deep_view() =~= Seq::<(Seq<char>, Seq<char>)>::empty());
        }
        let mut step = Step::Done;
        core::mem::swap(&mut step, &mut self.step);
        proof {
            assert(step.deep_view() == pre.step);
        }
        match (step, ev) {
            (Step::AwaitPath, Event::PathChecked(true)) => {
                self.step = Step::AwaitFingerprint;
                proof {
                    assert(self@.store == apply_writes(pre.store, writes.deep_view()));
                }
            },
            (Step::AwaitPath, Event::PathChecked(false)) => {
                self.advance_project(&mut writes);
                proof {
                    assert(final(self)@ == advance(pre));
                    assert(writes.deep_view() =~~= advance_writes(pre));
                    lemma_apply_writes_advance(pre);
                    assert(self@.store == apply_writes(pre.store, writes.deep_view()));
                }
            },
            (Step::AwaitFingerprint, Event::FingerprintComputed(f)) => {
                proof {
                    assert(self.idx < self.projects@.len());
                }
                let skip = {
                    let p = &self.projects[self.idx];
                    should_skip(&self.store, p.as_str(), &f)
                };
                proof {
                    assert(skip == skip_spec(pre.store, pre.projects[pre.idx], f.deep_view()));
                }
                if skip {
                    self.advance_project(&mut writes);
                    proof {
                        assert(final(self)@ == advance(pre));
                        assert(writes.deep_view() =~~= advance_writes(pre));
                        lemma_apply_writes_advance(pre);
                        assert(self@.store == apply_writes(pre.store, writes.deep_view()));
                    }
                } else {
                    self.step = Step::AwaitSummary { fresh: f };
                    proof {
                        assert(self@.store == apply_writes(pre.store, writes.deep_view()));
                    }
                }
            },
            (Step::AwaitSummary { fresh }, Event::AgentOutput(res)) => {
                match res {
                    Ok(raw) => {
                        proof {
                            assert(self.idx < self.projects@.len());
                        }
                        let summary = process_summary_output(raw.as_str());
                        let p = self.projects[self.idx].clone();
                        let skey = summary_key(p.as_str());
                        let ghost w0 = writes.deep_view();
                        let ghost sv = summary@;
                        self.write_through(&mut writes, skey, summary);
                        proof {
                            lemma_apply_writes_push(
                                pre.store,
                                w0,
                                summary_key_spec(pre.projects[pre.idx]),
                                sv,
                            );
                        }
                        match fresh {
                            Some(fpv) => {
                                let fkey = fp_key(p.as_str());
                                let ghost w1 = writes.deep_view();
                                let ghost fv = fpv@;
                                self.write_through(&mut writes, fkey, fpv);
                                proof {
                                    lemma_apply_writes_push(
                                        pre.store,
                                        w1,
                                        fp_key_spec(pre.projects[pre.idx]),
                                        fv,
                                    );
                                }
                            },
                            None => {},
                        }
                        self.step = Step::AwaitPatch;
                        proof {
                            assert(self@.store == apply_writes(pre.store, writes.deep_view()));
                        }
                    },
                    Err(_) => {
                        self.advance_project(&mut writes);
                        proof {
                            assert(final(self)@ == advance(pre));
                            assert(writes.deep_view() =~~= advance_writes(pre));
                            lemma_apply_writes_advance(pre);
                            assert(self@.store == apply_writes(pre.store, writes.deep_view()));
                        }
                    },
                }
            },
            (Step::AwaitPatch, Event::AgentOutput(res)) => {
                match res {
                    Ok(raw) => {
                        let text = process_patch_output(raw.as_str());
                        let patch = clean(text.as_str());
                        if patch.as_str().unicode_len() == 0 {
                            self.advance_project(&mut writes);
                            proof {
                                assert(final(self)@ == advance(pre));
                                assert(writes.deep_view() =~~= advance_writes(pre));
                                lemma_apply_writes_advance(pre);
                                assert(self@.store == apply_writes(
                                    pre.store,
                                    writes.deep_view(),
                                ));
                            }
                        } else {
                            proof {
                                assert(self.idx < self.projects@.len());
                            }
                            let p = self.projects[self.idx].clone();
                            let pkey = patch_key(p.as_str());
                            let stored = patch.clone();
                            let ghost w0 = writes.deep_view();
                            let ghost pv = patch@;
                            self.write_through(&mut writes, pkey, stored);
                            proof {
                                lemma_apply_writes_push(
                                    pre.store,
                                    w0,
                                    patch_key_spec(pre.projects[pre.idx]),
                                    pv,
                                );
                            }
                            self.step = Step::AwaitApply { patch };
                            proof {
                                assert(self@.store == apply_writes(
                                    pre.store,
                                    writes.deep_view(),
                                ));
                            }
                        }
                    },
                    Err(_) => {
                        self.advance_project(&mut writes);
                        proof {
                            assert(final(self)@ == advance(pre));
                            assert(writes.deep_view() =~~= advance_writes(pre));
                            lemma_apply_writes_advance(pre);
                            assert(self@.store == apply_writes(pre.store, writes.deep_view()));
                        }
                    },
                }
            },
            (Step::AwaitApply { patch }, Event::GitDone(ok)) => {
                if ok {
                    self.step = Step::AwaitCommitMsg { patch };
                    proof {
                        assert(self@.store == apply_writes(pre.store, writes.deep_view()));
                    }
                } else {
                    self.advance_project(&mut writes);
                    proof {
                        assert(final(self)@ == advance(pre));
                        assert(writes.deep_view() =~~= advance_writes(pre));
                        lemma_apply_writes_advance(pre);
                        assert(self@.store == apply_writes(pre.store, writes.deep_view()));
                    }
                }
            },
            (Step::AwaitCommitMsg { patch }, Event::AgentOutput(res)) => {
                match res {
                    Ok(raw) => {
                        let msg = process_commit_message_output(raw.as_str());
                        self.step = Step::AwaitAdd { msg };
                        proof {
                            assert(self@.store == apply_writes(pre.store, writes.deep_view()));
                        }
                    },
                    Err(_) => {
                        self.step = Step::AwaitAdd {
                            msg: String::from_str("Automated code quality improvement"),
                        };
                        proof {
                            assert(self@.store == apply_writes(pre.store, writes.deep_view()));
                        }
                    },
                }
            },
            (Step::AwaitAdd { msg }, Event::GitDone(ok)) => {
                if ok {
                    self.step = Step::AwaitCommit { msg };
                    proof {
                        assert(self@.store == apply_writes(pre.store, writes.deep_view()));
                    }
                } else {
                    self.advance_project(&mut writes);
                    proof {
                        assert(final(self)@ == advance(pre));
                        assert(writes.deep_view() =~~= advance_writes(pre));
                        lemma_apply_writes_advance(pre);
                        assert(self@.store == apply_writes(pre.store, writes.deep_view()));
                    }
                }
            },
            (Step::AwaitCommit { msg }, Event::GitDone(ok)) => {
                if ok {
                    self.step = Step::AwaitPush { msg };
                    proof {
                        assert(self@.store == apply_writes(pre.store, writes.deep_view()));
                    }
                } else {
                    self.advance_project(&mut writes);
                    proof {
                        assert(final(self)@ == advance(pre));
                        assert(writes.deep_view() =~~= advance_writes(pre));
                        lemma_apply_writes_advance(pre);
                        assert(self@.store == apply_writes(pre.store, writes.deep_view()));
                    }
                }
            },
            (Step::AwaitPush { msg }, Event::GitDone(ok)) => {
                if ok {
                    proof {
                        assert(self.idx < self.projects@.len());
                    }
                    let p = self.projects[self.idx].clone();
                    let enc = push_stored_log(&mut self.store, p.as_str(), msg);
                    let lk = crate::store::log_key(p.as_str());
                    let ghost ev2 = enc@;
                    writes.push((lk, enc));
                    proof {
                        assert(writes.deep_view() =~~= Seq::<(Seq<char>, Seq<char>)>::empty().push(
                            (log_key_spec(pre.projects[pre.idx]), ev2),
                        ));
                        lemma_apply_writes_push(
                            pre.store,
                            Seq::empty(),
                            log_key_spec(pre.projects[pre.idx]),
                            ev2,
                        );
                    }
                    self.step = Step::AwaitRestart;
                    proof {
                        assert(self@.store == apply_writes(pre.store, writes.deep_view()));
                    }
                } else {
                    self.advance_project(&mut writes);
                    proof {
                        assert(final(self)@ == advance(pre));
                        assert(writes.deep_view() =~~= advance_writes(pre));
                        lemma_apply_writes_advance(pre);
                        assert(self@.store == apply_writes(pre.store, writes.deep_view()));
                    }
                }
            },
            (Step::AwaitRestart, Event::Restarted(_)) => {
                self.advance_project(&mut writes);
                proof {
                    assert(final(self)@ == advance(pre));
                    assert(writes.deep_view() =~~= advance_writes(pre));
                    lemma_apply_writes_advance(pre);
                    assert(self@.store == apply_writes(pre.store, writes.deep_view()));
                }
            },
            (other, _) => {
                self.step = other;
                proof {
                    assert(self@.store == apply_writes(pre.store, writes.deep_view()));
                }
            },
        }
        writes
    }

    /// Writes one key both into the in-memory store and onto the list of
    /// writes handed back for mirroring.
    fn write_through(&mut self, writes: &mut Vec<(String, String)>, key: String, value: String)
        ensures
            final(self)@.store == old(self)@.store.insert(key@, value@),
            final(self)@.projects == old(self)@.projects,
            final(self)@.enabled == old(self)@.enabled,
            final(self)@.idx == old(self)@.idx,
            final(self)@.step == old(self)@.step,
            final(writes).deep_view() == old(writes).deep_view().push((key@, value@)),
    {
        let ghost kv = (key@, value@);
        let k2 = key.clone();
        let v2 = value.clone();
        writes.push((k2, v2));
        self.store.insert(key, value);
        proof {
            assert(writes.deep_view() =~~= old(writes).deep_view().push(kv));
        }
    }

    /// Moves the pass to the next project (or ends it), recording the new
    /// current project.
    fn advance_project(&mut self, writes: &mut Vec<(String, String)>)
        requires
            0 <= old(self)@.idx < old(self)@.projects.len(),
        ensures
            final(self)@ == advance(old(self)@),
            final(writes).deep_view() == old(writes).deep_view() + advance_writes(old(self)@),
    {
        let n = self.projects.len();
        proof {
            assert(self.idx < n);
        }
        if self.idx < n - 1 {
            self.idx = self.idx + 1;
            let p = self.projects[self.idx].clone();
            self.step = Step::AwaitPath;
            let ghost kv = (current_key_spec(), p@);
            let k = String::from_str("current");
            writes.push((k, p.clone()));
            self.store.insert(String::from_str("current"), p);
            proof {
                reveal_strlit("current");
                assert(writes.deep_view() =~~= old(writes).deep_view() + advance_writes(
                    old(self)@,
                ));
            }
        } else {
            self.idx = self.projects.len();
            self.step = Step::Done;
            proof {
                assert(advance_writes(old(self)@) =~= Seq::<(Seq<char>, Seq<char>)>::empty());
                assert(writes.deep_view() =~~= old(writes).deep_view() + advance_writes(
                    old(self)@,
                ));
            }
        }
    }
}

/// The writes `begin_pass` makes.
pub open spec fn begin_writes(s: SchedModel, now: u64) -> Seq<(Seq<char>, Seq<char>)> {
    let base = seq![
        (status_key_spec(), "running"@),
        (run_start_key_spec(), dec_str(now as nat)),
    ];
    if s.projects.len() > 0 {
        base.push((current_key_spec(), s.projects[0]))
    } else {
        base
    }
}

/// The writes `finish_pass` makes.
pub open spec fn finish_writes(now: u64) -> Seq<(Seq<char>, Seq<char>)> {
    seq![
        (status_key_spec(), "idle"@),
        (run_end_key_spec(), dec_str(now as nat)),
        (current_key_spec(), Seq::<char>::empty()),
    ]
}

/// The write `advance` makes: the next current project, if one is left.
pub open spec fn advance_writes(s: SchedModel) -> Seq<(Seq<char>, Seq<char>)> {
    if s.idx + 1 < s.projects.len() {
        seq![(current_key_spec(), s.projects[s.idx + 1])]
    } else {
        Seq::empty()
    }
}

proof fn lemma_apply_writes_advance(s: SchedModel)
    ensures
        apply_writes(s.store, advance_writes(s)) == advance(s).store,
{
    let ws = advance_writes(s);
    if s.idx + 1 < s.projects.len() {
        assert(ws.len() == 1);
        assert(ws[0] == (current_key_spec(), s.projects[s.idx + 1]));
        assert(ws.skip(1) =~= Seq::<(Seq<char>, Seq<char>)>::empty());
        let m1 = s.store.insert(ws[0].0, ws[0].1);
        assert(apply_writes(s.store, ws) == apply_writes(m1, ws.skip(1)));
        assert(apply_writes(m1, ws.skip(1)) == m1);
        assert(m1 == advance(s).store);
    } else {
        assert(ws.len() == 0);
        assert(apply_writes(s.store, ws) == s.store);
    }
}

proof fn lemma_apply_writes_append(
    m: Map<Seq<char>, Seq<char>>,
    a: Seq<(Seq<char>, Seq<char>)>,
    b: Seq<(Seq<char>, Seq<char>)>,
)
    ensures
        apply_writes(m, a + b) == apply_writes(apply_writes(m, a), b),
    decreases a.len(),
{
    if a.len() == 0 {
        assert(a + b =~= b);
    } else {
        assert((a + b)[0] == a[0]);
        assert((a + b).skip(1) =~= a.skip(1) + b);
        lemma_apply_writes_append(m.insert(a[0].0, a[0].1), a.skip(1), b);
    }
}


/// One transition never leaves the project list, never moves the pass
/// backwards, changes no configuration, and keeps the state well-formed:
/// there is no event a pass cannot absorb.
pub proof fn lemma_transition_preserves(s: SchedModel, ev: EventModel)
    requires
        wf(s),
    ensures
        wf(transition(s, ev)),
        transition(s, ev).projects == s.projects,
        transition(s, ev).enabled == s.enabled,
        transition(s, ev).idx >= s.idx,
{
}

/// A transition writes only run-level keys and keys that belong to the
/// project the pass currently stands at.
pub proof fn lemma_transition_footprint(s: SchedModel, ev: EventModel, k: Seq<char>)
    requires
        wf(s),
        !run_level_key(k),
        s.step != StepModel::Done ==> !project_key(s.projects[s.idx], k),
    ensures
        transition(s, ev).store.contains_key(k) == s.store.contains_key(k),
        s.store.contains_key(k) ==> transition(s, ev).store[k] == s.store[k],
{
}

/// Folding any event sequence keeps the state well-formed, the project
/// list and configuration fixed, and the position monotone.
pub proof fn lemma_run_fold_preserves(s: SchedModel, evs: Seq<EventModel>)
    requires
        wf(s),
    ensures
        wf(run_fold(s, evs)),
        run_fold(s, evs).projects == s.projects,
        run_fold(s, evs).enabled == s.enabled,
        run_fold(s, evs).idx >= s.idx,
    decreases evs.len(),
{
    if evs.len() > 0 {
        lemma_transition_preserves(s, evs[0]);
        lemma_run_fold_preserves(transition(s, evs[0]), evs.skip(1));
    }
}

/// A key that is not run-level and belongs to no project at or past the
/// pass's position survives the rest of the pass untouched.
pub proof fn lemma_pass_preserves_foreign_keys(s: SchedModel, evs: Seq<EventModel>, k: Seq<char>)
    requires
        wf(s),
        !run_level_key(k),
        forall|j: int| s.idx <= j < s.projects.len() ==> !project_key(#[trigger] s.projects[j], k),
    ensures
        run_fold(s, evs).store.contains_key(k) == s.store.contains_key(k),
        s.store.contains_key(k) ==> run_fold(s, evs).store[k] == s.store[k],
    decreases evs.len(),
{
    if evs.len() > 0 {
        let t = transition(s, evs[0]);
        lemma_transition_preserves(s, evs[0]);
        lemma_transition_footprint(s, evs[0], k);
        lemma_pass_preserves_foreign_keys(t, evs.skip(1), k);
    }
}

/// Whether a state's next proposed action is a generation call for `p`.
pub open spec fn proposes_generation_for(s: SchedModel, p: Seq<char>) -> bool {
    match action_of(s) {
        Some(ActionModel::RunSummarize { project }) => project == p,
        Some(ActionModel::RunGeneratePatch { project }) => project == p,
        Some(ActionModel::RunCommitMessage { project, diff }) => project == p,
        _ => false,
    }
}

/// Idempotence under no change: when the fresh fingerprint equals the one
/// recorded for the current project, the pass skips it. The skip writes
/// nothing but the run-level marker of the next current project, and —
/// as long as the project appears only once from its position on — no
/// later step of the pass proposes a generation call for it or touches
/// its cached fingerprint or summary entries.
pub proof fn lemma_idempotent_when_unchanged(s: SchedModel, f: Seq<char>, evs: Seq<EventModel>)
    requires
        wf(s),
        s.step == StepModel::AwaitFingerprint,
        s.store.contains_key(fp_key_spec(s.projects[s.idx])),
        s.store[fp_key_spec(s.projects[s.idx])] == f,
        forall|j: int|
            s.idx < j < s.projects.len() ==> #[trigger] s.projects[j] != s.projects[s.idx],
    ensures
        ({
            let p = s.projects[s.idx];
            let t0 = transition(s, EventModel::FingerprintComputed(Some(f)));
            let tn = run_fold(t0, evs);
            &&& t0.idx == s.idx + 1
            &&& forall|k: Seq<char>|
                !run_level_key(k) ==> t0.store.contains_key(k) == s.store.contains_key(k) && (
                s.store.contains_key(k) ==> t0.store[k] == s.store[k])
            &&& tn.store.contains_key(fp_key_spec(p)) && tn.store[fp_key_spec(p)] == f
            &&& tn.store.contains_key(summary_key_spec(p)) == s.store.contains_key(
                summary_key_spec(p),
            )
            &&& (s.store.contains_key(summary_key_spec(p)) ==> tn.store[summary_key_spec(p)]
                == s.store[summary_key_spec(p)])
            &&& forall|i: int|
                0 <= i <= evs.len() ==> !proposes_generation_for(
                    #[trigger] run_fold(t0, evs.take(i)),
                    p,
                )
        }),
{
    let p = s.projects[s.idx];
    let t0 = transition(s, EventModel::FingerprintComputed(Some(f)));
    assert(skip_spec(s.store, p, Some(f)));
    assert(t0 == advance(s));
    lemma_keys_distinct(p, p);
    assert forall|k: Seq<char>| !run_level_key(k) implies t0.store.contains_key(k)
        == s.store.contains_key(k) && (s.store.contains_key(k) ==> t0.store[k] == s.store[k]) by {
        assert(run_level_key(current_key_spec()));
    }
    lemma_transition_preserves(s, EventModel::FingerprintComputed(Some(f)));
    assert forall|j: int| t0.idx <= j < t0.projects.len() implies !project_key(
        #[trigger] t0.projects[j],
        fp_key_spec(p),
    ) by {
        lemma_keys_distinct(p, t0.projects[j]);
        assert(s.projects[j] != p);
    }
    assert forall|j: int| t0.idx <= j < t0.projects.len() implies !project_key(
        #[trigger] t0.projects[j],
        summary_key_spec(p),
    ) by {
        lemma_keys_distinct(p, t0.projects[j]);
        lemma_keys_distinct(t0.projects[j], p);
        assert(s.projects[j] != p);
    }
    lemma_pass_preserves_foreign_keys(t0, evs, fp_key_spec(p));
    lemma_pass_preserves_foreign_keys(t0, evs, summary_key_spec(p));
    assert forall|i: int| 0 <= i <= evs.len() implies !proposes_generation_for(
        #[trigger] run_fold(t0, evs.take(i)),
        p,
    ) by {
        lemma_run_fold_preserves(t0, evs.take(i));
        let ti = run_fold(t0, evs.take(i));
        if ti.step != StepModel::Done {
            assert(ti.idx > s.idx);
            assert(ti.projects[ti.idx] != p);
        }
    }
}

/// Failure isolation: a failed generation call for the current project
/// only moves the pass to its successor — the store keeps every key but
/// the run-level marker of the new current project, the pass stays
/// well-formed, and later projects see exactly the state they would have
/// seen; no per-project failure can abort the pass or surface as a
/// pipeline-level error.
pub proof fn lemma_failure_isolation(s: SchedModel)
    requires
        wf(s),
        s.step matches StepModel::AwaitSummary { .. } || s.step == StepModel::AwaitPatch,
    ensures
        ({
            let t = transition(s, EventModel::AgentOutput(None));
            &&& t == advance(s)
            &&& t.idx == s.idx + 1
            &&& wf(t)
            &&& forall|k: Seq<char>|
                k != current_key_spec() ==> t.store.contains_key(k) == s.store.contains_key(k) && (
                s.store.contains_key(k) ==> t.store[k] == s.store[k])
        }),
{
    lemma_transition_preserves(s, EventModel::AgentOutput(None));
}

/// The events of one project's full sub-pipeline, in the order the pass
/// requests them: path present, fresh fingerprint, summary output, patch
/// output, apply, commit-message output, stage, commit, push, restart
/// outcome.
pub open spec fn happy_events(
    f: Seq<char>,
    raw_s: Seq<char>,
    raw_p: Seq<char>,
    raw_m: Seq<char>,
    restarted: bool,
) -> Seq<EventModel> {
    seq![
        EventModel::PathChecked(true),
        EventModel::FingerprintComputed(Some(f)),
        EventModel::AgentOutput(Some(raw_s)),
        EventModel::AgentOutput(Some(raw_p)),
        EventModel::GitDone(true),
        EventModel::AgentOutput(Some(raw_m)),
        EventModel::GitDone(true),
        EventModel::GitDone(true),
        EventModel::GitDone(true),
        EventModel::Restarted(restarted),
    ]
}

proof fn lemma_run_fold_step(s: SchedModel, evs: Seq<EventModel>, i: int)
    requires
        0 <= i < evs.len(),
    ensures
        run_fold(s, evs.skip(i)) == run_fold(transition(s, evs[i]), evs.skip(i + 1)),
{
    assert(evs.skip(i)[0] == evs[i]);
    assert(evs.skip(i).skip(1) =~= evs.skip(i + 1));
}

/// A project whose path exists, whose fingerprint changed, whose agent
/// calls succeed with a non-empty sanitized patch, and whose apply, stage,
/// commit and push succeed, runs its sub-pipeline to the very end —
/// whatever happened to the projects before it: the stored summary, the
/// new fingerprint, the sanitized patch and the commit log grown by
/// exactly its commit message all stand in the store, and only then does
/// the pass move on.
pub proof fn lemma_project_completes(
    s: SchedModel,
    f: Seq<char>,
    raw_s: Seq<char>,
    raw_p: Seq<char>,
    raw_m: Seq<char>,
    restarted: bool,
)
    requires
        wf(s),
        s.step == StepModel::AwaitPath,
        !skip_spec(s.store, s.projects[s.idx], Some(f)),
        clean_spec(patch_text_of_raw(raw_p)).len() > 0,
    ensures
        ({
            let p = s.projects[s.idx];
            let t = run_fold(s, happy_events(f, raw_s, raw_p, raw_m, restarted));
            &&& t.idx == s.idx + 1
            &&& t.store.contains_key(summary_key_spec(p)) && t.store[summary_key_spec(p)]
                == summary_of_raw(raw_s)
            &&& t.store.contains_key(fp_key_spec(p)) && t.store[fp_key_spec(p)] == f
            &&& t.store.contains_key(patch_key_spec(p)) && t.store[patch_key_spec(p)]
                == clean_spec(patch_text_of_raw(raw_p))
            &&& t.store.contains_key(log_key_spec(p)) && t.store[log_key_spec(p)] == log_encoding(
                bounded_append(stored_log_spec(s.store, p), commit_msg_of_raw(raw_m)),
            )
        }),
{
    let p = s.projects[s.idx];
    let evs = happy_events(f, raw_s, raw_p, raw_m, restarted);
    lemma_keys_distinct(p, p);
    let s1 = transition(s, evs[0]);
    let s2 = transition(s1, evs[1]);
    let s3 = transition(s2, evs[2]);
    let s4 = transition(s3, evs[3]);
    let s5 = transition(s4, evs[4]);
    let s6 = transition(s5, evs[5]);
    let s7 = transition(s6, evs[6]);
    let s8 = transition(s7, evs[7]);
    let s9 = transition(s8, evs[8]);
    let s10 = transition(s9, evs[9]);
    assert(evs.skip(0) =~= evs);
    lemma_run_fold_step(s, evs, 0);
    lemma_run_fold_step(s1, evs, 1);
    lemma_run_fold_step(s2, evs, 2);
    lemma_run_fold_step(s3, evs, 3);
    lemma_run_fold_step(s4, evs, 4);
    lemma_run_fold_step(s5, evs, 5);
    lemma_run_fold_step(s6, evs, 6);
    lemma_run_fold_step(s7, evs, 7);
    lemma_run_fold_step(s8, evs, 8);
    lemma_run_fold_step(s9, evs, 9);
    assert(evs.skip(10) =~= Seq::<EventModel>::empty());
    assert(run_fold(s, evs) == s10);
    assert(s1.step == StepModel::AwaitFingerprint);
    assert(s2.step == StepModel::AwaitSummary { fresh: Some(f) });
    assert(s3.step == StepModel::AwaitPatch);
    assert(s3.store == s.store.insert(summary_key_spec(p), summary_of_raw(raw_s)).insert(
        fp_key_spec(p),
        f,
    ));
    assert(s4.step == StepModel::AwaitApply { patch: clean_spec(patch_text_of_raw(raw_p)) });
    assert(s5.step == StepModel::AwaitCommitMsg {
        patch: clean_spec(patch_text_of_raw(raw_p)),
    });
    assert(s6.step == StepModel::AwaitAdd { msg: commit_msg_of_raw(raw_m) });
    assert(s7.step == StepModel::AwaitCommit { msg: commit_msg_of_raw(raw_m) });
    assert(s8.step == StepModel::AwaitPush { msg: commit_msg_of_raw(raw_m) });
    assert(s8.store == s4.store);
    assert(stored_log_spec(s8.store, p) == stored_log_spec(s.store, p));
    assert(s9.step == StepModel::AwaitRestart);
    assert(s10 == advance(s9));
}

/// The recorded fingerprint of the current project changes only when its
/// summarization step succeeds — and then the summary artifact stands in
/// the store as well: no step persists the already-summarized marker
/// before the summary itself.
pub proof fn lemma_fingerprint_follows_summary(s: SchedModel, ev: EventModel)
    requires
        wf(s),
        s.step != StepModel::Done,
    ensures
        ({
            let p = s.projects[s.idx];
            let t = transition(s, ev);
            (t.store.contains_key(fp_key_spec(p)) != s.store.contains_key(fp_key_spec(p)) || (
            s.store.contains_key(fp_key_spec(p)) && t.store[fp_key_spec(p)] != s.store[fp_key_spec(
                p,
            )])) ==> {
                &&& s.step matches StepModel::AwaitSummary { .. }
                &&& ev matches EventModel::AgentOutput(Some(_))
                &&& t.store.contains_key(summary_key_spec(p))
            }
        }),
{
    let p = s.projects[s.idx];
    lemma_keys_distinct(p, p);
}

/// Whether the pass holds a non-empty sanitized patch wherever it carries
/// one: the invariant behind the applier's precondition.
pub open spec fn patch_nonempty_inv(s: SchedModel) -> bool {
    match s.step {
        StepModel::AwaitApply { patch } => patch.len() > 0,
        StepModel::AwaitCommitMsg { patch } => patch.len() > 0,
        _ => true,
    }
}

/// Only a non-empty sanitized diff ever reaches the patch applier: the
/// invariant holds of every state a pass can reach, and whenever a state
/// proposes an apply action, the diff it carries is non-empty.
pub proof fn lemma_only_nonempty_patch_reaches_apply(s: SchedModel, ev: EventModel)
    requires
        wf(s),
        patch_nonempty_inv(s),
    ensures
        patch_nonempty_inv(transition(s, ev)),
        ({
            match action_of(s) {
                Some(ActionModel::GitApply { project, patch }) => patch.len() > 0,
                _ => true,
            }
        }),
{
}

} // verus!
