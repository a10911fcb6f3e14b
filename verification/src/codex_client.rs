//! The generation client: builds the exact argument lists handed to the
//! agent subprocess, classifies its exit, and turns its captured output
//! into summary text, patch text or a commit message.

use vstd::prelude::*;
use vstd::string::StringExecFns;

use crate::config::LLMConfig;
use crate::sanitizer::{strip_fences_spec, strip_markdown_fences};
use crate::text::{trim_spec, trim_string};
use crate::transcript::{extract_assistant_text, extract_spec, AgentText};

verus! {

/// The distinguished failure of one agent invocation: the subprocess exit
/// code and its captured error stream.
pub struct GenError {
    pub exit_code: i32,
    pub stderr: String,
}

/// Wraps calls to the external code-generation agent.
pub struct CodexClient {
    config: LLMConfig,
}

/// The fixed instruction for summarizing a project.
pub open spec fn summarize_prompt_spec() -> Seq<char> {
    "Summarise this project. Search all files, find every entry point, feature, and important detail, then return a comprehensive summary."@
}

/// The fixed instruction for generating a patch.
pub open spec fn patch_prompt_spec() -> Seq<char> {
    "Based on the current code in this directory, generate a minimal patch in unified diff format to improve code quality. Include full unified diff headers (diff --git, --- a/<path>, +++ b/<path>) before each hunk. Output only the raw unified diff without markdown fences or any extra explanation."@
}

/// The fixed instruction prefixed to a diff when asking for a commit
/// message.
pub open spec fn commit_prompt_base_spec() -> Seq<char> {
    "Given the following unified diff, write a concise one-sentence commit message summarizing the change. Do not include the diff, only output the commit message without quotes."@
}

/// The full commit-message instruction: the base, a blank line, the diff.
pub open spec fn commit_prompt_spec(diff: Seq<char>) -> Seq<char> {
    commit_prompt_base_spec() + "\n\n"@ + diff
}

/// What the summarize operation makes of raw agent output: the trimmed
/// concatenated assistant text, or the raw output as degraded fallback.
pub open spec fn summary_of_raw(raw: Seq<char>) -> Seq<char> {
    match extract_spec(raw) {
        Some(t) => trim_spec(t),
        None => raw,
    }
}

/// What the patch operation makes of raw agent output before the
/// sanitizer runs: assistant text when present, else the raw output, in
/// either case trimmed.
pub open spec fn patch_text_of_raw(raw: Seq<char>) -> Seq<char> {
    match extract_spec(raw) {
        Some(t) => trim_spec(t),
        None => trim_spec(raw),
    }
}

/// What the commit-message operation makes of raw agent output: as for a
/// patch, with fences and escape noise stripped off the trimmed text.
pub open spec fn commit_msg_of_raw(raw: Seq<char>) -> Seq<char> {
    strip_fences_spec(patch_text_of_raw(raw))
}

impl CodexClient {
    /// The provider this client passes to the agent.
    pub closed spec fn provider_spec(&self) -> Seq<char> {
        self.config.provider@
    }

    /// A client for the given agent configuration.
    pub fn new(cfg: &LLMConfig) -> (c: Self)
        ensures
            c.provider_spec() == cfg.provider@,
    {
        CodexClient { config: LLMConfig { provider: cfg.provider.clone() } }
    }

    /// The argument list of a summarize invocation.
    pub fn summarize_args(&self) -> (args: Vec<String>)
        ensures
            args.deep_view() == seq![
                "-q"@,
                "--provider"@,
                self.provider_spec(),
                "--no-project-doc"@,
                summarize_prompt_spec(),
            ],
    {
        let mut args: Vec<String> = Vec::new();
        args.push(String::from_str("-q"));
        args.push(String::from_str("--provider"));
        args.push(self.config.provider.clone());
        args.push(String::from_str("--no-project-doc"));
        args.push(
            String::from_str(
                "Summarise this project. Search all files, find every entry point, feature, and important detail, then return a comprehensive summary.",
            ),
        );
        proof {
            assert(args.deep_view() =~~= seq![
                "-q"@,
                "--provider"@,
                self.provider_spec(),
                "--no-project-doc"@,
                summarize_prompt_spec(),
            ]);
        }
        args
    }

    /// The argument list of a patch-generation invocation.
    pub fn patch_args(&self) -> (args: Vec<String>)
        ensures
            args.deep_view() == seq![
                "-q"@,
                "--provider"@,
                self.provider_spec(),
                patch_prompt_spec(),
            ],
    {
        let mut args: Vec<String> = Vec::new();
        args.push(String::from_str("-q"));
        args.push(String::from_str("--provider"));
        args.push(self.config.provider.clone());
        args.push(
            String::from_str(
                "Based on the current code in this directory, generate a minimal patch in unified diff format to improve code quality. Include full unified diff headers (diff --git, --- a/<path>, +++ b/<path>) before each hunk. Output only the raw unified diff without markdown fences or any extra explanation.",
            ),
        );
        proof {
            assert(args.deep_view() =~~= seq![
                "-q"@,
                "--provider"@,
                self.provider_spec(),
                patch_prompt_spec(),
            ]);
        }
        args
    }

    /// The argument list of a commit-message invocation for a given diff.
    pub fn commit_message_args(&self, diff: &str) -> (args: Vec<String>)
        ensures
            args.deep_view() == seq![
                "-q"@,
                "--provider"@,
                self.provider_spec(),
                commit_prompt_spec(diff@),
            ],
    {
        let mut prompt = String::from_str(
            "Given the following unified diff, write a concise one-sentence commit message summarizing the change. Do not include the diff, only output the commit message without quotes.",
        );
        prompt.append("\n\n");
        prompt.append(diff);
        let mut args: Vec<String> = Vec::new();
        args.push(String::from_str("-q"));
        args.push(String::from_str("--provider"));
        args.push(self.config.provider.clone());
        args.push(prompt);
        proof {
            assert(args.deep_view() =~~= seq![
                "-q"@,
                "--provider"@,
                self.provider_spec(),
                commit_prompt_spec(diff@),
            ]);
        }
        args
    }
}

/// Classifies one agent invocation: a zero exit whose output decoded as
/// text succeeds with that output; a non-zero exit, or output that is not
/// valid text, is the distinguished failure carrying the exit code and the
/// captured error stream.
pub fn agent_outcome(exit_code: i32, stdout: Option<String>, stderr: String) -> (r: Result<
    String,
    GenError,
>)
    ensures
        ({
            match r {
                Ok(out) => exit_code == 0 && match stdout {
                    Some(s) => out == s,
                    None => false,
                },
                Err(e) => (exit_code != 0 || stdout is None) && e.exit_code == exit_code
                    && e.stderr == stderr,
            }
        }),
{
    if exit_code == 0 {
        match stdout {
            Some(s) => Ok(s),
            None => Err(GenError { exit_code, stderr }),
        }
    } else {
        Err(GenError { exit_code, stderr })
    }
}

/// Turns raw summarize output into the stored summary text.
pub fn process_summary_output(raw: &str) -> (r: String)
    ensures
        r@ == summary_of_raw(raw@),
{
    match extract_assistant_text(raw) {
        AgentText::Structured(s) => trim_string(s.as_str()),
        AgentText::RawFallback(s) => s,
    }
}

/// Turns raw patch output into the text handed to the sanitizer.
pub fn process_patch_output(raw: &str) -> (r: String)
    ensures
        r@ == patch_text_of_raw(raw@),
{
    match extract_assistant_text(raw) {
        AgentText::Structured(s) => trim_string(s.as_str()),
        AgentText::RawFallback(s) => trim_string(s.as_str()),
    }
}

/// Turns raw commit-message output into the message used for the commit.
pub fn process_commit_message_output(raw: &str) -> (r: String)
    ensures
        r@ == commit_msg_of_raw(raw@),
{
    let t = process_patch_output(raw);
    strip_markdown_fences(t.as_str())
}

} // verus!
