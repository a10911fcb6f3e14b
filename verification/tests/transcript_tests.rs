use mainteno::codex_client::{
    agent_outcome, process_commit_message_output, process_patch_output, process_summary_output,
    CodexClient, GenError,
};
use mainteno::config::LLMConfig;
use mainteno::transcript::{extract_assistant_text, AgentText};

fn assistant_line(text: &str) -> String {
    let mut s = String::new();
    s.push_str("{\"role\":\"assistant\",\"content\":[{\"type\":\"output_text\",\"text\":\"");
    s.push_str(text);
    s.push_str("\"}]}");
    s
}

#[test]
fn extracts_assistant_output_text_in_order() {
    let mut raw = assistant_line("first ");
    raw.push('\n');
    raw.push_str("{\"role\":\"system\",\"content\":[{\"type\":\"output_text\",\"text\":\"ignored\"}]}");
    raw.push('\n');
    raw.push_str(&assistant_line("second"));
    raw.push('\n');
    match extract_assistant_text(&raw) {
        AgentText::Structured(s) => assert_eq!(s, "first second"),
        AgentText::RawFallback(_) => panic!("expected structured text"),
    }
}

#[test]
fn ignores_non_output_text_items() {
    let raw = "{\"role\":\"assistant\",\"content\":[{\"type\":\"tool_use\",\"text\":\"nope\"},{\"type\":\"output_text\",\"text\":\"yes\"}]}";
    match extract_assistant_text(raw) {
        AgentText::Structured(s) => assert_eq!(s, "yes"),
        AgentText::RawFallback(_) => panic!("expected structured text"),
    }
}

#[test]
fn unparseable_transcript_falls_back_to_raw() {
    let raw = "not json at all\nstill not json";
    match extract_assistant_text(raw) {
        AgentText::RawFallback(s) => assert_eq!(s, raw),
        AgentText::Structured(_) => panic!("expected raw fallback"),
    }
}

#[test]
fn transcript_without_assistant_text_falls_back() {
    let raw = "{\"role\":\"user\",\"content\":[{\"type\":\"output_text\",\"text\":\"hi\"}]}";
    match extract_assistant_text(raw) {
        AgentText::RawFallback(s) => assert_eq!(s, raw),
        AgentText::Structured(_) => panic!("expected raw fallback"),
    }
}

#[test]
fn summary_output_is_trimmed_structured_text() {
    let raw = assistant_line("  a summary  ");
    assert_eq!(process_summary_output(&raw), "a summary");
}

#[test]
fn summary_fallback_is_raw_untrimmed() {
    assert_eq!(process_summary_output("  plain  "), "  plain  ");
}

#[test]
fn patch_output_is_trimmed_either_way() {
    assert_eq!(process_patch_output("  --- a/x  "), "--- a/x");
    let raw = assistant_line("--- a/x");
    assert_eq!(process_patch_output(&raw), "--- a/x");
}

#[test]
fn commit_message_output_is_cleaned() {
    let raw = "```\nFix the bug\n```";
    assert_eq!(process_commit_message_output(raw), "Fix the bug\n");
}

#[test]
fn agent_outcome_classifies_exit_status() {
    match agent_outcome(0, Some("out".to_string()), "".to_string()) {
        Ok(s) => assert_eq!(s, "out"),
        Err(_) => panic!("expected success"),
    }
    match agent_outcome(3, Some("out".to_string()), "boom".to_string()) {
        Err(GenError { exit_code, stderr }) => {
            assert_eq!(exit_code, 3);
            assert_eq!(stderr, "boom");
        },
        Ok(_) => panic!("expected failure"),
    }
    match agent_outcome(0, None, "bad utf8".to_string()) {
        Err(e) => assert_eq!(e.exit_code, 0),
        Ok(_) => panic!("expected failure on undecodable output"),
    }
}

#[test]
fn client_builds_agent_argument_lists() {
    let client = CodexClient::new(&LLMConfig { provider: "openai".to_string() });
    let args = client.summarize_args();
    assert_eq!(args.len(), 5);
    assert_eq!(args[0], "-q");
    assert_eq!(args[1], "--provider");
    assert_eq!(args[2], "openai");
    assert_eq!(args[3], "--no-project-doc");
    let pargs = client.patch_args();
    assert_eq!(pargs.len(), 4);
    assert_eq!(pargs[2], "openai");
    let cargs = client.commit_message_args("--- a/x\n+++ b/x\n");
    assert_eq!(cargs.len(), 4);
    assert!(cargs[3].ends_with("\n\n--- a/x\n+++ b/x\n"));
}
