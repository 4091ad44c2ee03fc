use meetclaw::agent::{
    build_system, build_user_context, combine_output, command_output, command_result, denied_result,
    drain_step, execute, failed_result, finished_command, model_reply, poll_step, resolve_decision, run_notice,
    search_reply, search_result, spawn_failed, CmdResult, DrainStep, Ended, Gate, PollEvent, PollStep,
    RunArgs, ToolAction, SYSTEM_PROMPT,
};
use meetclaw::agent_run::{AgentRun, ReplyAction, Turn};

fn args(ask: &str) -> RunArgs {
    RunArgs {
        api_key: "k".to_string(),
        model: "m".to_string(),
        ask: ask.to_string(),
        transcript: " we ship on Friday \n".to_string(),
        notes: "".to_string(),
        agent_md: "".to_string(),
        workspace: "/tmp".to_string(),
        rules: vec!["web_search".to_string()],
        auto: false,
    }
}

fn reply_with_calls(calls: &[&str]) -> String {
    let parts: Vec<String> = calls
        .iter()
        .map(|id| {
            format!(
                r#"{{"functionCall":{{"id":"{id}","name":"run_command","args":{{"command":"ls {id}","rationale":"look"}}}}}}"#
            )
        })
        .collect();
    format!(r#"{{"candidates":[{{"content":{{"parts":[{}]}}}}]}}"#, parts.join(","))
}

#[test]
fn instructions_are_appended_unless_blank() {
    assert_eq!(build_system(" \n"), SYSTEM_PROMPT);
    assert_eq!(
        build_system("Be kind."),
        format!("{SYSTEM_PROMPT}\n\nThe user's MEETCLAW.md instructions:\n\nBe kind.")
    );
}

#[test]
fn context_holds_what_there_is() {
    assert_eq!(build_user_context("", " ", " now? "), "The user asks:\n\nnow?");
    assert_eq!(
        build_user_context(" t ", "\nn", "q"),
        "Live meeting transcript so far:\n\nt\n\nThe user's notes:\n\nn\n\nThe user asks:\n\nq"
    );
}

#[test]
fn model_replies_give_calls_and_prose() {
    let raw = r#"{"candidates":[{"content":{"parts":[
        {"text":"a"},
        {"functionCall":{"name":"web_search","args":{"query":"rust"}}},
        {"text":"b","other":1},
        {"functionCall":{"id":7}}
    ]}},{"content":{"parts":[{"text":"z"}]}}]}"#;
    let reply = model_reply(true, "200 OK", raw).unwrap();
    assert_eq!(reply.text, "ab");
    assert_eq!(reply.calls.len(), 2);
    assert_eq!(reply.calls[0].name, "web_search");
    assert_eq!(reply.calls[0].id, "");
    assert_eq!(reply.calls[0].query, Some("rust".to_string()));
    assert_eq!(reply.calls[0].command, None);
    assert_eq!(reply.calls[0].rationale, "");
    assert_eq!(reply.calls[0].part["functionCall"]["args"]["query"], "rust");
    assert_eq!(reply.calls[1].name, "");
    assert_eq!(reply.calls[1].id, "");
    for empty in ["{}", "[]", r#"{"candidates":[]}"#, r#"{"candidates":[{"content":3}]}"#] {
        let reply = model_reply(true, "200 OK", empty).unwrap();
        assert_eq!((reply.calls.len(), reply.text.as_str()), (0, ""));
    }
}

#[test]
fn model_errors_are_told() {
    let e = model_reply(false, "429 Too Many Requests", "slow down").err().unwrap();
    assert_eq!(e, "Gemini error 429 Too Many Requests: slow down");
    let long = "x".repeat(600);
    let e = model_reply(false, "500", &long).err().unwrap();
    assert_eq!(e, format!("Gemini error 500: {}\n… (truncated)", "x".repeat(500)));
    let e = model_reply(true, "200 OK", "not json").err().unwrap();
    assert_eq!(e, serde_json::from_str::<serde_json::Value>("not json").unwrap_err().to_string());
}

#[test]
fn search_replies_list_their_sources() {
    let raw = r#"{"candidates":[{"content":{"parts":[{"text":" Rust is "},{"text":"nice."}]},
        "groundingMetadata":{"groundingChunks":[
            {"web":{"uri":"https://a","title":"A"}},
            {"web":{"title":"no address"}},
            {"web":{"uri":"https://b"}}]}}]}"#;
    assert_eq!(
        search_reply(true, "200 OK", raw).unwrap(),
        "Rust is nice.\n\nSources:\n- A: https://a\n- https://b: https://b"
    );
    let plain = r#"{"candidates":[{"content":{"parts":[{"text":" yes \n"}]}}]}"#;
    assert_eq!(search_reply(true, "200 OK", plain).unwrap(), "yes");
    assert_eq!(
        search_reply(false, "403", "no").err(),
        Some("web_search error 403: no".to_string())
    );
    assert!(search_reply(true, "200 OK", "{").is_err());
}

#[test]
fn calls_run_at_once_in_auto_mode_or_by_rule() {
    let reply = model_reply(true, "", &reply_with_calls(&["1"])).unwrap();
    let call = &reply.calls[0];
    for gate in [
        resolve_decision(&vec![], true, call),
        resolve_decision(&vec!["run_command:ls".to_string()], false, call),
    ] {
        match gate {
            Gate::Run(p) => {
                assert_eq!((p.call_id.as_str(), p.rationale.as_str()), ("1", "look"));
                assert_eq!(run_notice(&p), "Running run_command: ls 1");
            }
            Gate::Ask(_) => panic!("asked"),
        }
    }
    match resolve_decision(&vec!["web_search".to_string()], false, call) {
        Gate::Ask(p) => {
            assert_eq!(p.call_id, "1");
            assert_eq!(p.tool, "run_command");
            assert_eq!(p.command, Some("ls 1".to_string()));
            assert_eq!(p.query, None);
            assert_eq!(p.rationale, "look");
        }
        Gate::Run(_) => panic!("ran unasked"),
    }
}

#[test]
fn tools_are_told_apart() {
    let c = || Some("ls".to_string());
    let q = || Some("rust".to_string());
    assert!(matches!(execute("run_command", c(), q()), ToolAction::Command(x) if x == "ls"));
    assert!(matches!(execute("web_search", c(), q()), ToolAction::Search(x) if x == "rust"));
    assert!(matches!(execute("run_command", None, q()), ToolAction::Fail(e) if e == "missing `command`"));
    assert!(matches!(execute("web_search", c(), None), ToolAction::Fail(e) if e == "missing `query`"));
    assert!(matches!(execute("rm", c(), q()), ToolAction::Fail(e) if e == "unknown tool: rm"));
}

#[test]
fn command_results_have_a_header() {
    let r = |exit_code: i32, timed_out: bool| {
        command_result(&CmdResult { exit_code, output: "out".to_string(), timed_out })
    };
    assert_eq!(r(0, false), ("ok".to_string(), "(exit 0)\nout".to_string()));
    assert_eq!(r(-1, false), ("error".to_string(), "(exit -1)\nout".to_string()));
    assert_eq!(r(0, true), ("error".to_string(), "(timed out after 30s)\nout".to_string()));
    assert_eq!(denied_result(), ("denied".to_string(), "Denied by user.".to_string()));
    assert_eq!(failed_result("x".to_string()), ("error".to_string(), "x".to_string()));
    assert_eq!(search_result(Ok("t".to_string())), ("ok".to_string(), "t".to_string()));
    assert_eq!(search_result(Err("e".to_string())), ("error".to_string(), "e".to_string()));
}

#[test]
fn commands_are_killed_when_their_time_is_up() {
    assert_eq!(poll_step(PollEvent::Running, 29_999), PollStep::Sleep);
    assert_eq!(poll_step(PollEvent::Running, 30_000), PollStep::Kill);
    assert_eq!(
        poll_step(PollEvent::Exited(Some(3)), 90_000),
        PollStep::Collect(Ended::Exited(Some(3)))
    );
    assert_eq!(poll_step(PollEvent::Lost, 0), PollStep::Collect(Ended::GivenUp));
}

#[test]
fn pipes_are_waited_for_up_to_a_limit() {
    assert_eq!(drain_step(true, 90_000, None), DrainStep::Done);
    assert_eq!(drain_step(true, 90_000, Some(900)), DrainStep::Done);
    assert_eq!(drain_step(false, 29_999, None), DrainStep::Wait);
    assert_eq!(drain_step(false, 30_000, None), DrainStep::Kill);
    assert_eq!(drain_step(false, 30_400, Some(499)), DrainStep::Wait);
    assert_eq!(drain_step(false, 30_500, Some(500)), DrainStep::GiveUp);
}

#[test]
fn command_output_is_combined_and_cut() {
    let r = command_output(Ended::Exited(Some(2)), &b" out\n".to_vec(), &b"bad\xff".to_vec());
    assert_eq!((r.exit_code, r.timed_out), (2, false));
    assert_eq!(r.output, "out\n\n[stderr] bad\u{fffd}");
    let r = command_output(Ended::Exited(None), &Vec::new(), &b"bad".to_vec());
    assert_eq!((r.exit_code, r.output.as_str()), (-1, "[stderr] bad"));
    let r = command_output(Ended::GivenUp, &vec![b'x'; 10_001], &Vec::new());
    assert_eq!((r.exit_code, r.timed_out), (-1, true));
    assert_eq!(r.output, format!("{}\n… (truncated)", "x".repeat(10_000)));
    let r = finished_command(Ended::Exited(Some(0)), " a\n", Some("b "));
    assert_eq!((r.exit_code, r.output.as_str()), (0, "a\n\n[stderr] b"));
    assert_eq!(combine_output("", Some("e")), "[stderr] e");
    assert_eq!(combine_output("o", Some("")), "o\n[stderr] ");
    assert_eq!(combine_output("o", None), "o");
    let r = spawn_failed("no shell");
    assert_eq!((r.exit_code, r.timed_out), (-1, false));
    assert_eq!(r.output, "failed to spawn command: no shell");
}

#[test]
fn a_run_answers_every_call_and_then_the_model() {
    let mut run = AgentRun::start(&args("deploy?"));
    match &run.turns[0] {
        Turn::User(text) => assert_eq!(
            text,
            "Live meeting transcript so far:\n\nwe ship on Friday\n\nThe user asks:\n\ndeploy?"
        ),
        _ => panic!("the user opens"),
    }
    assert!(run.current().is_none());
    assert!(!run.ask_model(true));
    assert!(run.ask_model(false));
    let reply = model_reply(true, "", &reply_with_calls(&["1", "2"]));
    assert!(matches!(run.take_reply(reply), ReplyAction::Work { prose: None }));
    assert_eq!(run.current().unwrap().id, "1");
    let shown = run.respond("ok".to_string(), "one".to_string());
    assert_eq!((shown.call_id.as_str(), shown.status.as_str(), shown.output.as_str()), ("1", "ok", "one"));
    assert_eq!(run.current().unwrap().id, "2");
    run.respond("denied".to_string(), "two".to_string());
    assert!(run.current().is_none());
    assert_eq!(run.turns.len(), 3);
    match &run.turns[2] {
        Turn::Responses(all) => {
            assert_eq!(all.len(), 2);
            assert_eq!((all[0].id.as_str(), all[0].output.as_str()), ("1", "one"));
            assert_eq!((all[1].id.as_str(), all[1].status.as_str()), ("2", "denied"));
            assert_eq!(all[1].name, "run_command");
        }
        _ => panic!("results follow calls"),
    }
    let answer = model_reply(true, "", r#"{"candidates":[{"content":{"parts":[{"text":"done"}]}}]}"#);
    assert!(matches!(run.take_reply(answer), ReplyAction::Answer(t) if t == "done"));
}

#[test]
fn prose_beside_calls_is_reported() {
    let with = |text: &str| {
        let call = r#"{"functionCall":{"id":"1","name":"web_search","args":{"query":"q"}}}"#;
        let raw = format!(
            r#"{{"candidates":[{{"content":{{"parts":[{{"text":"{text}"}},{call}]}}}}]}}"#
        );
        AgentRun::start(&args("x")).take_reply(model_reply(true, "", &raw))
    };
    assert!(matches!(with("I will look."), ReplyAction::Work { prose: Some(p) } if p == "I will look."));
    assert!(matches!(with(" "), ReplyAction::Work { prose: None }));
}

#[test]
fn a_run_ends_on_silence_or_failure() {
    let mut run = AgentRun::start(&args("x"));
    assert!(matches!(run.take_reply(model_reply(true, "", "{}")), ReplyAction::End));
    let failure = model_reply(false, "500", "");
    assert!(matches!(run.take_reply(failure), ReplyAction::Fail(e) if e == "Gemini error 500: "));
    assert_eq!(run.turns.len(), 1);
}

#[test]
fn a_run_works_off_eight_calls_at_most() {
    let mut run = AgentRun::start(&args("x"));
    for _ in 0..8 {
        assert!(run.ask_model(false));
        run.take_reply(model_reply(true, "", &reply_with_calls(&["1"])));
        assert!(run.current().is_some());
        run.respond("ok".to_string(), "".to_string());
    }
    assert!(!run.ask_model(false));

    let mut run = AgentRun::start(&args("x"));
    let ids: Vec<String> = (0..10).map(|i| i.to_string()).collect();
    let ids: Vec<&str> = ids.iter().map(|s| s.as_str()).collect();
    run.take_reply(model_reply(true, "", &reply_with_calls(&ids)));
    let mut made = 0;
    while run.current().is_some() {
        run.respond("ok".to_string(), "".to_string());
        made += 1;
    }
    assert_eq!(made, 8);
    assert!(!run.ask_model(false));
}
