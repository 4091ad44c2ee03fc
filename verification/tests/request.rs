use meetclaw::agent::{model_reply, RunArgs};
use meetclaw::agent_run::AgentRun;
use meetclaw::analyze::{SYSTEM_PROMPT, TRANSCRIBE_PROMPT};
use meetclaw::request::{
    agent_request, search_request, suggestions_request, title_request, tool_declarations,
    transcribe_request, upload_request,
};
use serde_json::Value;

fn value(text: &str) -> Value {
    serde_json::from_str(text).unwrap()
}

#[test]
fn tools_are_declared() {
    assert_eq!(
        tool_declarations(),
        value(
            r#"[{"functionDeclarations":[
            {"name":"run_command",
             "description":"Run a shell command on the user's machine and return its output. Requires user approval unless allowed. Prefer read-only commands.",
             "parameters":{"type":"object","properties":{
                "command":{"type":"string","description":"The exact shell command to run."},
                "rationale":{"type":"string","description":"Short reason this helps the user now."}},
                "required":["command","rationale"]}},
            {"name":"web_search",
             "description":"Search the web for current information and return a grounded summary with sources.",
             "parameters":{"type":"object","properties":{
                "query":{"type":"string","description":"The search query."},
                "rationale":{"type":"string","description":"Short reason this helps the user now."}},
                "required":["query","rationale"]}}]}]"#
        )
    );
}

#[test]
fn the_conversation_is_sent_whole() {
    let mut run = AgentRun::start(&RunArgs {
        api_key: "".to_string(),
        model: "".to_string(),
        ask: "hi".to_string(),
        transcript: "".to_string(),
        notes: "".to_string(),
        agent_md: "".to_string(),
        workspace: "".to_string(),
        rules: vec![],
        auto: false,
    });
    let part = r#"{"functionCall":{"id":"1","name":"web_search","args":{"query":"q","n":[1,2.50,-0,true,null]}},"thoughtSignature":"s"}"#;
    let raw = format!(r#"{{"candidates":[{{"content":{{"parts":[{part},{{"text":"t"}}]}}}}]}}"#);
    run.take_reply(model_reply(true, "", &raw));
    run.respond("ok".to_string(), "found".to_string());
    let body = agent_request("be brief", &run);
    assert_eq!(body["systemInstruction"], value(r#"{"parts":[{"text":"be brief"}]}"#));
    assert_eq!(
        body["contents"],
        value(&format!(
            r#"[{{"role":"user","parts":[{{"text":"The user asks:\n\nhi"}}]}},
               {{"role":"model","parts":[{part}]}},
               {{"role":"user","parts":[{{"functionResponse":{{"name":"web_search","id":"1",
                 "response":{{"status":"ok","output":"found"}}}}}}]}}]"#
        ))
    );
    assert_eq!(body["tools"], tool_declarations());
    assert_eq!(body["toolConfig"], value(r#"{"functionCallingConfig":{"mode":"AUTO"}}"#));
    assert_eq!(body.as_object().unwrap().len(), 4);
}

#[test]
fn searches_are_grounded() {
    assert_eq!(
        search_request("rust 2"),
        value(r#"{"contents":[{"role":"user","parts":[{"text":"rust 2"}]}],"tools":[{"google_search":{}}]}"#)
    );
}

#[test]
fn questions_are_asked_for_as_a_list() {
    let body = suggestions_request("we talk", "my note");
    assert_eq!(body["systemInstruction"]["parts"][0]["text"], SYSTEM_PROMPT);
    assert_eq!(
        body["contents"][0]["parts"][0]["text"],
        "The user's own notes so far:\n\nmy note\n\nLive meeting transcript so far:\n\nwe talk\n\nSuggest up to 3 questions the user might want to ask next."
    );
    assert_eq!(
        body["generationConfig"],
        value(
            r#"{"responseMimeType":"application/json","responseSchema":{"type":"OBJECT",
            "properties":{"questions":{"type":"ARRAY","items":{"type":"STRING"}}},
            "required":["questions"]}}"#
        )
    );
    let body = suggestions_request("we talk", " ");
    assert_eq!(
        body["contents"][0]["parts"][0]["text"],
        "Live meeting transcript so far:\n\nwe talk\n\nSuggest up to 3 questions the user might want to ask next."
    );
}

#[test]
fn titles_and_transcripts_are_asked_for() {
    let body = title_request("content");
    assert_eq!(
        body["systemInstruction"],
        value(r#"{"parts":[{"text":"You write short, specific titles for meetings."}]}"#)
    );
    assert_eq!(
        body["contents"][0]["parts"][0]["text"],
        "Based on the following meeting content, write a concise, specific title of 3 to 7 words. Return only the title: no quotes, no preamble, no trailing punctuation.\n\ncontent"
    );
    assert_eq!(body["generationConfig"], value(r#"{"responseMimeType":"text/plain"}"#));
    let body = transcribe_request("files/1");
    assert_eq!(body["contents"][0]["role"], "user");
    assert_eq!(body["contents"][0]["parts"][0]["text"], TRANSCRIBE_PROMPT);
    assert_eq!(
        body["contents"][0]["parts"][1],
        value(r#"{"fileData":{"mimeType":"audio/wav","fileUri":"files/1"}}"#)
    );
    assert_eq!(upload_request(), value(r#"{"file":{"display_name":"meeting-audio"}}"#));
}
