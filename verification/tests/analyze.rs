use meetclaw::analyze::{
    api_key, clean_title, file_state_reply, file_url, first_text, generate_content_url,
    generate_title, refusal, suggest_questions, transcribe_audio, upload_reply, Candidate, Content,
    GeminiResponse, Part, Questions, UploadStep, UploadWait, MAX_UPLOAD_CHECKS, SYSTEM_PROMPT,
    TRANSCRIBE_PROMPT,
};

fn some(s: &str) -> Option<String> {
    Some(s.to_string())
}

fn response(candidates: &[&[Option<&str>]]) -> GeminiResponse {
    GeminiResponse {
        candidates: candidates
            .iter()
            .map(|parts| Candidate {
                content: Content {
                    parts: parts.iter().map(|t| Part { text: t.map(|s| s.to_string()) }).collect(),
                },
            })
            .collect(),
    }
}

#[test]
fn the_stored_key_comes_first() {
    assert_eq!(api_key(some("a"), some("b"), some("c")), some("a"));
    assert_eq!(api_key(some(" "), some("b"), some("c")), some("b"));
    assert_eq!(api_key(None, some(""), some("c")), some("c"));
    assert_eq!(api_key(None, None, some("\t")), None);
    assert_eq!(api_key(None, None, None), None);
}

#[test]
fn addresses_name_the_model_and_the_file() {
    assert_eq!(
        generate_content_url("gemini-3.5-flash"),
        "https://generativelanguage.googleapis.com/v1beta/models/gemini-3.5-flash:generateContent"
    );
    assert_eq!(
        file_url("files/abc"),
        "https://generativelanguage.googleapis.com/v1beta/files/abc"
    );
}

#[test]
fn prompts_are_continuous_text() {
    assert!(SYSTEM_PROMPT.starts_with("You are a sharp, quiet third participant sitting in on a live meeting. You are given"));
    assert!(SYSTEM_PROMPT.contains("measured. For example, if the transcript says \"let's design"));
    assert!(SYSTEM_PROMPT.ends_with("return an empty list."));
    assert!(TRANSCRIBE_PROMPT.contains("Output ONLY the transcript text as continuous prose — no timestamps"));
}

#[test]
fn the_first_text_of_a_reply_counts() {
    let r = response(&[&[], &[None, Some("x"), Some("y")], &[Some("z")]]);
    assert_eq!(first_text(Ok(r)), Ok(some("x")));
    assert_eq!(first_text(Ok(response(&[]))), Ok(None));
    assert_eq!(
        first_text(Err("bad".to_string())),
        Err("failed to parse Gemini response: bad".to_string())
    );
}

#[test]
fn questions_come_from_the_text() {
    assert_eq!(suggest_questions(None), Ok(vec![]));
    let q = Questions { questions: vec!["why?".to_string()] };
    assert_eq!(suggest_questions(Some(Ok(q))), Ok(vec!["why?".to_string()]));
    let list = |n: usize| (0..n).map(|i| format!("q{i}")).collect::<Vec<String>>();
    for (given, shown) in [(2, 2), (3, 3), (4, 3), (9, 3)] {
        let q = Questions { questions: list(given) };
        assert_eq!(suggest_questions(Some(Ok(q))), Ok(list(shown)));
    }
    assert_eq!(
        suggest_questions(Some(Err("eof".to_string()))),
        Err("failed to parse questions JSON: eof".to_string())
    );
    assert_eq!(refusal("Gemini API error", "403", "no"), "Gemini API error 403: no");
}

#[test]
fn titles_are_tidied() {
    assert_eq!(clean_title(" Title: \"Hermes RAG design\" \nmore"), "Hermes RAG design");
    assert_eq!(clean_title("\"\"A \"b\" c\"\""), "A \"b\" c");
    assert_eq!(clean_title("\n\n Plan\r\nB"), "Plan");
    assert_eq!(clean_title(" \n"), "");
    assert_eq!(clean_title("\" \"x\" \""), "x");
    assert_eq!(clean_title("\"Title: Roadmap\""), "Roadmap");
    assert_eq!(clean_title("Title: \"Title: Title:A \"b\" c\" "), "A \"b\" c");
    assert_eq!(clean_title("Title:"), "");
    assert_eq!(generate_title(Ok(some("Title: X"))), Ok("X".to_string()));
    assert_eq!(generate_title(Ok(None)), Ok(String::new()));
    assert_eq!(generate_title(Err("e".to_string())), Err("e".to_string()));
    assert_eq!(transcribe_audio(Ok(some(" hello \n"))), Ok("hello".to_string()));
    assert_eq!(transcribe_audio(Ok(None)), Ok(String::new()));
    assert_eq!(transcribe_audio(Err("e".to_string())), Err("e".to_string()));
}

#[test]
fn uploads_are_read() {
    let f = upload_reply(r#"{"file":{"name":"files/1","uri":"u","state":"PROCESSING"}}"#).unwrap();
    assert_eq!((f.name.as_str(), f.uri.as_str(), f.state.as_str()), ("files/1", "u", "PROCESSING"));
    let f = upload_reply(r#"{"file":{"name":"files/1","uri":"u"}}"#).unwrap();
    assert_eq!(f.state, "");
    let err = |raw: &str| upload_reply(raw).err().unwrap();
    assert_eq!(err(r#"{"file":{"uri":"u"}}"#), "upload response missing file name");
    assert_eq!(err("{}"), "upload response missing file name");
    assert_eq!(err(r#"{"file":{"name":"n","uri":3}}"#), "upload response missing file uri");
    assert!(err("<").starts_with("failed to parse upload response: expected value"));
    assert_eq!(file_state_reply(r#"{"state":"ACTIVE"}"#), Ok("ACTIVE".to_string()));
    assert_eq!(file_state_reply("{}"), Ok(String::new()));
    assert!(file_state_reply("").unwrap_err().starts_with("failed to parse file status: EOF"));
}

#[test]
fn uploads_are_waited_for_up_to_a_limit() {
    let mut w = UploadWait::new();
    assert!(matches!(w.check("ACTIVE"), UploadStep::Ready));
    assert!(matches!(w.check("FAILED"), UploadStep::Fail(e) if e == "uploaded file failed processing"));
    let mut w = UploadWait::new();
    for _ in 0..MAX_UPLOAD_CHECKS {
        assert!(matches!(w.check("PROCESSING"), UploadStep::Again));
    }
    assert!(matches!(w.check("ACTIVE"),
        UploadStep::Fail(e) if e == "timed out waiting for uploaded file to become ACTIVE"));
}
