use meetclaw::camera;
use meetclaw::export::{export_entries, render_markdown, sanitize_filename};
use meetclaw::meeting::{
    append_transcript, create, get_title, list, load, set_title, MeetingDetail, MeetingMeta,
};
use meetclaw::session::{CurrentMeeting, Session};
use meetclaw::settings::{
    agent_allow_rules, agent_workspace, get_api_key, has_api_key, read_agent_config, save_dir,
    set_api_key, Change, KeyChange, Preferences, Settings, DEFAULT_AGENT_CONFIG,
};
use meetclaw::suggestions::{append_suggestion, keep_batches, load_suggestions, text_lines};
use meetclaw::syscap;
use meetclaw::title::{accept_title, needs_title, title_context};
use meetclaw::wav::{
    append_pcm, drop_gaps, finalize_wav, pcm_samples, read_wav_samples, recover_unfinalized,
};

fn some(s: &str) -> Option<String> {
    Some(s.to_string())
}

fn strings(items: &[&str]) -> Vec<String> {
    items.iter().map(|s| s.to_string()).collect()
}

fn detail(title: &str, notes: &str, transcript: &str, batches: &[&[&str]]) -> MeetingDetail {
    MeetingDetail {
        id: "m1".to_string(),
        title: title.to_string(),
        created_at_ms: 1,
        transcript: transcript.to_string(),
        notes: notes.to_string(),
        suggestions: batches.iter().map(|b| strings(b)).collect(),
    }
}

#[test]
fn meetings_are_named_by_their_time() {
    let m = create(1_700_000_000_123, "  ");
    assert_eq!(m.id, "m1700000000123");
    assert_eq!(m.title, "Untitled meeting");
    assert_eq!((m.created_at_ms, m.updated_at_ms), (1_700_000_000_123, 1_700_000_000_123));
    assert_eq!(create(0, " Plan ").title, " Plan ");
    assert_ne!(create(1, "").id, create(2, "").id);
}

#[test]
fn titles_are_replaced() {
    let m = set_title(Ok(create(5, "")), "New", 9).ok().unwrap();
    assert_eq!((m.title.as_str(), m.created_at_ms, m.updated_at_ms), ("New", 5, 9));
    assert_eq!(get_title(Ok(m)), some("New"));
    assert_eq!(get_title(Err("gone".to_string())), None);
    assert_eq!(set_title(Err("gone".to_string()), "x", 1).err(), some("gone"));
}

#[test]
fn the_newest_meeting_is_listed_first() {
    let meta = |id: &str, ms: u128| -> Result<MeetingMeta, String> {
        Ok(MeetingMeta {
            id: id.to_string(),
            title: String::new(),
            created_at_ms: ms,
            updated_at_ms: 0,
        })
    };
    let entries = vec![
        meta("a", 2),
        meta("b", 3),
        Err("unreadable".to_string()),
        meta("c", 2),
        meta("d", 1),
        meta("e", 3),
    ];
    let ids: Vec<String> = list(entries).into_iter().map(|m| m.id).collect();
    assert_eq!(ids, ["b", "e", "a", "c", "d"]);
    assert!(list(vec![]).is_empty());
}

#[test]
fn missing_files_count_as_empty() {
    let d = load(create(3, "T"), None, some("n"), None);
    assert_eq!((d.id.as_str(), d.title.as_str(), d.created_at_ms), ("m3", "T", 3));
    assert_eq!((d.transcript.as_str(), d.notes.as_str()), ("", "n"));
    assert!(d.suggestions.is_empty());
    assert_eq!(append_transcript("line"), "line\n");
}

#[test]
fn batches_are_read_back() {
    let batches = [
        strings(&["why?", "a \"b\"\n\tc\r", "\u{7f}é漢\u{2028}"]),
        strings(&[]),
        strings(&["\\", "\u{1}"]),
    ];
    let mut file: Vec<u8> = Vec::new();
    for b in &batches {
        let line = append_suggestion(b).unwrap();
        assert!(line.ends_with('\n'));
        assert_eq!(line.matches('\n').count(), 1);
        file.extend_from_slice(line.as_bytes());
    }
    assert_eq!(load_suggestions(&file), batches.to_vec());
    assert_eq!(append_suggestion(&strings(&["q"])).unwrap(), "[\"q\"]\n");
}

#[test]
fn broken_lines_are_passed_over() {
    let file = b"[\"a\"]\r\nnonsense\n\n{\"x\":1}\n[1]\n [\"b\"] \n[\"c\"]".to_vec();
    assert_eq!(load_suggestions(&file), vec![strings(&["a"]), strings(&["b"]), strings(&["c"])]);
    let file = b"[\"a\"]\n\xff\n[\"b\"]\n".to_vec();
    assert_eq!(load_suggestions(&file), vec![strings(&["a"])]);
    assert!(load_suggestions(&vec![]).is_empty());
}

#[test]
fn lines_are_split_as_files_are() {
    assert_eq!(text_lines(&b"a\r\nb\n\nc\r".to_vec()), ["a", "b", "", "c\r"]);
    assert_eq!(text_lines(&b"\n".to_vec()), [""]);
    assert_eq!(text_lines(&"é\n".as_bytes().to_vec()), ["é"]);
    assert_eq!(text_lines(&b"a\n\xc3\nb".to_vec()), ["a"]);
    let read = vec![Some(strings(&["a"])), None, Some(vec![]), Some(strings(&["b", "c"]))];
    assert_eq!(keep_batches(read), vec![strings(&["a"]), vec![], strings(&["b", "c"])]);
}

#[test]
fn the_document_has_all_sections() {
    let d = detail("Plan", " my notes\n", "line one\nline two\n", &[&["why?", "how?"], &["why?", "when? "]]);
    assert_eq!(
        render_markdown(&d),
        "# Plan\n\n## Notes\n\nmy notes\n\n## Transcript\n\nline one\nline two\n\n## Suggested questions\n\n- why?\n- how?\n- when?\n"
    );
    let d = detail("", "", " \n", &[&[]]);
    assert_eq!(
        render_markdown(&d),
        "# \n\n## Notes\n\n_(none)_\n\n## Transcript\n\n_(none)_\n\n## Suggested questions\n\n_(none)_\n"
    );
    let d = detail("", "", "", &[&[""]]);
    assert!(render_markdown(&d).ends_with("## Suggested questions\n\n-\n"));
}

#[test]
fn titles_become_file_names() {
    assert_eq!(sanitize_filename("Q3 plan: a/b\\c.. (draft)"), "Q3 plan_ a_b_c__ _draft_");
    assert_eq!(sanitize_filename(" Été 東京-2_x "), "Été 東京-2_x");
    assert_eq!(sanitize_filename("  "), "meeting");
    assert_eq!(sanitize_filename(""), "meeting");
    assert_eq!(sanitize_filename("\n"), "_");
    assert_eq!(sanitize_filename(&"x".repeat(300)), "x".repeat(200));
    assert_eq!(sanitize_filename("½²٣"), "½²٣");
    assert_eq!(sanitize_filename(&"あ".repeat(200)), "あ".repeat(84));
    for title in ["a/b: c", "", " é. ", &"い う".repeat(90)] {
        let name = sanitize_filename(title);
        assert_eq!(sanitize_filename(&name), name);
    }
    assert_eq!(sanitize_filename(&"。".repeat(200)), "_".repeat(200));
    let spaced = format!("{} あ", "い".repeat(83));
    assert_eq!(sanitize_filename(&format!("{spaced}う")), "い".repeat(83));
    assert_eq!(sanitize_filename(&format!("{}é", "a".repeat(199))).len(), 201);
}

#[test]
fn an_export_holds_the_document_and_the_audio() {
    let d = detail("A/B", "n", "t", &[]);
    let files = export_entries(&d, Some(vec![1, 2, 3]));
    assert_eq!(files.len(), 2);
    assert_eq!(files[0].name, "A_B.md");
    assert_eq!(files[0].bytes, render_markdown(&d).into_bytes());
    assert_eq!((files[1].name.as_str(), files[1].bytes.as_slice()), ("audio.wav", &[1u8, 2, 3][..]));
    assert_eq!(export_entries(&d, None).len(), 1);
}

#[test]
fn recordings_become_wav_files() {
    let mut pcm = append_pcm(&vec![0, 1, -1]);
    pcm.extend(append_pcm(&vec![i16::MIN, i16::MAX]));
    assert_eq!(pcm, [0, 0, 1, 0, 255, 255, 0, 128, 255, 127]);
    assert_eq!(pcm_samples(&pcm), [0, 1, -1, i16::MIN, i16::MAX]);
    let wav = finalize_wav(&pcm);
    let mut header: Vec<u8> = b"RIFF".to_vec();
    header.extend(46u32.to_le_bytes());
    header.extend(b"WAVEfmt ");
    header.extend(16u32.to_le_bytes());
    header.extend([1, 0, 1, 0]);
    header.extend(16_000u32.to_le_bytes());
    header.extend(32_000u32.to_le_bytes());
    header.extend([2, 0, 16, 0]);
    header.extend(b"data");
    header.extend(10u32.to_le_bytes());
    assert_eq!(wav[..44], header);
    assert_eq!(wav[44..], pcm);
    assert_eq!(read_wav_samples(&wav), [0, 1, -1, i16::MIN, i16::MAX]);
    pcm.push(9);
    assert_eq!(finalize_wav(&pcm), wav);
    assert_eq!(read_wav_samples(&finalize_wav(&vec![])), [0i16; 0]);
}

#[test]
fn broken_wav_files_give_what_can_be_read() {
    assert!(read_wav_samples(&b"no wav".to_vec()).is_empty());
    let wav = finalize_wav(&append_pcm(&vec![5, 6, 7]));
    let cut = wav[..wav.len() - 2].to_vec();
    assert_eq!(read_wav_samples(&cut), [5, 6]);
    assert_eq!(drop_gaps(&vec![Some(1), None, Some(2)]), [1, 2]);
}

#[test]
fn unfinished_recordings_are_found() {
    assert!(!recover_unfinalized(0, None));
    assert!(recover_unfinalized(2, None));
    assert!(!recover_unfinalized(100, Some(144)));
    assert!(!recover_unfinalized(101, Some(144)));
    assert!(recover_unfinalized(100, Some(143)));
    assert!(recover_unfinalized(101, Some(143)));
    assert!(recover_unfinalized(40, Some(44)));
    assert!(recover_unfinalized(2, Some(44)));
    assert!(!recover_unfinalized(1, Some(44)));
    assert!(recover_unfinalized(u64::MAX, Some(u64::MAX)));
    assert!(recover_unfinalized(u64::MAX, Some(0)));
}

#[test]
fn untitled_meetings_are_named() {
    assert!(needs_title(&some("")));
    assert!(needs_title(&some("Untitled meeting")));
    assert!(!needs_title(&some("Plan")));
    assert!(!needs_title(&None));
    assert_eq!(title_context(" ", "notes"), None);
    assert_eq!(title_context("talk", " "), some("talk"));
    assert_eq!(title_context("talk", "n"), some("Notes:\nn\n\nTranscript:\ntalk"));
    assert_eq!(title_context(&"ä".repeat(7000), ""), Some("ä".repeat(6000)));
    assert_eq!(accept_title(Ok(" A ".to_string())), some("A"));
    assert_eq!(accept_title(Ok(" ".to_string())), None);
    assert_eq!(accept_title(Err("e".to_string())), None);
}

#[test]
fn keys_are_stored_or_cleared() {
    assert!(matches!(set_api_key(" ".to_string()), KeyChange::Clear));
    assert!(matches!(set_api_key(" k".to_string()), KeyChange::Store(k) if k == " k"));
    assert_eq!(get_api_key(some("\n")), None);
    assert_eq!(get_api_key(some("k")), some("k"));
    assert!(has_api_key(some("k")));
    assert!(!has_api_key(some("")));
    assert!(!has_api_key(None));
}

#[test]
fn nothing_set_means_defaults() {
    let p = Preferences::restore(Settings::default());
    assert_eq!(p.model, "gemini-3.5-flash");
    assert_eq!((p.language.as_str(), p.audio_source.as_str()), ("auto", "mic"));
    assert_eq!(p.device, None);
    assert!(!p.camera && !p.agent_auto);
    assert_eq!(p.agent_rules, ["web_search"]);
    assert_eq!(agent_allow_rules(Settings::default()), ["web_search"]);
    assert_eq!(agent_workspace(Settings::default()), None);
    assert_eq!(save_dir(Settings::default()), None);
    assert_eq!(read_agent_config(None), DEFAULT_AGENT_CONFIG);
    assert_eq!(read_agent_config(some("x")), "x");
    assert!(DEFAULT_AGENT_CONFIG.starts_with("# MEETCLAW.md\n\nInstructions for"));
}

#[test]
fn changes_outlive_the_program() {
    let changes = || {
        vec![
            Change::Model("m".to_string()),
            Change::Device(some("usb")),
            Change::Language("fr".to_string()),
            Change::AudioSource("both".to_string()),
            Change::Camera(true),
            Change::SaveDir(some("/data")),
            Change::AllowRules(vec![]),
            Change::Auto(true),
            Change::Workspace(some("/work")),
        ]
    };
    let mut saved = Settings::default();
    let mut running = Preferences::restore(Settings::default());
    for c in changes() {
        saved.update(c);
    }
    for c in changes() {
        running.adjust(c);
    }
    assert_eq!(saved.save_dir, some("/data"));
    assert_eq!(saved.agent_workspace, some("/work"));
    let p = Preferences::restore(saved);
    assert_eq!((p.model, p.device), (running.model, running.device));
    assert_eq!((p.language, p.audio_source), (running.language, running.audio_source));
    assert_eq!((p.camera, p.agent_auto), (true, true));
    assert_eq!((running.camera, running.agent_auto), (true, true));
    assert_eq!(p.agent_rules, running.agent_rules);
    assert!(p.agent_rules.is_empty());
}

#[test]
fn empty_choices_stand_for_the_default() {
    let mut s = Settings::default();
    s.update(Change::Device(some("")));
    s.update(Change::SaveDir(some("  ")));
    s.update(Change::Workspace(some("\t")));
    assert_eq!((s.device.clone(), s.save_dir.clone(), s.agent_workspace.clone()), (None, None, None));
    s.update(Change::Device(some(" ")));
    assert_eq!(s.device, some(" "));
    let mut s = Settings::default();
    s.save_dir = some("");
    assert_eq!(save_dir(s), None);
    let mut s = Settings::default();
    s.agent_workspace = some(" ");
    assert_eq!(agent_workspace(s), None);
}

fn current(id: &str) -> CurrentMeeting<u8> {
    CurrentMeeting { id: id.to_string(), dir: 0 }
}

#[test]
fn blank_notes_create_no_meeting() {
    let mut s: Session<u8> = Session::new();
    assert!(!s.set_notes(" \n".to_string()));
    assert_eq!(s.notes, " \n");
    assert!(s.set_notes("x".to_string()));
    s.adopt(current("m1"));
    assert_eq!(s.notes, "x");
    assert!(s.set_notes("".to_string()));
}

#[test]
fn a_session_follows_its_meeting() {
    let mut s: Session<u8> = Session::new();
    s.open(current("m1"), "old".to_string());
    assert_eq!(s.notes, "old");
    s.forget("m2");
    assert!(s.meeting.is_some());
    s.begin(current("m2"));
    assert_eq!(s.notes, "");
    s.forget("m2");
    assert!(s.meeting.is_none());
    s.forget("m2");
    assert!(s.meeting.is_none());
}

#[test]
fn helpers_report_their_state() {
    assert_eq!(
        syscap::status("Error: user DECLINED TCC prompt"),
        some("System audio needs Screen Recording permission — grant it in System Settings › Privacy & Security › Screen Recording, then restart.")
    );
    assert!(syscap::status("capture failed: x").unwrap().starts_with("System audio needs"));
    assert_eq!(
        syscap::status("Capturing System Audio at 48 kHz"),
        some("Capturing system audio (other participants).")
    );
    assert_eq!(syscap::status("hello"), None);
    assert_eq!(
        camera::status("Permission denied"),
        some("Camera needs permission — grant it in System Settings › Privacy & Security › Camera, then restart.")
    );
    assert_eq!(camera::status("NO CAMERA AVAILABLE"), some("No camera found."));
    assert_eq!(camera::status("capturing camera"), some("Capturing camera frames."));
    assert_eq!(camera::status(""), None);
    assert_eq!(camera::notice("CAPTURING CAMERA"), None);
    assert_eq!(syscap::notice("Capture Failed"), None);
}

#[test]
fn frames_have_a_sensible_length() {
    assert_eq!(camera::frame_len(&[0x10, 0x27, 0, 0]), Some(10_000));
    assert_eq!(camera::frame_len(&[0, 0, 0, 2]), Some(33_554_432));
    assert_eq!(camera::frame_len(&[1, 0, 0, 2]), None);
    assert_eq!(camera::frame_len(&[0, 0, 0, 0]), None);
    assert_eq!(camera::frame_len(&[0xff; 4]), None);
}
