use polyhedron::asr::{
    event_from_output, events_from_outputs, transcript_events, translation_source, Event,
    StreamTranscriptionError, Transcript, TranscriptAlternative, TranscriptResult,
    TranscriptStreamItem,
};
use polyhedron::base64box::{Base64Box, Base64Error};
use polyhedron::class::{
    lesson_status, member_identifier, supported_languages, CreateClassReq, EnterClassError,
    Lesson, LessonRow, LessonStatus,
};
use polyhedron::config::config_file_name;
use polyhedron::lesson::{AsrEngine, Registry};
use polyhedron::speech::speech_mark_lines;
use polyhedron::text::{join_with_comma, split_at_commas, trim_to_string};
use polyhedron::whisper::{Detector, Output, RawSegment, WhisperConfig};

fn result(text: Option<&str>, partial: bool) -> TranscriptResult {
    TranscriptResult {
        alternatives: Some(vec![TranscriptAlternative { transcript: text.map(|t| t.to_string()) }]),
        is_partial: partial,
    }
}

#[test]
fn transcript_results_become_events() {
    let item = TranscriptStreamItem::TranscriptEvent(Some(Transcript {
        results: Some(vec![
            result(Some("hel"), true),
            TranscriptResult { alternatives: None, is_partial: false },
            TranscriptResult { alternatives: Some(vec![]), is_partial: false },
            result(None, false),
            result(Some("hello"), false),
        ]),
    }));
    let events = transcript_events(&item).expect("events");
    assert_eq!(events.len(), 2);
    assert_eq!(events[0].transcript, "hel");
    assert!(!events[0].is_final);
    assert_eq!(events[1].transcript, "hello");
    assert!(events[1].is_final);

    let empty = transcript_events(&TranscriptStreamItem::TranscriptEvent(None)).expect("ok");
    assert!(empty.is_empty());
    let no_results =
        transcript_events(&TranscriptStreamItem::TranscriptEvent(Some(Transcript { results: None })))
            .expect("ok");
    assert!(no_results.is_empty());
    assert!(matches!(
        transcript_events(&TranscriptStreamItem::Other),
        Err(StreamTranscriptionError::Unknown)
    ));
}

#[test]
fn stream_errors_describe_themselves() {
    assert_eq!(
        StreamTranscriptionError::EstablishStreamError("refused".to_string()).message(),
        "EstablishStreamError: refused"
    );
    assert_eq!(
        StreamTranscriptionError::TranscriptResultStreamError("eof".to_string()).message(),
        "TranscriptResultStreamError: eof"
    );
    assert_eq!(StreamTranscriptionError::Unknown.message(), "Unknown");
}

#[test]
fn recognizer_outputs_become_events() {
    let mut d = Detector::new(
        WhisperConfig {
            step_ms: 100,
            length_ms: 1000,
            keep_ms: 0,
            model: String::new(),
            max_prompt_tokens: 8,
        },
        vec![],
    );
    let segs = d.record_inference(vec![RawSegment {
        t0: 0,
        t1: 1,
        text: " yes ".to_string(),
        tokens: vec![],
    }]);
    let stable = Output::Stable(segs[0].snapshot());
    let e = event_from_output(&stable);
    assert_eq!(e.transcript, "yes");
    assert!(e.is_final);
    let events = events_from_outputs(&vec![Output::Unstable(segs[0].snapshot()), stable]);
    assert!(!events[0].is_final);
    assert!(events[1].is_final);
}

#[test]
fn only_final_events_are_translated() {
    let fin = Event { transcript: "done".to_string(), is_final: true };
    let part = Event { transcript: "do".to_string(), is_final: false };
    assert_eq!(translation_source(&fin), Some("done".to_string()));
    assert_eq!(translation_source(&part), None);
}

#[test]
fn base64_box_round_trips() {
    let b = Base64Box(vec![1, 2, 3]);
    assert_eq!(b.to_base64(), "AQID");
    assert_eq!(Base64Box(vec![1, 2]).to_base64(), "AQI");
    assert_eq!(Base64Box(vec![]).to_base64(), "");
    assert_eq!(Base64Box::from_base64("AQI").unwrap().0, vec![1, 2]);
    let bytes: Vec<u8> = (0..=255).collect();
    let text = Base64Box(bytes.clone()).to_base64();
    assert_eq!(Base64Box::from_base64(&text).unwrap().0, bytes);
}

#[test]
fn base64_box_rejects_bad_text() {
    assert_eq!(Base64Box::from_base64("AQI=").unwrap_err(), Base64Error::InvalidPadding);
    assert_eq!(Base64Box::from_base64("A").unwrap_err(), Base64Error::InvalidLength);
    assert_eq!(Base64Box::from_base64("AQ!D").unwrap_err(), Base64Error::InvalidByte(2, b'!'));
    assert_eq!(Base64Box::from_base64("AQJ").unwrap_err(), Base64Error::InvalidLastSymbol(2, b'J'));
}

#[test]
fn supported_language_list() {
    assert_eq!(
        supported_languages(),
        vec!["Arabic", "English", "Chinese", "Hindi", "Bangladesh", "Urdu"]
    );
}

#[test]
fn lists_are_stored_joined_and_read_split() {
    let req = CreateClassReq {
        name: "Safety".to_string(),
        start_time: 1_000,
        end_time: 2_000,
        digital_human_list: vec!["a.png".to_string(), "b.png".to_string()],
        supported_lang: vec!["English".to_string()],
        teacher_code: "t".to_string(),
        student_code: vec!["s1".to_string()],
    };
    let cols = req.lesson_columns();
    assert_eq!(cols.name, "Safety");
    assert_eq!(cols.digital_human_list, "a.png,b.png");
    assert_eq!(cols.language_list, "English");
    assert_eq!((cols.start_time, cols.end_time), (1_000, 2_000));
    assert_eq!(split_at_commas(&cols.digital_human_list), req.digital_human_list);
    assert_eq!(join_with_comma(&vec![]), "");
    assert_eq!(split_at_commas(""), vec![""]);
    assert_eq!(split_at_commas(",x,"), vec!["", "x", ""]);
}

#[test]
fn lesson_status_by_time() {
    assert_eq!(lesson_status(10, 20, 5), LessonStatus::NotStarted);
    assert_eq!(lesson_status(10, 20, 15), LessonStatus::Teaching);
    assert_eq!(lesson_status(10, 20, 10), LessonStatus::Ended);
    assert_eq!(lesson_status(10, 20, 20), LessonStatus::Ended);
    assert_eq!(lesson_status(10, 20, 25), LessonStatus::Ended);
    assert_eq!(LessonStatus::NotStarted.label(), "Not Started");
    assert_eq!(LessonStatus::Teaching.label(), "Teaching");
    assert_eq!(LessonStatus::Ended.label(), "Ended");
}

#[test]
fn lesson_listing_from_row() {
    let row = LessonRow {
        id: 7,
        name: "Forklift".to_string(),
        digital_human_list: "x.png,y.png".to_string(),
        language_list: "Urdu,Hindi".to_string(),
        start_time: 0,
        end_time: 3_600_000,
        teacher_code: "T1".to_string(),
        student_code: "S1".to_string(),
        create_time: "2024-01-01".to_string(),
    };
    let l: Lesson = Lesson::from_row(&row, 1_000).expect("in range");
    assert_eq!(l.id, 7);
    assert_eq!(l.start_time, "1970-01-01 00:00:00");
    assert_eq!(l.end_time, "1970-01-01 01:00:00");
    assert_eq!(l.digital_human_list, vec!["x.png", "y.png"]);
    assert_eq!(l.supported_language, vec!["Urdu", "Hindi"]);
    assert_eq!(l.status, "Teaching");
    assert_eq!(l.teacher_link, "");
    assert_eq!(l.create_time, "2024-01-01");
    let far = LessonRow { start_time: i64::MAX, ..row };
    assert!(Lesson::from_row(&far, 0).is_none());
}

#[test]
fn member_identifier_needs_user_agent() {
    assert_eq!(
        member_identifier(Some("Mozilla/5.0"), "10.0.0.1:5000"),
        Ok("Mozilla/5.0-10.0.0.1:5000".to_string())
    );
    assert_eq!(member_identifier(None, "10.0.0.1:5000"), Err(EnterClassError::UserAgentRequired));
    assert_eq!(EnterClassError::UserAgentRequired.message(), "User-Agent required");
}

#[test]
fn settings_file_by_run_mode() {
    assert_eq!(config_file_name(None), "config/dev.yaml");
    assert_eq!(config_file_name(Some("prod".to_string())), "config/prod.yaml");
}

#[test]
fn registry_reads_what_was_registered() {
    let mut r: Registry<u32> = Registry::new();
    assert_eq!(r.len(), 0);
    assert_eq!(r.insert("en-US".to_string(), 1), None);
    assert_eq!(r.insert("zh-CN".to_string(), 2), None);
    assert_eq!(r.get(&"en-US".to_string()), Some(&1));
    assert_eq!(r.insert("en-US".to_string(), 3), Some(1));
    assert_eq!(r.get(&"en-US".to_string()), Some(&3));
    assert_eq!(r.get(&"zh-CN".to_string()), Some(&2));
    assert_eq!(r.get(&"fr-FR".to_string()), None);
    assert_eq!(r.len(), 2);
    assert_ne!(AsrEngine::AWS, AsrEngine::Whisper);
}

#[test]
fn speech_marks_split_into_lines() {
    let bytes = b"{\"a\":1}\r\n{\"b\":2}\n\n{\"c\":3}\r".to_vec();
    let lines = speech_mark_lines(&bytes);
    assert_eq!(
        lines,
        vec![b"{\"a\":1}".to_vec(), b"{\"b\":2}".to_vec(), Vec::new(), b"{\"c\":3}\r".to_vec()]
    );
    assert!(speech_mark_lines(&Vec::new()).is_empty());
    assert_eq!(speech_mark_lines(&b"x\n".to_vec()), vec![b"x".to_vec()]);
}

#[test]
fn trimming_removes_outer_white_space() {
    assert_eq!(trim_to_string("  a b \n"), "a b");
    assert_eq!(trim_to_string(""), "");
    assert_eq!(trim_to_string("\u{3000}\u{85}x\u{a0}y\u{2029}\t"), "x\u{a0}y");
    assert_eq!(trim_to_string(" \u{200a}\r\n"), "");
    assert_eq!(trim_to_string("\u{200b}z"), "\u{200b}z");
}

#[test]
fn registry_shares_a_live_pipeline_per_key() {
    let mut r: Registry<u32> = Registry::new();
    let mut started = 0;
    let first = r.share_or_register("en-US".to_string(), None, || {
        started += 1;
        ("pipeline en-US", 7)
    });
    assert_eq!(first, "pipeline en-US");
    assert_eq!(started, 1);
    assert_eq!(r.get(&"en-US".to_string()), Some(&7));
    let again = r.share_or_register("en-US".to_string(), Some("live en-US"), || ("unused", 9));
    assert_eq!(again, "live en-US");
    assert_eq!(r.get(&"en-US".to_string()), Some(&7));
    assert_eq!(r.len(), 1);
    let restarted = r.share_or_register("en-US".to_string(), None, || ("pipeline again", 8));
    assert_eq!(restarted, "pipeline again");
    assert_eq!(r.get(&"en-US".to_string()), Some(&8));
    assert_eq!(r.len(), 1);
}
