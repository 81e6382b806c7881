use polyhedron::asr::slice_i16_to_u8;
use polyhedron::group::GroupWindow;
use polyhedron::whisper::{
    select_voiced_frames, u8_to_i16, unstable_outputs, Detector, Output, RawSegment,
    WhisperConfig, VAD_FRAME_SAMPLES, WHISPER_SAMPLE_RATE,
};

fn config() -> WhisperConfig {
    WhisperConfig {
        step_ms: 500,
        length_ms: 5000,
        keep_ms: 200,
        model: "models/ggml-base.en.bin".to_string(),
        max_prompt_tokens: 3,
    }
}

#[test]
fn samples_encode_little_endian() {
    assert_eq!(
        slice_i16_to_u8(&[1, -2, 0x1234]),
        vec![0x01, 0x00, 0xFE, 0xFF, 0x34, 0x12]
    );
    assert_eq!(slice_i16_to_u8(&[]), Vec::<u8>::new());
}

#[test]
fn bytes_decode_little_endian_dropping_odd_byte() {
    assert_eq!(u8_to_i16(&[0x01, 0x00, 0xFE, 0xFF, 0x34, 0x12, 0x07]), vec![1, -2, 0x1234]);
    assert_eq!(u8_to_i16(&[0x00, 0x80]), vec![i16::MIN]);
    assert_eq!(u8_to_i16(&[0x42]), Vec::<i16>::new());
}

#[test]
fn samples_round_trip_through_bytes() {
    let samples: Vec<i16> = vec![0, 1, -1, i16::MAX, i16::MIN, 12345, -12345];
    assert_eq!(u8_to_i16(&slice_i16_to_u8(&samples)), samples);
    let bytes: Vec<u8> = vec![0, 255, 128, 127, 1, 2];
    assert_eq!(slice_i16_to_u8(&u8_to_i16(&bytes)), bytes);
}

#[test]
fn window_emits_full_groups_and_keeps_the_rest() {
    let mut w: GroupWindow<i16> = GroupWindow::new(3);
    assert_eq!(w.group_size(), 3);
    assert_eq!(w.push_chunk(vec![1, 2]), None);
    assert_eq!(w.pending_len(), 2);
    // exactly a group is not more than a group: nothing leaves yet
    assert_eq!(w.push_chunk(vec![3]), None);
    assert_eq!(w.push_chunk(vec![4, 5, 6, 7, 8]), Some(vec![1, 2, 3]));
    assert_eq!(w.pending_len(), 5);
    assert_eq!(w.flush(), vec![4, 5, 6, 7, 8]);
    assert_eq!(w.pending_len(), 0);
    assert_eq!(w.flush(), Vec::<i16>::new());
}

#[test]
fn voice_selection_keeps_voiced_and_partial_frames() {
    let data: Vec<i16> = (0..10).collect();
    let kept = select_voiced_frames(&data, 3, &vec![true, false, true]);
    assert_eq!(kept, vec![0, 1, 2, 6, 7, 8, 9]);
    let none = select_voiced_frames(&data, 5, &vec![false, false]);
    assert_eq!(none, Vec::<i16>::new());
    assert_eq!(VAD_FRAME_SAMPLES, WHISPER_SAMPLE_RATE / 100 * 3);
}

#[test]
fn detector_sample_counts_follow_config() {
    let d = Detector::new(config(), vec![]);
    assert_eq!(d.n_samples_step(), 8000);
    assert!(d.pcm().is_empty());
    assert!(d.prompt_tokens().is_empty());
}

#[test]
fn detector_crosses_lines_by_elapsed_time() {
    let d = Detector::new(config(), vec![]);
    assert!(!d.has_crossed_next_line(4999));
    assert!(d.has_crossed_next_line(5000));
}

#[test]
fn detector_records_and_finishes_lines() {
    let mut d = Detector::new(config(), vec![]);
    d.feed(vec![7; 16000]);
    let segs = d.record_inference(vec![
        RawSegment { t0: 0, t1: 150, text: "  hello world ".to_string(), tokens: vec![10, 11] },
        RawSegment { t0: 150, t1: 300, text: "again".to_string(), tokens: vec![12] },
    ]);
    assert_eq!(segs.len(), 2);
    assert_eq!(segs[0].text, "hello world");
    assert_eq!(segs[0].start_timestamp, 0);
    assert_eq!(segs[0].end_timestamp, 1500);
    assert_eq!(segs[1].start_timestamp, 1500);

    let finished = d.next_line().expect("a current segment");
    assert_eq!(finished.text, "hello world");
    // 200 ms are kept: 3200 samples; 12800 dropped
    assert_eq!(d.pcm().len(), 3200);
    assert_eq!(d.prompt_tokens(), &vec![10, 11]);
    assert!(d.next_line().is_none());
    assert!(d.pcm().is_empty());
    assert!(d.has_crossed_next_line(10000) == false);
    assert!(d.has_crossed_next_line(15000));

    // timestamps now start at the dropped audio: 16000 samples = 1000 ms
    let segs = d.record_inference(vec![RawSegment {
        t0: 10,
        t1: 20,
        text: "x".to_string(),
        tokens: vec![13, 14],
    }]);
    assert_eq!(segs[0].start_timestamp, 1100);
    assert_eq!(segs[0].end_timestamp, 1200);
    d.next_line();
    // the prompt keeps the latest three tokens
    assert_eq!(d.prompt_tokens(), &vec![11, 13, 14]);
}

#[test]
fn unstable_outputs_wrap_each_segment() {
    let mut d = Detector::new(config(), vec![]);
    let segs = d.record_inference(vec![
        RawSegment { t0: 0, t1: 1, text: "a".to_string(), tokens: vec![] },
        RawSegment { t0: 1, t1: 2, text: "b".to_string(), tokens: vec![] },
    ]);
    let outs = unstable_outputs(&segs);
    assert_eq!(outs.len(), 2);
    match &outs[1] {
        Output::Unstable(s) => assert_eq!(s.text, "b"),
        Output::Stable(_) => panic!("expected an unstable output"),
    }
}

#[test]
fn detector_accounts_for_every_sample() {
    let mut d = Detector::new(config(), vec![]);
    d.feed(vec![1; 5000]);
    d.next_line();
    assert_eq!(d.dropped_samples() + d.pcm().len(), 5000);
    assert_eq!(d.dropped_samples(), 1800);
    assert_eq!(d.lines_finished(), 1);
    d.feed(vec![2; 100]);
    d.next_line();
    // 3300 buffered is more than the 3200 kept
    assert_eq!(d.dropped_samples() + d.pcm().len(), 5100);
    assert_eq!(d.pcm().len(), 3200);
    assert_eq!(d.pcm()[0], 1);
    assert_eq!(d.pcm()[3199], 2);
}

#[test]
fn detector_tick_announces_stable_lines() {
    let mut d = Detector::new(config(), vec![]);
    assert!(d.tick(100).is_none());
    d.record_inference(vec![RawSegment { t0: 0, t1: 5, text: "hi".to_string(), tokens: vec![1] }]);
    assert!(d.tick(4999).is_none());
    let outs = d.tick(5000).expect("a finished line");
    assert_eq!(outs.len(), 1);
    match &outs[0] {
        Output::Stable(s) => assert_eq!(s.text, "hi"),
        Output::Unstable(_) => panic!("expected a stable output"),
    }
    assert_eq!(d.lines_finished(), 1);
    // a new line with no current segment announces nothing
    assert!(d.tick(10000).is_none());
    assert_eq!(d.lines_finished(), 2);
}

#[test]
fn detector_accepts_voiced_audio_and_reports_inference() {
    let mut d = Detector::new(config(), vec![]);
    let data: Vec<i16> = (0..1000).map(|i| i as i16).collect();
    // two full 480-sample frames and a 40-sample tail
    d.accept_audio(&data, &vec![false, true]);
    assert_eq!(d.pcm().len(), 520);
    assert_eq!(d.pcm()[0], 480);
    assert!(d.inference_outputs(vec![]).is_none());
    let raw = vec![RawSegment { t0: 1, t1: 2, text: " ok".to_string(), tokens: vec![] }];
    assert!(d.timestamps_fit(&raw));
    let outs = d.inference_outputs(raw).expect("one segment");
    match &outs[0] {
        Output::Unstable(s) => {
            assert_eq!(s.text, "ok");
            assert_eq!((s.start_timestamp, s.end_timestamp), (10, 20));
        }
        Output::Stable(_) => panic!("expected an unstable output"),
    }
    let huge = vec![RawSegment { t0: i64::MAX, t1: 0, text: String::new(), tokens: vec![] }];
    assert!(!d.timestamps_fit(&huge));
}

#[test]
fn window_groups_keep_every_item_over_a_run() {
    let mut w: GroupWindow<u8> = GroupWindow::new(2);
    let chunks: Vec<Vec<u8>> = vec![vec![1], vec![2, 3, 4], vec![], vec![5, 6]];
    let mut emitted: Vec<u8> = Vec::new();
    for c in chunks.clone() {
        if let Some(g) = w.push_chunk(c) {
            assert_eq!(g.len(), 2);
            emitted.extend(g);
        }
    }
    emitted.extend(w.flush());
    assert_eq!(emitted, chunks.concat());
}
