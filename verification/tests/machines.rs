use wtf_english::control::{
    check_recognised, recording_refusal_message, upload_refusal_message, CaptureStart, SessionFlags, StartRefusal,
};
use wtf_english::vad::{SpeechDetector, VadAction, MIN_SPEECH_SAMPLES, SILENCE_CHUNKS_TO_END};

#[test]
fn quiet_audio_is_ignored() {
    let mut d = SpeechDetector::new();
    assert_eq!(d.on_chunk(false, 512), VadAction::Ignore);
    assert_eq!(d, SpeechDetector::new());
}

#[test]
fn speech_then_silence_emits_one_utterance() {
    let mut d = SpeechDetector::new();
    for _ in 0..20 {
        assert_eq!(d.on_chunk(true, 512), VadAction::Append);
    }
    for _ in 0..SILENCE_CHUNKS_TO_END - 1 {
        assert_eq!(d.on_chunk(false, 512), VadAction::Append);
    }
    assert_eq!(d.buffered, 512 * (20 + SILENCE_CHUNKS_TO_END - 1));
    assert_eq!(d.on_chunk(false, 512), VadAction::AppendAndEmit);
    assert!(!d.is_speaking);
    assert_eq!(d.buffered, 0);
    assert_eq!(d.on_chunk(false, 512), VadAction::Ignore);
}

#[test]
fn short_noise_is_discarded() {
    let mut d = SpeechDetector::new();
    assert_eq!(d.on_chunk(true, 512), VadAction::Append);
    for _ in 0..SILENCE_CHUNKS_TO_END - 1 {
        assert_eq!(d.on_chunk(false, 100), VadAction::Append);
    }
    assert!(512 + 100 * SILENCE_CHUNKS_TO_END < MIN_SPEECH_SAMPLES);
    assert_eq!(d.on_chunk(false, 100), VadAction::Discard);
    assert_eq!(d, SpeechDetector::new());
}

#[test]
fn a_loud_chunk_resets_the_silence_count() {
    let mut d = SpeechDetector::new();
    d.on_chunk(true, 8000);
    for _ in 0..10 {
        d.on_chunk(false, 10);
    }
    assert_eq!(d.silence_chunk_count, 10);
    d.on_chunk(true, 10);
    assert_eq!(d.silence_chunk_count, 0);
    assert!(d.is_speaking);
}

#[test]
fn recording_and_upload_exclude_each_other() {
    let mut f = SessionFlags::new();
    assert_eq!(f.begin_recording(false), Err(StartRefusal::ModelMissing));
    assert_eq!(f, SessionFlags::new());
    assert_eq!(f.begin_recording(true), Ok(()));
    assert_eq!(f.begin_recording(true), Err(StartRefusal::AlreadyRecording));
    assert_eq!(f.begin_upload(true), Err(StartRefusal::AlreadyRecording));
    f.end_recording();
    assert_eq!(f.begin_upload(true), Ok(()));
    assert_eq!(f.begin_upload(true), Err(StartRefusal::UploadInProgress));
    assert_eq!(f.begin_recording(true), Err(StartRefusal::UploadInProgress));
    f.end_upload();
    assert_eq!(f, SessionFlags::new());
}

#[test]
fn failed_capture_stops_recording() {
    let mut f = SessionFlags::new();
    f.begin_recording(true).unwrap();
    let e = f.capture_result(CaptureStart::Failed("no device".to_string())).unwrap_err();
    assert!(e.starts_with("마이크 캡처를 시작할 수 없습니다: no device\n\n"));
    assert!(!f.is_recording);
    f.begin_recording(true).unwrap();
    assert!(f.capture_result(CaptureStart::TimedOut).unwrap_err().contains("시간이 초과"));
    assert!(!f.is_recording);
    f.begin_recording(true).unwrap();
    assert_eq!(f.capture_result(CaptureStart::Started), Ok(()));
    assert!(f.is_recording);
}

#[test]
fn refusal_messages() {
    assert_eq!(recording_refusal_message(StartRefusal::AlreadyRecording, "/m"), "이미 세션이 진행 중입니다");
    assert_eq!(
        recording_refusal_message(StartRefusal::UploadInProgress, "/m"),
        "파일 처리가 진행 중입니다. 완료 후 다시 시도해주세요."
    );
    assert_eq!(upload_refusal_message(StartRefusal::AlreadyRecording, "/m"), "이미 세션이 진행 중입니다");
    assert_eq!(upload_refusal_message(StartRefusal::UploadInProgress, "/m"), "이미 파일을 처리하는 중입니다");
    assert!(upload_refusal_message(StartRefusal::ModelMissing, "/m").contains("-o \"/m\""));
}

#[test]
fn an_upload_without_speech_saves_nothing() {
    assert_eq!(check_recognised(0), Err("인식된 발화가 없습니다".to_string()));
    assert_eq!(check_recognised(1), Ok(()));
    assert_eq!(check_recognised(12), Ok(()));
}
