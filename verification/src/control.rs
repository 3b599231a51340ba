//! Which session work may start: a live recording and the processing of an
//! uploaded file exclude each other, and neither starts without the speech
//! model.  The flags here are the app's record of what is running; every
//! transition keeps the two from being set together.
use vstd::prelude::*;
use crate::text::push_str;
use crate::transcribe::{download_instructions, model_download_instructions};

verus! {

/// Why a live session or an upload may not start.
#[derive(Debug, Clone, Copy, PartialEq, Eq, Structural)]
pub enum StartRefusal {
    /// A live session is being recorded.
    AlreadyRecording,
    /// An uploaded file is being processed.
    UploadInProgress,
    /// The speech model has not been downloaded.
    ModelMissing,
}

/// How starting the microphone capture went.
#[derive(Debug)]
pub enum CaptureStart {
    Started,
    /// The capture could not start, with the reason.
    Failed(String),
    /// The capture did not report back in time.
    TimedOut,
}

/// What is running.
#[derive(Debug, Clone, Copy, PartialEq, Eq, Structural)]
pub struct SessionFlags {
    pub is_recording: bool,
    pub is_processing_upload: bool,
}

/// The refusal, if any, of a request to start a recording or an upload: a
/// recording in progress comes first, then an upload in progress, then the
/// missing model.
pub open spec fn refusal(recording: bool, uploading: bool, model_ready: bool) -> Option<StartRefusal> {
    if recording {
        Some(StartRefusal::AlreadyRecording)
    } else if uploading {
        Some(StartRefusal::UploadInProgress)
    } else if !model_ready {
        Some(StartRefusal::ModelMissing)
    } else {
        None
    }
}

impl SessionFlags {
    /// A recording and an upload never run at once.
    pub open spec fn wf(&self) -> bool {
        !(self.is_recording && self.is_processing_upload)
    }

    /// Nothing running.
    pub fn new() -> (r: Self)
        ensures
            r.wf(),
            !r.is_recording,
            !r.is_processing_upload,
    {
        SessionFlags { is_recording: false, is_processing_upload: false }
    }

    /// Asks to start a live session.  Refused while recording, while an
    /// upload is processed, or without the speech model; the flags are then
    /// unchanged.  Otherwise recording starts.
    pub fn begin_recording(&mut self, model_ready: bool) -> (r: Result<(), StartRefusal>)
        requires
            old(self).wf(),
        ensures
            final(self).wf(),
            r matches Err(e) ==> *final(self) == *old(self) && refusal(
                old(self).is_recording,
                old(self).is_processing_upload,
                model_ready,
            ) == Some(e),
            r is Ok ==> refusal(
                old(self).is_recording,
                old(self).is_processing_upload,
                model_ready,
            ) is None && final(self).is_recording && !final(self).is_processing_upload,
    {
        if self.is_recording {
            return Err(StartRefusal::AlreadyRecording);
        }
        if self.is_processing_upload {
            return Err(StartRefusal::UploadInProgress);
        }
        if !model_ready {
            return Err(StartRefusal::ModelMissing);
        }
        self.is_recording = true;
        Ok(())
    }

    /// The outcome of starting the microphone after `begin_recording`: on a
    /// failure or a timeout recording stops again and the message for the
    /// user is returned.
    pub fn capture_result(&mut self, outcome: CaptureStart) -> (r: Result<(), String>)
        requires
            old(self).wf(),
        ensures
            final(self).wf(),
            final(self).is_processing_upload == old(self).is_processing_upload,
            outcome is Started ==> r is Ok && *final(self) == *old(self),
            outcome matches CaptureStart::Failed(e) ==> !final(self).is_recording && (r matches Err(
                m,
            ) && m@ == capture_failure_message(e@)),
            outcome is TimedOut ==> !final(self).is_recording && (r matches Err(m)
                && m@ == capture_timeout_message()),
    {
        match outcome {
            CaptureStart::Started => Ok(()),
            CaptureStart::Failed(e) => {
                self.is_recording = false;
                let mut m = String::new();
                push_str(&mut m, "마이크 캡처를 시작할 수 없습니다: ");
                push_str(&mut m, e.as_str());
                push_str(
                    &mut m,
                    "\n\n시스템 설정 > 개인정보 보호 및 보안 > 마이크에서 Scoldler 권한을 확인해주세요.",
                );
                assert(m@ == capture_failure_message(e@));
                Err(m)
            },
            CaptureStart::TimedOut => {
                self.is_recording = false;
                let m = "마이크 캡처 시작 확인 시간이 초과됐습니다. 마이크 권한을 확인해주세요.".to_owned();
                Err(m)
            },
        }
    }

    /// Stops a live session.
    pub fn end_recording(&mut self)
        requires
            old(self).wf(),
        ensures
            final(self).wf(),
            !final(self).is_recording,
            final(self).is_processing_upload == old(self).is_processing_upload,
    {
        self.is_recording = false;
    }

    /// Asks to start processing an uploaded file.  Refused while recording,
    /// while another upload is processed, or without the speech model; the
    /// flags are then unchanged.  Otherwise processing starts.
    pub fn begin_upload(&mut self, model_ready: bool) -> (r: Result<(), StartRefusal>)
        requires
            old(self).wf(),
        ensures
            final(self).wf(),
            r matches Err(e) ==> *final(self) == *old(self) && refusal(
                old(self).is_recording,
                old(self).is_processing_upload,
                model_ready,
            ) == Some(e),
            r is Ok ==> refusal(
                old(self).is_recording,
                old(self).is_processing_upload,
                model_ready,
            ) is None && final(self).is_processing_upload && !final(self).is_recording,
    {
        if self.is_recording {
            return Err(StartRefusal::AlreadyRecording);
        }
        if self.is_processing_upload {
            return Err(StartRefusal::UploadInProgress);
        }
        if !model_ready {
            return Err(StartRefusal::ModelMissing);
        }
        self.is_processing_upload = true;
        Ok(())
    }

    /// Ends the processing of an upload, however it went.
    pub fn end_upload(&mut self)
        requires
            old(self).wf(),
        ensures
            final(self).wf(),
            !final(self).is_processing_upload,
            final(self).is_recording == old(self).is_recording,
    {
        self.is_processing_upload = false;
    }
}

/// The message for a capture that failed with `e`.
pub open spec fn capture_failure_message(e: Seq<char>) -> Seq<char> {
    "마이크 캡처를 시작할 수 없습니다: "@ + e
        + "\n\n시스템 설정 > 개인정보 보호 및 보안 > 마이크에서 Scoldler 권한을 확인해주세요."@
}

/// The message for a capture that did not report back in time.
pub open spec fn capture_timeout_message() -> Seq<char> {
    "마이크 캡처 시작 확인 시간이 초과됐습니다. 마이크 권한을 확인해주세요."@
}

/// The message shown when a live session is refused.
pub open spec fn recording_refusal_text(r: StartRefusal, model_path: Seq<char>) -> Seq<char> {
    match r {
        StartRefusal::AlreadyRecording => "이미 세션이 진행 중입니다"@,
        StartRefusal::UploadInProgress => "파일 처리가 진행 중입니다. 완료 후 다시 시도해주세요."@,
        StartRefusal::ModelMissing => download_instructions(model_path),
    }
}

/// The message shown when an upload is refused.
pub open spec fn upload_refusal_text(r: StartRefusal, model_path: Seq<char>) -> Seq<char> {
    match r {
        StartRefusal::AlreadyRecording => "이미 세션이 진행 중입니다"@,
        StartRefusal::UploadInProgress => "이미 파일을 처리하는 중입니다"@,
        StartRefusal::ModelMissing => download_instructions(model_path),
    }
}

/// The message for a refused live session (`model_path` is where the speech
/// model is expected).
pub fn recording_refusal_message(r: StartRefusal, model_path: &str) -> (m: String)
    ensures
        m@ == recording_refusal_text(r, model_path@),
{
    match r {
        StartRefusal::AlreadyRecording => "이미 세션이 진행 중입니다".to_owned(),
        StartRefusal::UploadInProgress => "파일 처리가 진행 중입니다. 완료 후 다시 시도해주세요.".to_owned(),
        StartRefusal::ModelMissing => model_download_instructions(model_path),
    }
}

/// The message for a refused upload (`model_path` is where the speech model
/// is expected).
pub fn upload_refusal_message(r: StartRefusal, model_path: &str) -> (m: String)
    ensures
        m@ == upload_refusal_text(r, model_path@),
{
    match r {
        StartRefusal::AlreadyRecording => "이미 세션이 진행 중입니다".to_owned(),
        StartRefusal::UploadInProgress => "이미 파일을 처리하는 중입니다".to_owned(),
        StartRefusal::ModelMissing => model_download_instructions(model_path),
    }
}

/// The message when an uploaded file held no recognisable speech.
pub open spec fn no_speech_text() -> Seq<char> {
    "인식된 발화가 없습니다"@
}

/// Whether an upload goes on to make a session: only when at least one
/// segment of speech was recognised in the file; otherwise nothing is saved
/// and the upload fails with `no_speech_text`.
pub fn check_recognised(n_segments: usize) -> (r: Result<(), String>)
    ensures
        r is Ok <==> n_segments > 0,
        r matches Err(m) ==> m@ == no_speech_text(),
{
    if n_segments == 0 {
        Err("인식된 발화가 없습니다".to_owned())
    } else {
        Ok(())
    }
}

} // verus!
