# wtf_english

The core of a desktop English speaking-practice companion: it listens to
the learner, transcribes each utterance, asks a local tutor model for
corrections, and keeps a markdown report of every session.

`src/` is the verified library:

- `vad` — splitting microphone audio into utterances (speech starts with a
  loud chunk, ends after sixteen quiet ones, is dropped below 0.5 s).
- `control` — a live recording and an upload never run at once.
- `session`, `title`, `clock` — the report, transcript and sidecar files of
  a session, session titles, listing (newest first) and statistics.
- `feedback`, `ollama`, `transcribe` — what the tutor model is asked, when
  it is not asked, the model's download progress stream, and the speech
  model's location.
- `paths`, `text` — path arithmetic and the string primitives the formats
  are built from.

`app/` is the Tauri program around it: audio capture and decoding, the
speech and language models, file and network access, and the commands the
front end calls.
