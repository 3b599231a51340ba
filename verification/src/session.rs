//! Sessions: what is recorded during one, the files a finished session is
//! saved as, and how saved sessions are listed, titled, renamed and counted.
//!
//! A session saved at time `t` is kept in the sessions directory as
//! `<base>.md` (the report), with sidecars `<base>.json` (the utterances),
//! `<base>.txt` (the raw transcript), `<base>.title` (a custom title) and
//! `<base>.source` (how the session was made).  The functions here compute
//! what goes into and comes out of those files; reading and writing them is
//! left to the caller.
use vstd::prelude::*;
use crate::clock::{base_name, heading_date, push_heading_date, session_base_name, SessionTime};
use crate::feedback::{clone_feedback, FeedbackResult};
use crate::paths::{file_name, file_name_of, is_markdown_file, is_markdown_name, join, join_path, utf8};
use crate::text::{
    chars_of, dec, lines, nonblank, push_char, push_dec, push_str, split, split_chars, string_of,
    strip_cr, strip_cr_vec, trimmed_nonblank, vec_eq_str, vec_range, views, lemma_trim_idempotent,
    lex_le, lemma_lex_refl, lemma_lex_total, lemma_lex_trans, str_le,
};
use crate::title::{format_session_title, session_title};

verus! {

/// One utterance of a finished session with the tutor's feedback on it.
#[derive(Debug, Clone)]
pub struct Utterance {
    /// `HH:MM:SS` for live sessions, `mm:ss` into the file for uploads.
    pub timestamp: String,
    pub feedback: FeedbackResult,
}

/// One transcribed utterance, before any feedback is asked for.
#[derive(Debug, Clone)]
pub struct RawUtterance {
    pub timestamp: String,
    pub text: String,
}

/// Whether a session was recorded live or made from an uploaded file.
#[derive(Debug, Clone)]
pub enum SessionSource {
    Recorded,
    Uploaded { original_filename: String },
}

impl View for SessionSource {
    /// `None` for a recorded session, the uploaded file's name otherwise.
    type V = Option<Seq<char>>;

    open spec fn view(&self) -> Option<Seq<char>> {
        match self {
            SessionSource::Recorded => None,
            SessionSource::Uploaded { original_filename } => Some(original_filename@),
        }
    }
}

/// Totals over all saved sessions.
#[derive(Debug, Clone)]
pub struct Stats {
    pub total_sessions: usize,
    pub total_utterances: usize,
    pub total_corrections: usize,
}

/// A saved session as the session list shows it.
#[derive(Debug, Clone)]
pub struct SessionInfo {
    /// The report's file name, e.g. `2025-01-20_14-30-45.md`.
    pub filename: String,
    /// The custom title, or one made from the file name (`Jan 20, 2:30 PM`).
    pub title: String,
    /// The report's path.
    pub path: String,
    pub source: SessionSource,
}

/// The view of an optional string argument.
pub open spec fn opt_str(o: Option<&str>) -> Option<Seq<char>> {
    match o {
        Some(s) => Some(s@),
        None => None,
    }
}

/// The view of an optional string.
pub open spec fn opt_string(o: Option<String>) -> Option<Seq<char>> {
    match o {
        Some(s) => Some(s@),
        None => None,
    }
}

// ───────────────────────── file locations ─────────────────────────

/// `<dir>/<base>.<ext>`: where the file with extension `ext` of the session
/// saved at `t` is kept in the sessions directory `dir`.
pub open spec fn session_file(dir: Seq<u8>, t: SessionTime, ext: Seq<char>) -> Seq<u8> {
    join(dir, utf8(base_name(t) + "."@ + ext))
}

/// The path of the file with extension `ext` (`md` for the report, `json`,
/// `txt`) of the session saved at `t`, in the sessions directory `dir`.
pub fn session_file_path(dir: &[u8], t: &SessionTime, ext: &str) -> (r: Vec<u8>)
    requires
        t.wf(),
    ensures
        r@ == session_file(dir@, *t, ext@),
{
    let mut name = session_base_name(t);
    push_char(&mut name, '.');
    push_str(&mut name, ext);
    proof {
        reveal_strlit(".");
    }
    assert(name@ =~= base_name(*t) + "."@ + ext@);
    join_path(dir, name.as_str().as_bytes())
}

// ───────────────────────── the `.source` sidecar ─────────────────────────

/// The contents of the `.source` sidecar: `recorded`, or `uploaded` and the
/// original file name on a second line.
pub open spec fn source_text(source: Option<Seq<char>>) -> Seq<char> {
    match source {
        None => "recorded"@,
        Some(f) => "uploaded"@ + seq!['\n'] + f,
    }
}

/// The source a `.source` sidecar describes: `Uploaded` with the second
/// line (empty when missing) if the first line is `uploaded`; `Recorded`
/// otherwise, including when there is no sidecar (older sessions).
pub open spec fn source_of(content: Option<Seq<char>>) -> Option<Seq<char>> {
    match content {
        None => None,
        Some(c) => {
            let ls = lines(c);
            if ls.len() >= 1 && ls[0] == "uploaded"@ {
                Some(
                    if ls.len() >= 2 {
                        ls[1]
                    } else {
                        Seq::empty()
                    },
                )
            } else {
                None
            }
        },
    }
}

/// What to write into a session's `.source` sidecar.
pub fn source_sidecar_text(source: &SessionSource) -> (r: String)
    ensures
        r@ == source_text(source@),
{
    match source {
        SessionSource::Recorded => "recorded".to_owned(),
        SessionSource::Uploaded { original_filename } => {
            let mut s = "uploaded".to_owned();
            push_char(&mut s, '\n');
            push_str(&mut s, original_filename.as_str());
            s
        },
    }
}

/// The session source recorded in a `.source` sidecar whose contents are
/// `content` (`None` when the sidecar could not be read).
pub fn read_source_sidecar(content: Option<&str>) -> (r: SessionSource)
    ensures
        r@ == source_of(opt_str(content)),
{
    let c = match content {
        None => {
            return SessionSource::Recorded;
        },
        Some(c) => c,
    };
    let v = chars_of(c);
    let parts = split_chars(&v, '\n');
    let n = parts.len();
    let ghost ps = split(c@, '\n');
    let ghost ls = lines(c@);
    let ghost ended = ps.drop_last().map_values(|x: Seq<char>| strip_cr(x));
    proof {
        crate::text::lemma_split_nonempty(c@, '\n');
        assert(views(parts@) == ps);
        assert(parts@[0]@ == ps[0]);
        assert(ended.len() == n - 1);
    }
    // the first line
    let first = if n >= 2 {
        assert(ls[0] == ended[0]);
        strip_cr_vec(&parts[0])
    } else if parts[0].len() > 0 {
        assert(ps.last() == ps[0]);
        assert(ls[0] == ps[0]);
        vec_range(&parts[0], 0, parts[0].len())
    } else {
        assert(ps.last() == ps[0]);
        assert(ls.len() == 0);
        return SessionSource::Recorded;
    };
    assert(first@ =~= ls[0]);
    if !vec_eq_str(&first, "uploaded") {
        return SessionSource::Recorded;
    }
    let second = if n >= 3 {
        assert(parts@[1]@ == ps[1]);
        assert(ls.len() >= 2 && ls[1] == ended[1]);
        strip_cr_vec(&parts[1])
    } else if n == 2 && parts[1].len() > 0 {
        assert(parts@[1]@ == ps[1]);
        assert(ps.last() == ps[1]);
        assert(ls.len() == 2 && ls[1] == ps[1]);
        vec_range(&parts[1], 0, parts[1].len())
    } else {
        proof {
            if n == 2 {
                assert(parts@[1]@ == ps[1]);
                assert(ps.last() == ps[1]);
            }
        }
        assert(ls.len() < 2);
        Vec::new()
    };
    let name = string_of(&second);
    assert(name@ =~= source_of(opt_str(content))->0);
    SessionSource::Uploaded { original_filename: name }
}

/// A source written to the `.source` sidecar reads back unchanged, provided
/// an uploaded file's name holds no line break.
pub proof fn lemma_source_sidecar_roundtrip(source: Option<Seq<char>>)
    requires
        source matches Some(f) ==> !f.contains('\n'),
    ensures
        source_of(Some(source_text(source))) == source,
{
    reveal_strlit("recorded");
    reveal_strlit("uploaded");
    match source {
        None => {
            let c = "recorded"@;
            assert(!c.contains('\n')) by {
                if c.contains('\n') {
                    let k = choose|k: int| 0 <= k < c.len() && c[k] == '\n';
                    assert(c[k] != '\n');
                }
            }
            crate::text::lemma_split_no_sep(c, '\n');
            assert(split(c, '\n') == seq![c]);
            assert(lines(c) =~= seq![c]);
            assert(c != "uploaded"@) by {
                assert(c[0] != "uploaded"@[0]);
            }
        },
        Some(f) => {
            let u = "uploaded"@;
            assert(!u.contains('\n')) by {
                if u.contains('\n') {
                    let k = choose|k: int| 0 <= k < u.len() && u[k] == '\n';
                    assert(u[k] != '\n');
                }
            }
            crate::text::lemma_split_concat(u, '\n', f);
            crate::text::lemma_split_no_sep(u, '\n');
            crate::text::lemma_split_no_sep(f, '\n');
            let c = u + seq!['\n'] + f;
            assert(split(c, '\n') =~= seq![u, f]);
            assert(strip_cr(u) == u) by {
                assert(u.last() != '\r');
            }
            if f.len() == 0 {
                assert(lines(c) =~= seq![u]);
                assert(f =~= Seq::<char>::empty());
            } else {
                assert(lines(c) =~= seq![u, f]);
            }
        },
    }
}

// ───────────────────────── titles ─────────────────────────

/// The custom title a `.title` sidecar holds: its trimmed contents, unless
/// there is no sidecar or it is blank.
pub open spec fn custom_title(content: Option<Seq<char>>) -> Option<Seq<char>> {
    match content {
        Some(c) => nonblank(c),
        None => None,
    }
}

/// The custom title in a `.title` sidecar whose contents are `content`.
pub fn read_custom_title(content: Option<&str>) -> (r: Option<String>)
    ensures
        opt_string(r) == custom_title(opt_str(content)),
{
    match content {
        Some(c) => trimmed_nonblank(c),
        None => None,
    }
}

/// Renaming a session: `Some(text)` is what its `.title` sidecar is to hold,
/// `None` means the sidecar is removed so that the session falls back to
/// its time-stamp title (for a blank new title).
pub fn title_sidecar_contents(new_title: &str) -> (r: Option<String>)
    ensures
        opt_string(r) == nonblank(new_title@),
{
    trimmed_nonblank(new_title)
}

/// After a rename to `new_title`, the session's custom title is the trimmed
/// new title, or none at all when the new title is blank.
pub proof fn lemma_rename_then_read(new_title: Seq<char>)
    ensures
        custom_title(nonblank(new_title)) == nonblank(new_title),
{
    lemma_trim_idempotent(new_title);
}

/// The title shown for a session: its custom title, else the title made
/// from its report's file name.
pub open spec fn shown_title(custom: Option<Seq<char>>, filename: Seq<char>) -> Seq<char> {
    match custom {
        Some(t) => t,
        None => session_title(filename),
    }
}

/// The file name of a path, or the empty string.
pub open spec fn file_name_or_empty(p: Seq<char>) -> Seq<char> {
    match file_name(p) {
        Some(f) => f,
        None => Seq::empty(),
    }
}

/// Whether `info` is the list entry of the session whose report is at
/// `md_path`, with `.title` and `.source` sidecars holding `title_sidecar`
/// and `source_sidecar` (`None` where one could not be read): its file
/// name (empty when the path has none), the title shown for it, its path
/// and its source.
pub open spec fn is_info_of(
    info: SessionInfo,
    md_path: Seq<char>,
    title_sidecar: Option<Seq<char>>,
    source_sidecar: Option<Seq<char>>,
) -> bool {
    &&& info.filename@ == file_name_or_empty(md_path)
    &&& info.title@ == shown_title(custom_title(title_sidecar), info.filename@)
    &&& info.path@ == md_path
    &&& info.source@ == source_of(source_sidecar)
}

/// The list entry for the session whose report is at `md_path`, given the
/// contents of its `.title` and `.source` sidecars (`None` where a sidecar
/// could not be read).
pub fn get_session_info(
    md_path: &str,
    title_sidecar: Option<&str>,
    source_sidecar: Option<&str>,
) -> (r: SessionInfo)
    ensures
        is_info_of(r, md_path@, opt_str(title_sidecar), opt_str(source_sidecar)),
{
    let filename = match file_name_of(md_path) {
        Some(f) => f,
        None => String::new(),
    };
    let title = match read_custom_title(title_sidecar) {
        Some(t) => t,
        None => format_session_title(filename.as_str()),
    };
    SessionInfo {
        filename,
        title,
        path: md_path.to_owned(),
        source: read_source_sidecar(source_sidecar),
    }
}

/// The name an uploaded file is remembered by: its file name, or the whole
/// path when it has none.
pub fn upload_original_filename(path: &str) -> (r: String)
    ensures
        r@ == match file_name(path@) {
            Some(f) => f,
            None => path@,
        },
{
    match file_name_of(path) {
        Some(f) => f,
        None => path.to_owned(),
    }
}

// ───────────────────────── the transcript ─────────────────────────

/// One transcript line: `[{timestamp}] {text}`.
pub open spec fn transcript_line(u: RawUtterance) -> Seq<char> {
    seq!['['] + u.timestamp@ + seq![']', ' '] + u.text@ + seq!['\n']
}

/// The `.txt` transcript of a session: one line per utterance, in order.
pub open spec fn transcript_text(us: Seq<RawUtterance>) -> Seq<char>
    decreases us.len(),
{
    if us.len() == 0 {
        Seq::empty()
    } else {
        transcript_text(us.drop_last()) + transcript_line(us.last())
    }
}

/// What to write into a session's `.txt` transcript.
pub fn build_transcript(raw: &Vec<RawUtterance>) -> (r: String)
    ensures
        r@ == transcript_text(raw@),
{
    let mut s = String::new();
    let mut i: usize = 0;
    while i < raw.len()
        invariant
            0 <= i <= raw@.len(),
            s@ == transcript_text(raw@.take(i as int)),
        decreases raw@.len() - i,
    {
        let u = &raw[i];
        push_char(&mut s, '[');
        push_str(&mut s, u.timestamp.as_str());
        push_char(&mut s, ']');
        push_char(&mut s, ' ');
        push_str(&mut s, u.text.as_str());
        push_char(&mut s, '\n');
        assert(raw@.take(i + 1).drop_last() =~= raw@.take(i as int));
        assert(raw@.take(i + 1).last() == raw@[i as int]);
        assert(s@ =~= transcript_text(raw@.take(i + 1)));
        i = i + 1;
    }
    assert(raw@.take(raw@.len() as int) =~= raw@);
    s
}

// ───────────────────────── assembling the report ─────────────────────────

/// The report entry for `raw` given the tutor's answer, or, when asking the
/// tutor failed, the utterance as said with nothing to correct.
pub open spec fn report_utterance(raw: RawUtterance, answer: Option<FeedbackResult>) -> Utterance {
    Utterance {
        timestamp: raw.timestamp,
        feedback: match answer {
            Some(f) => f,
            None => FeedbackResult {
                original: raw.text,
                corrected: None,
                better_expression: None,
                idiom_or_vocab: None,
                has_error: false,
            },
        },
    }
}

/// What a report entry keeps: the utterance's stamp, and the tutor's answer
/// exactly as given (correction, better phrasing, idiom and error flag
/// included); when there is no answer, the utterance as said, with nothing
/// to correct, rephrase or learn.
pub proof fn lemma_answers_kept(raw: RawUtterance, answer: Option<FeedbackResult>)
    ensures
        report_utterance(raw, answer).timestamp == raw.timestamp,
        answer matches Some(f) ==> {
            let g = report_utterance(raw, answer).feedback;
            &&& g.original == f.original
            &&& g.corrected == f.corrected
            &&& g.better_expression == f.better_expression
            &&& g.idiom_or_vocab == f.idiom_or_vocab
            &&& g.has_error == f.has_error
        },
        answer is None ==> {
            let g = report_utterance(raw, answer).feedback;
            &&& g.original == raw.text
            &&& g.corrected is None
            &&& g.better_expression is None
            &&& g.idiom_or_vocab is None
            &&& !g.has_error
        },
{
}

/// The utterances of a finished session: one per transcribed utterance, in
/// order, each with the answer obtained for it (`answers[i]` for `raw[i]`).
pub fn assemble_utterances(raw: &Vec<RawUtterance>, answers: &Vec<Option<FeedbackResult>>) -> (r:
    Vec<Utterance>)
    requires
        raw@.len() == answers@.len(),
    ensures
        r@.len() == raw@.len(),
        forall|i: int| 0 <= i < raw@.len() ==> r@[i] == report_utterance(raw@[i], answers@[i]),
        forall|i: int|
            0 <= i < raw@.len() && (answers@[i] matches Some(f) ==> f.original@ == raw@[i].text@)
                ==> #[trigger] r@[i].feedback.original@ == raw@[i].text@,
        forall|i: int| 0 <= i < raw@.len() ==> #[trigger] r@[i].timestamp == raw@[i].timestamp,
        forall|i: int|
            0 <= i < raw@.len() && answers@[i] is Some ==> #[trigger] r@[i].feedback
                == answers@[i]->0,
        forall|i: int|
            0 <= i < raw@.len() && answers@[i] is None ==> {
                let f = #[trigger] r@[i].feedback;
                &&& f.original == raw@[i].text
                &&& f.corrected is None
                &&& f.better_expression is None
                &&& f.idiom_or_vocab is None
                &&& !f.has_error
            },
{
    let mut out: Vec<Utterance> = Vec::new();
    let mut i: usize = 0;
    while i < raw.len()
        invariant
            raw@.len() == answers@.len(),
            0 <= i <= raw@.len(),
            out@.len() == i,
            forall|k: int| 0 <= k < i ==> out@[k] == report_utterance(raw@[k], answers@[k]),
        decreases raw@.len() - i,
    {
        let feedback = match &answers[i] {
            Some(f) => clone_feedback(f),
            None => FeedbackResult {
                original: raw[i].text.clone(),
                corrected: None,
                better_expression: None,
                idiom_or_vocab: None,
                has_error: false,
            },
        };
        out.push(Utterance { timestamp: raw[i].timestamp.clone(), feedback });
        i = i + 1;
    }
    out
}

// ───────────────────────── the markdown report ─────────────────────────

/// The number of utterances that needed correcting.
pub open spec fn error_count(us: Seq<Utterance>) -> nat
    decreases us.len(),
{
    if us.len() == 0 {
        0
    } else {
        error_count(us.drop_last()) + if us.last().feedback.has_error {
            1nat
        } else {
            0nat
        }
    }
}

/// The number of utterances that taught an idiom or word.
pub open spec fn vocab_count(us: Seq<Utterance>) -> nat
    decreases us.len(),
{
    if us.len() == 0 {
        0
    } else {
        vocab_count(us.drop_last()) + if us.last().feedback.idiom_or_vocab is Some {
            1nat
        } else {
            0nat
        }
    }
}

/// A count never exceeds the number of utterances.
pub proof fn lemma_counts_bounded(us: Seq<Utterance>)
    ensures
        error_count(us) <= us.len(),
        vocab_count(us) <= us.len(),
    decreases us.len(),
{
    if us.len() > 0 {
        lemma_counts_bounded(us.drop_last());
    }
}

/// The summary's counts count utterances: those whose feedback has an
/// error, and those that taught an idiom or word.
pub proof fn lemma_counts_count(us: Seq<Utterance>)
    ensures
        error_count(us) == us.filter(|u: Utterance| u.feedback.has_error).len(),
        vocab_count(us) == us.filter(|u: Utterance| u.feedback.idiom_or_vocab is Some).len(),
    decreases us.len(),
{
    reveal(Seq::filter);
    if us.len() > 0 {
        lemma_counts_count(us.drop_last());
    }
}

/// An optional text, or an em dash when absent.
pub open spec fn or_dash(o: Option<String>) -> Seq<char> {
    match o {
        Some(s) => s@,
        None => "—"@,
    }
}

/// A row of the corrections table: said | corrected | more natural.
pub open spec fn correction_row(u: Utterance) -> Seq<char> {
    "| "@ + u.feedback.original@ + " | "@ + or_dash(u.feedback.corrected) + " | "@ + or_dash(
        u.feedback.better_expression,
    ) + " |\n"@
}

/// The corrections table's rows, one per utterance with an error.
pub open spec fn correction_rows(us: Seq<Utterance>) -> Seq<char>
    decreases us.len(),
{
    if us.len() == 0 {
        Seq::empty()
    } else {
        correction_rows(us.drop_last()) + if us.last().feedback.has_error {
            correction_row(us.last())
        } else {
            Seq::empty()
        }
    }
}

/// The vocabulary list, one bullet per utterance with an idiom or word.
pub open spec fn vocab_lines(us: Seq<Utterance>) -> Seq<char>
    decreases us.len(),
{
    if us.len() == 0 {
        Seq::empty()
    } else {
        vocab_lines(us.drop_last()) + match us.last().feedback.idiom_or_vocab {
            Some(v) => "- **"@ + v@ + "**\n"@,
            None => Seq::empty(),
        }
    }
}

/// One entry of the full record: the stamped utterance, then its correction
/// and its more natural phrasing when there are any, then a blank line.
pub open spec fn record_entry(u: Utterance) -> Seq<char> {
    "**["@ + u.timestamp@ + "]** "@ + u.feedback.original@ + seq!['\n'] + match u.feedback.corrected {
        Some(c) => "→ 교정: _"@ + c@ + "_\n"@,
        None => Seq::empty(),
    } + match u.feedback.better_expression {
        Some(b) => "→ 더 자연스럽게: _"@ + b@ + "_\n"@,
        None => Seq::empty(),
    } + seq!['\n']
}

/// The full record, one entry per utterance.
pub open spec fn record_entries(us: Seq<Utterance>) -> Seq<char>
    decreases us.len(),
{
    if us.len() == 0 {
        Seq::empty()
    } else {
        record_entries(us.drop_last()) + record_entry(us.last())
    }
}

/// The summary: utterances, corrections needed, new expressions.
pub open spec fn summary_section(us: Seq<Utterance>) -> Seq<char> {
    "## 📊 요약\n\n"@ + "- 총 발화: **"@ + dec(us.len()) + "**문장\n"@ + "- 교정 필요: **"@ + dec(
        error_count(us),
    ) + "**문장\n"@ + "- 새로운 표현/어휘: **"@ + dec(vocab_count(us)) + "**개\n\n"@
}

/// The corrections section, present when some utterance had an error.
pub open spec fn corrections_section(us: Seq<Utterance>) -> Seq<char> {
    if error_count(us) > 0 {
        "## 🔴 교정 목록\n\n"@ + "| 내가 한 말 | 교정 | 더 자연스럽게 |\n"@
            + "|:----------|:-----|:--------------|\n"@ + correction_rows(us) + seq!['\n']
    } else {
        Seq::empty()
    }
}

/// The vocabulary section, present when some utterance taught something.
pub open spec fn vocab_section(us: Seq<Utterance>) -> Seq<char> {
    if vocab_count(us) > 0 {
        "## 📚 오늘 배운 표현\n\n"@ + vocab_lines(us) + seq!['\n']
    } else {
        Seq::empty()
    }
}

/// The full record section, present when there was any utterance.
pub open spec fn record_section(us: Seq<Utterance>) -> Seq<char> {
    if us.len() > 0 {
        "## 📝 전체 발화 기록\n\n"@ + record_entries(us)
    } else {
        Seq::empty()
    }
}

/// The markdown report of a session that started at `t`.
pub open spec fn report_markdown(us: Seq<Utterance>, t: SessionTime) -> Seq<char> {
    "# 🎙️ English Session — "@ + heading_date(t) + "\n\n"@ + summary_section(us) + corrections_section(
        us,
    ) + vocab_section(us) + record_section(us)
}

// ───────────────────────── what a report shows ─────────────────────────

/// Whether `needle` occurs in `hay` as a run of consecutive characters.
pub open spec fn contains_text(hay: Seq<char>, needle: Seq<char>) -> bool {
    exists|k: int|
        0 <= k && k + needle.len() <= hay.len() && #[trigger] hay.subrange(k, k + needle.len())
            == needle
}

proof fn lemma_contains_mid(x: Seq<char>, n: Seq<char>, y: Seq<char>)
    ensures
        contains_text(x + n + y, n),
{
    let h = x + n + y;
    assert(h.subrange(x.len() as int, (x.len() + n.len()) as int) =~= n);
}

proof fn lemma_contains_trans(h: Seq<char>, m: Seq<char>, n: Seq<char>)
    requires
        contains_text(h, m),
        contains_text(m, n),
    ensures
        contains_text(h, n),
{
    let k = choose|k: int| 0 <= k && k + m.len() <= h.len() && #[trigger] h.subrange(k, k + m.len()) == m;
    let j = choose|j: int| 0 <= j && j + n.len() <= m.len() && #[trigger] m.subrange(j, j + n.len()) == n;
    assert(h.subrange(k + j, k + j + n.len()) =~= m.subrange(j, j + n.len()));
}

proof fn lemma_record_has_entry(us: Seq<Utterance>, i: int)
    requires
        0 <= i < us.len(),
    ensures
        contains_text(record_entries(us), record_entry(us[i])),
    decreases us.len(),
{
    let pre = record_entries(us.drop_last());
    let last = record_entry(us.last());
    if i == us.len() - 1 {
        lemma_contains_mid(pre, last, Seq::empty());
        assert(pre + last + Seq::<char>::empty() =~= pre + last);
    } else {
        lemma_record_has_entry(us.drop_last(), i);
        lemma_contains_mid(Seq::empty(), pre, last);
        assert(Seq::<char>::empty() + pre + last =~= pre + last);
        lemma_contains_trans(record_entries(us), pre, record_entry(us[i]));
    }
}

proof fn lemma_vocab_has_line(us: Seq<Utterance>, i: int)
    requires
        0 <= i < us.len(),
        us[i].feedback.idiom_or_vocab is Some,
    ensures
        contains_text(vocab_lines(us), "- **"@ + us[i].feedback.idiom_or_vocab->0@ + "**\n"@),
        vocab_count(us) > 0,
    decreases us.len(),
{
    let pre = vocab_lines(us.drop_last());
    let line = "- **"@ + us[i].feedback.idiom_or_vocab->0@ + "**\n"@;
    if i == us.len() - 1 {
        lemma_contains_mid(pre, line, Seq::empty());
        assert(pre + line + Seq::<char>::empty() =~= pre + line);
    } else {
        lemma_vocab_has_line(us.drop_last(), i);
        let rest = vocab_lines(us) .skip(pre.len() as int);
        assert(vocab_lines(us) =~= Seq::<char>::empty() + pre + rest);
        lemma_contains_mid(Seq::empty(), pre, rest);
        lemma_contains_trans(vocab_lines(us), pre, line);
    }
}

proof fn lemma_corrections_have_row(us: Seq<Utterance>, i: int)
    requires
        0 <= i < us.len(),
        us[i].feedback.has_error,
    ensures
        contains_text(correction_rows(us), correction_row(us[i])),
        error_count(us) > 0,
    decreases us.len(),
{
    let pre = correction_rows(us.drop_last());
    let row = correction_row(us[i]);
    if i == us.len() - 1 {
        lemma_contains_mid(pre, row, Seq::empty());
        assert(pre + row + Seq::<char>::empty() =~= pre + row);
    } else {
        lemma_corrections_have_row(us.drop_last(), i);
        let rest = correction_rows(us).skip(pre.len() as int);
        assert(correction_rows(us) =~= Seq::<char>::empty() + pre + rest);
        lemma_contains_mid(Seq::empty(), pre, rest);
        lemma_contains_trans(correction_rows(us), pre, row);
    }
}

/// The stamped line of an entry of the full record.
pub open spec fn stamp_line(u: Utterance) -> Seq<char> {
    "**["@ + u.timestamp@ + "]** "@ + u.feedback.original@ + seq!['\n']
}

/// The sections of a report, in order.
proof fn lemma_report_sections(us: Seq<Utterance>, t: SessionTime)
    ensures
        contains_text(report_markdown(us, t), corrections_section(us)),
        contains_text(report_markdown(us, t), vocab_section(us)),
        contains_text(report_markdown(us, t), record_section(us)),
{
    let head = "# 🎙️ English Session — "@ + heading_date(t) + "\n\n"@ + summary_section(us);
    let corr = corrections_section(us);
    let voc = vocab_section(us);
    let rec = record_section(us);
    let rep = report_markdown(us, t);
    assert(rep == head + corr + voc + rec);
    lemma_contains_mid(head + corr + voc, rec, Seq::empty());
    assert(head + corr + voc + rec + Seq::<char>::empty() =~= rep);
    lemma_contains_mid(head + corr, voc, rec);
    lemma_contains_mid(head, corr, voc + rec);
    assert(head + corr + (voc + rec) =~= rep);
}

/// The lines of one entry of the full record.
proof fn lemma_entry_lines(u: Utterance)
    ensures
        contains_text(record_entry(u), stamp_line(u)),
        u.feedback.corrected matches Some(c) ==> contains_text(
            record_entry(u),
            "→ 교정: _"@ + c@ + "_\n"@,
        ),
        u.feedback.better_expression matches Some(b) ==> contains_text(
            record_entry(u),
            "→ 더 자연스럽게: _"@ + b@ + "_\n"@,
        ),
{
    let entry = record_entry(u);
    let stamp = stamp_line(u);
    let cl = match u.feedback.corrected {
        Some(c) => "→ 교정: _"@ + c@ + "_\n"@,
        None => Seq::empty(),
    };
    let bl = match u.feedback.better_expression {
        Some(b) => "→ 더 자연스럽게: _"@ + b@ + "_\n"@,
        None => Seq::empty(),
    };
    assert(entry == stamp + cl + bl + seq!['\n']);
    lemma_contains_mid(Seq::empty(), stamp, cl + bl + seq!['\n']);
    assert(Seq::<char>::empty() + stamp + (cl + bl + seq!['\n']) =~= entry);
    lemma_contains_mid(stamp, cl, bl + seq!['\n']);
    assert(stamp + cl + (bl + seq!['\n']) =~= entry);
    lemma_contains_mid(stamp + cl, bl, seq!['\n']);
}

/// The full record of a report holds the entry of every utterance.
proof fn lemma_report_has_entry(us: Seq<Utterance>, t: SessionTime, i: int)
    requires
        0 <= i < us.len(),
    ensures
        contains_text(report_markdown(us, t), record_entry(us[i])),
{
    let rep = report_markdown(us, t);
    let rec = record_section(us);
    let entries = record_entries(us);
    lemma_report_sections(us, t);
    lemma_contains_mid("## 📝 전체 발화 기록\n\n"@, entries, Seq::empty());
    assert("## 📝 전체 발화 기록\n\n"@ + entries + Seq::<char>::empty() =~= rec);
    lemma_contains_trans(rep, rec, entries);
    lemma_record_has_entry(us, i);
    lemma_contains_trans(rep, entries, record_entry(us[i]));
}

/// Every utterance shows in the report: its stamped line as said; its
/// correction and its more natural phrasing, each on a line of its own
/// whenever there is one, independently of each other; the idiom or word it
/// taught, in the vocabulary list; and, when it needed correcting, its row
/// of the corrections table.
pub proof fn lemma_report_shows_every_utterance(us: Seq<Utterance>, t: SessionTime, i: int)
    requires
        0 <= i < us.len(),
    ensures
        contains_text(
            report_markdown(us, t),
            "**["@ + us[i].timestamp@ + "]** "@ + us[i].feedback.original@ + seq!['\n'],
        ),
        us[i].feedback.corrected matches Some(c) ==> contains_text(
            report_markdown(us, t),
            "→ 교정: _"@ + c@ + "_\n"@,
        ),
        us[i].feedback.better_expression matches Some(b) ==> contains_text(
            report_markdown(us, t),
            "→ 더 자연스럽게: _"@ + b@ + "_\n"@,
        ),
        us[i].feedback.idiom_or_vocab matches Some(v) ==> contains_text(
            report_markdown(us, t),
            "- **"@ + v@ + "**\n"@,
        ),
        us[i].feedback.has_error ==> contains_text(
            report_markdown(us, t),
            "| "@ + us[i].feedback.original@ + " | "@ + or_dash(us[i].feedback.corrected) + " | "@
                + or_dash(us[i].feedback.better_expression) + " |\n"@,
        ),
{
    let u = us[i];
    let rep = report_markdown(us, t);
    let entry = record_entry(u);
    lemma_report_has_entry(us, t, i);
    lemma_entry_lines(u);
    lemma_contains_trans(rep, entry, stamp_line(u));
    if let Some(c) = u.feedback.corrected {
        lemma_contains_trans(rep, entry, "→ 교정: _"@ + c@ + "_\n"@);
    }
    if let Some(b) = u.feedback.better_expression {
        lemma_contains_trans(rep, entry, "→ 더 자연스럽게: _"@ + b@ + "_\n"@);
    }
    lemma_report_sections(us, t);
    if let Some(v) = u.feedback.idiom_or_vocab {
        lemma_vocab_has_line(us, i);
        let lines = vocab_lines(us);
        let voc = vocab_section(us);
        lemma_contains_mid("## 📚 오늘 배운 표현\n\n"@, lines, seq!['\n']);
        lemma_contains_trans(rep, voc, lines);
        lemma_contains_trans(rep, lines, "- **"@ + v@ + "**\n"@);
    }
    if u.feedback.has_error {
        lemma_corrections_have_row(us, i);
        let rows = correction_rows(us);
        let corr = corrections_section(us);
        let top = "## 🔴 교정 목록\n\n"@ + "| 내가 한 말 | 교정 | 더 자연스럽게 |\n"@
            + "|:----------|:-----|:--------------|\n"@;
        lemma_contains_mid(top, rows, seq!['\n']);
        lemma_contains_trans(rep, corr, rows);
        lemma_contains_trans(rep, rows, correction_row(u));
    }
}

/// Counts the utterances that needed correcting and those with vocabulary.
#[verifier::rlimit(40)]
fn count_report_items(us: &Vec<Utterance>) -> (r: (usize, usize))
    ensures
        r.0 == error_count(us@),
        r.1 == vocab_count(us@),
{
    let mut e: usize = 0;
    let mut v: usize = 0;
    let mut i: usize = 0;
    while i < us.len()
        invariant
            0 <= i <= us@.len(),
            e == error_count(us@.take(i as int)),
            v == vocab_count(us@.take(i as int)),
            e <= i,
            v <= i,
        decreases us@.len() - i,
    {
        assert(us@.take(i + 1).drop_last() =~= us@.take(i as int));
        assert(us@.take(i + 1).last() == us@[i as int]);
        if us[i].feedback.has_error {
            e = e + 1;
        }
        if us[i].feedback.idiom_or_vocab.is_some() {
            v = v + 1;
        }
        i = i + 1;
    }
    assert(us@.take(us@.len() as int) =~= us@);
    (e, v)
}

fn push_or_dash(md: &mut String, o: &Option<String>)
    ensures
        final(md)@ == old(md)@ + or_dash(*o),
{
    match o {
        Some(s) => push_str(md, s.as_str()),
        None => push_str(md, "—"),
    }
}

fn push_correction_rows(md: &mut String, us: &Vec<Utterance>)
    ensures
        final(md)@ == old(md)@ + correction_rows(us@),
{
    let ghost start = md@;
    let mut i: usize = 0;
    while i < us.len()
        invariant
            0 <= i <= us@.len(),
            md@ == start + correction_rows(us@.take(i as int)),
        decreases us@.len() - i,
    {
        let u = &us[i];
        assert(us@.take(i + 1).drop_last() =~= us@.take(i as int));
        assert(us@.take(i + 1).last() == us@[i as int]);
        if u.feedback.has_error {
            push_str(md, "| ");
            push_str(md, u.feedback.original.as_str());
            push_str(md, " | ");
            push_or_dash(md, &u.feedback.corrected);
            push_str(md, " | ");
            push_or_dash(md, &u.feedback.better_expression);
            push_str(md, " |\n");
        }
        assert(md@ =~= start + correction_rows(us@.take(i + 1)));
        i = i + 1;
    }
    assert(us@.take(us@.len() as int) =~= us@);
}

fn push_vocab_lines(md: &mut String, us: &Vec<Utterance>)
    ensures
        final(md)@ == old(md)@ + vocab_lines(us@),
{
    let ghost start = md@;
    let mut i: usize = 0;
    while i < us.len()
        invariant
            0 <= i <= us@.len(),
            md@ == start + vocab_lines(us@.take(i as int)),
        decreases us@.len() - i,
    {
        let u = &us[i];
        assert(us@.take(i + 1).drop_last() =~= us@.take(i as int));
        assert(us@.take(i + 1).last() == us@[i as int]);
        match &u.feedback.idiom_or_vocab {
            Some(item) => {
                push_str(md, "- **");
                push_str(md, item.as_str());
                push_str(md, "**\n");
            },
            None => {},
        }
        assert(md@ =~= start + vocab_lines(us@.take(i + 1)));
        i = i + 1;
    }
    assert(us@.take(us@.len() as int) =~= us@);
}

#[verifier::rlimit(40)]
fn push_record_entries(md: &mut String, us: &Vec<Utterance>)
    ensures
        final(md)@ == old(md)@ + record_entries(us@),
{
    let ghost start = md@;
    let mut i: usize = 0;
    while i < us.len()
        invariant
            0 <= i <= us@.len(),
            md@ == start + record_entries(us@.take(i as int)),
        decreases us@.len() - i,
    {
        let u = &us[i];
        assert(us@.take(i + 1).drop_last() =~= us@.take(i as int));
        assert(us@.take(i + 1).last() == us@[i as int]);
        push_str(md, "**[");
        push_str(md, u.timestamp.as_str());
        push_str(md, "]** ");
        push_str(md, u.feedback.original.as_str());
        push_char(md, '\n');
        match &u.feedback.corrected {
            Some(c) => {
                push_str(md, "→ 교정: _");
                push_str(md, c.as_str());
                push_str(md, "_\n");
            },
            None => {},
        }
        match &u.feedback.better_expression {
            Some(b) => {
                push_str(md, "→ 더 자연스럽게: _");
                push_str(md, b.as_str());
                push_str(md, "_\n");
            },
            None => {},
        }
        push_char(md, '\n');
        assert(md@ =~= start + record_entries(us@.take(i + 1)));
        i = i + 1;
    }
    assert(us@.take(us@.len() as int) =~= us@);
}

fn push_summary(md: &mut String, us: &Vec<Utterance>, errors: usize, vocab: usize)
    requires
        errors == error_count(us@),
        vocab == vocab_count(us@),
    ensures
        final(md)@ == old(md)@ + summary_section(us@),
{
    let ghost start = md@;
    push_str(md, "## 📊 요약\n\n");
    push_str(md, "- 총 발화: **");
    push_dec(md, us.len() as u64);
    push_str(md, "**문장\n");
    push_str(md, "- 교정 필요: **");
    push_dec(md, errors as u64);
    push_str(md, "**문장\n");
    push_str(md, "- 새로운 표현/어휘: **");
    push_dec(md, vocab as u64);
    push_str(md, "**개\n\n");
    assert(md@ =~= start + summary_section(us@));
}

fn push_corrections_section(md: &mut String, us: &Vec<Utterance>, errors: usize)
    requires
        errors == error_count(us@),
    ensures
        final(md)@ == old(md)@ + corrections_section(us@),
{
    let ghost start = md@;
    if errors > 0 {
        push_str(md, "## 🔴 교정 목록\n\n");
        push_str(md, "| 내가 한 말 | 교정 | 더 자연스럽게 |\n");
        push_str(md, "|:----------|:-----|:--------------|\n");
        push_correction_rows(md, us);
        push_char(md, '\n');
    }
    assert(md@ =~= start + corrections_section(us@));
}

fn push_vocab_section(md: &mut String, us: &Vec<Utterance>, vocab: usize)
    requires
        vocab == vocab_count(us@),
    ensures
        final(md)@ == old(md)@ + vocab_section(us@),
{
    let ghost start = md@;
    if vocab > 0 {
        push_str(md, "## 📚 오늘 배운 표현\n\n");
        push_vocab_lines(md, us);
        push_char(md, '\n');
    }
    assert(md@ =~= start + vocab_section(us@));
}

fn push_record_section(md: &mut String, us: &Vec<Utterance>)
    ensures
        final(md)@ == old(md)@ + record_section(us@),
{
    let ghost start = md@;
    if us.len() > 0 {
        push_str(md, "## 📝 전체 발화 기록\n\n");
        push_record_entries(md, us);
    }
    assert(md@ =~= start + record_section(us@));
}

/// The markdown report of a session that started at `start_time`: a
/// heading with the date, a summary with the number of utterances,
/// corrections and new expressions, the corrections table and the
/// vocabulary list when they are not empty, and the full record.
pub fn build_markdown(utterances: &Vec<Utterance>, start_time: &SessionTime) -> (r: String)
    requires
        start_time.wf(),
    ensures
        r@ == report_markdown(utterances@, *start_time),
{
    let (errors, vocab) = count_report_items(utterances);
    let mut md = String::new();
    push_str(&mut md, "# 🎙️ English Session — ");
    push_heading_date(&mut md, start_time);
    push_str(&mut md, "\n\n");
    let ghost head = md@;
    push_summary(&mut md, utterances, errors, vocab);
    let ghost a = md@;
    push_corrections_section(&mut md, utterances, errors);
    let ghost b = md@;
    push_vocab_section(&mut md, utterances, vocab);
    let ghost c = md@;
    push_record_section(&mut md, utterances);
    proof {
        let us = utterances@;
        assert(head =~= "# 🎙️ English Session — "@ + heading_date(*start_time) + "\n\n"@);
        assert(md@ == head + summary_section(us) + corrections_section(us) + vocab_section(us)
            + record_section(us));
    }
    md
}

// ───────────────────────── statistics ─────────────────────────

/// The number of utterances over all sessions.
pub open spec fn total_utterances(sessions: Seq<Vec<Utterance>>) -> nat
    decreases sessions.len(),
{
    if sessions.len() == 0 {
        0
    } else {
        total_utterances(sessions.drop_last()) + sessions.last()@.len()
    }
}

/// The number of utterances that needed correcting, over all sessions.
pub open spec fn total_corrections(sessions: Seq<Vec<Utterance>>) -> nat
    decreases sessions.len(),
{
    if sessions.len() == 0 {
        0
    } else {
        total_corrections(sessions.drop_last()) + error_count(sessions.last()@)
    }
}

/// Statistics add up session by session: the totals over two runs of
/// sessions are the sums of their totals, and one session contributes its
/// number of utterances and its number of utterances that needed
/// correcting (each one counted, however many a session has).
pub proof fn lemma_stats_add_up(a: Seq<Vec<Utterance>>, b: Seq<Vec<Utterance>>, v: Vec<Utterance>)
    ensures
        total_utterances(a + b) == total_utterances(a) + total_utterances(b),
        total_corrections(a + b) == total_corrections(a) + total_corrections(b),
        total_utterances(seq![v]) == v@.len(),
        total_corrections(seq![v]) == v@.filter(|u: Utterance| u.feedback.has_error).len(),
{
    lemma_totals_concat(a, b);
    let one = seq![v];
    assert(one.drop_last() =~= Seq::<Vec<Utterance>>::empty());
    assert(one.last() == v);
    assert(total_utterances(one.drop_last()) == 0);
    assert(total_corrections(one.drop_last()) == 0);
    lemma_counts_count(v@);
}

proof fn lemma_totals_concat(a: Seq<Vec<Utterance>>, b: Seq<Vec<Utterance>>)
    ensures
        total_utterances(a + b) == total_utterances(a) + total_utterances(b),
        total_corrections(a + b) == total_corrections(a) + total_corrections(b),
    decreases b.len(),
{
    if b.len() == 0 {
        assert(a + b =~= a);
    } else {
        lemma_totals_concat(a, b.drop_last());
        assert((a + b).drop_last() =~= a + b.drop_last());
        assert((a + b).last() == b.last());
    }
}

/// Corrections never outnumber utterances.
pub proof fn lemma_corrections_bounded(sessions: Seq<Vec<Utterance>>)
    ensures
        total_corrections(sessions) <= total_utterances(sessions),
    decreases sessions.len(),
{
    if sessions.len() > 0 {
        lemma_corrections_bounded(sessions.drop_last());
        lemma_counts_bounded(sessions.last()@);
    }
}

/// Totals over the saved sessions, given each session's utterances
/// (`sessions[i]` being the utterances of the `i`-th saved session).
pub fn get_stats(sessions: &Vec<Vec<Utterance>>) -> (r: Stats)
    requires
        total_utterances(sessions@) <= usize::MAX,
    ensures
        r.total_sessions == sessions@.len(),
        r.total_utterances == total_utterances(sessions@),
        r.total_corrections == total_corrections(sessions@),
{
    let mut utts: usize = 0;
    let mut corrections: usize = 0;
    let mut i: usize = 0;
    while i < sessions.len()
        invariant
            0 <= i <= sessions@.len(),
            total_utterances(sessions@) <= usize::MAX,
            utts == total_utterances(sessions@.take(i as int)),
            corrections == total_corrections(sessions@.take(i as int)),
        decreases sessions@.len() - i,
    {
        let ghost prefix = sessions@.take(i + 1);
        assert(prefix.drop_last() =~= sessions@.take(i as int));
        assert(prefix.last() == sessions@[i as int]);
        proof {
            lemma_total_prefix(sessions@, i + 1);
            lemma_corrections_bounded(prefix);
        }
        let (e, _v) = count_report_items(&sessions[i]);
        utts = utts + sessions[i].len();
        corrections = corrections + e;
        i = i + 1;
    }
    assert(sessions@.take(sessions@.len() as int) =~= sessions@);
    Stats { total_sessions: sessions.len(), total_utterances: utts, total_corrections: corrections }
}

/// A prefix of the sessions holds no more utterances than all of them.
proof fn lemma_total_prefix(sessions: Seq<Vec<Utterance>>, k: int)
    requires
        0 <= k <= sessions.len(),
    ensures
        total_utterances(sessions.take(k)) <= total_utterances(sessions),
    decreases sessions.len() - k,
{
    if k < sessions.len() {
        assert(sessions.drop_last().take(k) =~= sessions.take(k));
        lemma_total_prefix(sessions.drop_last(), k);
    } else {
        assert(sessions.take(k) =~= sessions);
    }
}

// ───────────────────────── listing saved sessions ─────────────────────────

/// An entry of the sessions directory, with the sidecars of a report read.
#[derive(Debug, Clone)]
pub struct ReportEntry {
    /// The entry's path.
    pub path: String,
    /// The entry's file name; `None` when it is not valid UTF-8.
    pub file_name: Option<String>,
    /// The contents of the report's `.title` sidecar, if it could be read.
    pub title_sidecar: Option<String>,
    /// The contents of the report's `.source` sidecar, if it could be read.
    pub source_sidecar: Option<String>,
}

/// Whether an entry is a session report: a `*.md` file with a UTF-8 name.
pub open spec fn is_report_entry(e: ReportEntry) -> bool {
    e.file_name matches Some(f) && is_markdown_name(f@)
}

/// Whether `info` is the list entry of the report `e`.
pub open spec fn describes(info: SessionInfo, e: ReportEntry) -> bool {
    &&& e.file_name matches Some(f)
    &&& info.filename@ == e.file_name->0@
    &&& info.title@ == shown_title(custom_title(opt_string(e.title_sidecar)), info.filename@)
    &&& info.path@ == e.path@
    &&& info.source@ == source_of(opt_string(e.source_sidecar))
}

/// Newest first: file names (which start with the save time) in
/// non-increasing order.
pub open spec fn newest_first(infos: Seq<SessionInfo>) -> bool {
    forall|i: int, j: int|
        0 <= i < j < infos.len() ==> lex_le(#[trigger] infos[j].filename@, #[trigger] infos[i].filename@)
}

/// The reports among the entries, in directory order.
pub open spec fn reports(entries: Seq<ReportEntry>) -> Seq<ReportEntry> {
    entries.filter(|e: ReportEntry| is_report_entry(e))
}

/// `infos` describes the reports among `entries`, one for one, in order.
pub open spec fn describes_reports(infos: Seq<SessionInfo>, entries: Seq<ReportEntry>) -> bool {
    &&& infos.len() == reports(entries).len()
    &&& forall|i: int| 0 <= i < infos.len() ==> describes(#[trigger] infos[i], reports(entries)[i])
}

fn as_opt_str(o: &Option<String>) -> (r: Option<&str>)
    ensures
        opt_str(r) == opt_string(*o),
{
    match o {
        Some(s) => Some(s.as_str()),
        None => None,
    }
}

/// The list entries of the reports among `entries`, in directory order.
fn describe_reports(entries: &Vec<ReportEntry>) -> (r: Vec<SessionInfo>)
    ensures
        describes_reports(r@, entries@),
{
    let mut out: Vec<SessionInfo> = Vec::new();
    let mut i: usize = 0;
    while i < entries.len()
        invariant
            0 <= i <= entries@.len(),
            describes_reports(out@, entries@.take(i as int)),
        decreases entries@.len() - i,
    {
        let e = &entries[i];
        let ghost pre = entries@.take(i as int);
        assert(entries@.take(i + 1) =~= pre.push(*e));
        proof {
            pre.lemma_filter_push(*e, |e: ReportEntry| is_report_entry(e));
        }
        match &e.file_name {
            Some(name) => {
                if is_markdown_file(name.as_str()) {
                    let title = match read_custom_title(as_opt_str(&e.title_sidecar)) {
                        Some(t) => t,
                        None => format_session_title(name.as_str()),
                    };
                    let info = SessionInfo {
                        filename: name.clone(),
                        title,
                        path: e.path.clone(),
                        source: read_source_sidecar(as_opt_str(&e.source_sidecar)),
                    };
                    out.push(info);
                    assert(reports(entries@.take(i + 1)) == reports(pre).push(*e));
                    assert(describes(out@[out@.len() - 1], reports(entries@.take(i + 1))[out@.len()
                        - 1]));
                }
            },
            None => {},
        }
        assert(describes_reports(out@, entries@.take(i + 1)));
        i = i + 1;
    }
    assert(entries@.take(entries@.len() as int) =~= entries@);
    out
}

/// Inserting `x` before the first element not above it keeps a list
/// newest first.
proof fn lemma_insert_newest_first(s: Seq<SessionInfo>, p: int, x: SessionInfo)
    requires
        newest_first(s),
        0 <= p <= s.len(),
        forall|k: int| 0 <= k < p ==> !lex_le(#[trigger] s[k].filename@, x.filename@),
        p < s.len() ==> lex_le(s[p].filename@, x.filename@),
    ensures
        newest_first(s.insert(p, x)),
{
    let t = s.insert(p, x);
    assert forall|i: int, j: int| 0 <= i < j < t.len() implies lex_le(
        #[trigger] t[j].filename@,
        #[trigger] t[i].filename@,
    ) by {
        if j < p {
            assert(t[i] == s[i] && t[j] == s[j]);
        } else if j == p {
            assert(t[i] == s[i] && t[j] == x);
            lemma_lex_total(s[i].filename@, x.filename@);
        } else if i < p {
            assert(t[i] == s[i] && t[j] == s[j - 1]);
        } else if i == p {
            assert(t[i] == x && t[j] == s[j - 1]);
            if j - 1 == p {
                lemma_lex_refl(s[p].filename@);
            }
            lemma_lex_trans(s[j - 1].filename@, s[p].filename@, x.filename@);
        } else {
            assert(t[i] == s[i - 1] && t[j] == s[j - 1]);
        }
    }
}

/// An empty sequence has the empty multiset.
proof fn lemma_empty_multiset(s: Seq<SessionInfo>)
    requires
        s.len() == 0,
    ensures
        s.to_multiset() =~= vstd::multiset::Multiset::<SessionInfo>::empty(),
{
    vstd::seq_lib::to_multiset_len(s);
    vstd::multiset::lemma_multiset_empty_len(s.to_multiset());
}

/// Moving the last element of `rest` to `out` keeps their multiset union.
proof fn lemma_move_element(
    out: Seq<SessionInfo>,
    rest: Seq<SessionInfo>,
    p: int,
    x: SessionInfo,
)
    requires
        0 <= p <= out.len(),
    ensures
        out.insert(p, x).to_multiset().add(rest.to_multiset()) =~= out.to_multiset().add(
            rest.push(x).to_multiset(),
        ),
{
    broadcast use vstd::multiset::group_multiset_axioms;

    vstd::seq_lib::to_multiset_insert(out, p, x);
    vstd::seq_lib::to_multiset_build(rest, x);
}

/// Sorts session entries newest first (stable for equal file names).
fn sort_newest_first(infos: Vec<SessionInfo>) -> (r: Vec<SessionInfo>)
    ensures
        newest_first(r@),
        r@.to_multiset() == infos@.to_multiset(),
{
    let mut rest = infos;
    let mut out: Vec<SessionInfo> = Vec::new();
    let ghost all = rest@.to_multiset();
    proof {
        lemma_empty_multiset(out@);
        assert(out@.to_multiset().add(rest@.to_multiset()) =~= all) by {
            broadcast use vstd::multiset::group_multiset_axioms;
        }
    }
    while rest.len() > 0
        invariant
            newest_first(out@),
            out@.to_multiset().add(rest@.to_multiset()) == all,
        decreases rest@.len(),
    {
        let ghost before = rest@;
        let x = rest.pop().unwrap();
        assert(before =~= rest@.push(x));
        let mut p: usize = 0;
        while p < out.len() && !str_le(out[p].filename.as_str(), x.filename.as_str())
            invariant
                0 <= p <= out@.len(),
                forall|k: int| 0 <= k < p ==> !lex_le(#[trigger] out@[k].filename@, x.filename@),
            decreases out@.len() - p,
        {
            p = p + 1;
        }
        let ghost old_out = out@;
        proof {
            lemma_insert_newest_first(old_out, p as int, x);
            lemma_move_element(old_out, rest@, p as int, x);
        }
        out.insert(p, x);
    }
    proof {
        lemma_empty_multiset(rest@);
        assert(out@.to_multiset() =~= all) by {
            broadcast use vstd::multiset::group_multiset_axioms;
        }
    }
    out
}

/// The saved sessions among the entries of the sessions directory, newest
/// first: one entry for each `*.md` file with a UTF-8 name, titled by its
/// `.title` sidecar or else by its file name, with the source its
/// `.source` sidecar records.
///
/// When the reports' names are pairwise distinct, as they are in one
/// directory, the list is strictly newest first.
pub fn list_sessions(entries: &Vec<ReportEntry>) -> (r: Vec<SessionInfo>)
    ensures
        newest_first(r@),
        exists|m: Seq<SessionInfo>|
            describes_reports(m, entries@) && r@.to_multiset() == #[trigger] m.to_multiset(),
        distinct_report_names(entries@) ==> strictly_newest_first(r@),
{
    let infos = describe_reports(entries);
    let ghost m = infos@;
    let r = sort_newest_first(infos);
    assert(describes_reports(m, entries@) && r@.to_multiset() == m.to_multiset());
    proof {
        if distinct_report_names(entries@) {
            lemma_distinct_names_kept(m, r@, entries@);
        }
    }
    r
}

/// Looking a session up gives what listing it gives: the list entry of a
/// report whose recorded file name is the file name of its path is the
/// entry `get_session_info` makes from that path and the same sidecars.
pub proof fn lemma_listing_matches_lookup(info: SessionInfo, e: ReportEntry)
    requires
        describes(info, e),
        file_name(e.path@) == opt_string(e.file_name),
    ensures
        is_info_of(info, e.path@, opt_string(e.title_sidecar), opt_string(e.source_sidecar)),
{
}

/// Whether the reports among `entries` have pairwise distinct names.
pub open spec fn distinct_report_names(entries: Seq<ReportEntry>) -> bool {
    forall|a: int, b: int|
        0 <= a < reports(entries).len() && 0 <= b < reports(entries).len() && a != b
            ==> #[trigger] reports(entries)[a].file_name->0@ != #[trigger] reports(
            entries,
        )[b].file_name->0@
}

/// Strictly newest first: file names in decreasing order.
pub open spec fn strictly_newest_first(infos: Seq<SessionInfo>) -> bool {
    forall|i: int, j: int|
        0 <= i < j < infos.len() ==> lex_le(#[trigger] infos[j].filename@, #[trigger] infos[i].filename@)
            && infos[j].filename@ != infos[i].filename@
}

/// A reordering of the descriptions of reports with distinct names, newest
/// first, is strictly newest first.
proof fn lemma_distinct_names_kept(m: Seq<SessionInfo>, r: Seq<SessionInfo>, entries: Seq<ReportEntry>)
    requires
        describes_reports(m, entries),
        distinct_report_names(entries),
        r.to_multiset() == m.to_multiset(),
        newest_first(r),
    ensures
        strictly_newest_first(r),
{
    broadcast use vstd::seq_lib::group_to_multiset_ensures;

    let rs = reports(entries);
    assert forall|a: int, b: int| 0 <= a < m.len() && 0 <= b < m.len() && a != b implies #[trigger] m[a].filename@
        != #[trigger] m[b].filename@ by {
        assert(describes(m[a], rs[a]));
        assert(describes(m[b], rs[b]));
        assert(rs[a].file_name->0@ != rs[b].file_name->0@);
    }
    assert(m.no_duplicates()) by {
        assert forall|a: int, b: int| 0 <= a < m.len() && 0 <= b < m.len() && a != b implies m[a] != m[b] by {
            assert(m[a].filename@ != m[b].filename@);
        }
    }
    m.lemma_multiset_has_no_duplicates();
    r.lemma_multiset_has_no_duplicates_conv();
    assert forall|i: int, j: int| 0 <= i < j < r.len() implies lex_le(#[trigger] r[j].filename@, #[trigger] r[i].filename@)
        && r[j].filename@ != r[i].filename@ by {
        assert(r.contains(r[i]));
        assert(r.contains(r[j]));
        vstd::seq_lib::to_multiset_contains(r, r[i]);
        vstd::seq_lib::to_multiset_contains(r, r[j]);
        vstd::seq_lib::to_multiset_contains(m, r[i]);
        vstd::seq_lib::to_multiset_contains(m, r[j]);
        let a = choose|a: int| 0 <= a < m.len() && m[a] == r[i];
        let b = choose|b: int| 0 <= b < m.len() && m[b] == r[j];
        assert(r[i] != r[j]);
        assert(a != b);
        assert(m[a].filename@ != m[b].filename@);
    }
}

} // verus!
