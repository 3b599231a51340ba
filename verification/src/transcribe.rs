//! The speech model's location, what to tell the user when it is missing,
//! and how recognised segments become text.
use vstd::prelude::*;
use crate::paths::{get_home_model_path, home_model_path, push_bytes};
use crate::text::{chars_of, push_char, push_str, trim, trim_bounds, string_of_range};

verus! {

/// Where the speech model is read from: the copy bundled with the app when
/// the caller found one (`bundled`), otherwise the downloaded copy under
/// the home directory.
pub fn get_model_path(bundled: Option<&[u8]>) -> (r: Vec<u8>)
    ensures
        bundled matches Some(b) ==> r@ == b@,
        bundled is None ==> exists|h: Option<Seq<u8>>| r@ == home_model_path(h),
{
    match bundled {
        Some(b) => {
            let mut out: Vec<u8> = Vec::new();
            push_bytes(&mut out, b);
            assert(out@ =~= b@);
            out
        },
        None => get_home_model_path(),
    }
}

/// The `Debug` rendering of a path: quoted, with special characters escaped.
pub uninterp spec fn path_debug(p: Seq<char>) -> Seq<char>;

/// `format!("{:?}", Path::new(p))`: `Debug` for `std::path::Path`.
///
/// Claims only that the text depends on the path alone; the quoting and
/// escaping rules are std's.
#[verifier::external_body]
fn debug_path(p: &str) -> (r: String)
    ensures
        r@ == path_debug(p@),
{
    format!("{:?}", std::path::Path::new(p))
}

/// The instructions shown when the speech model is missing.
pub open spec fn download_instructions(model_path: Seq<char>) -> Seq<char> {
    "Whisper 모델이 없습니다.\n\n다음 명령어로 다운로드하세요:\n\nmkdir -p ~/.wtf-english/models\ncurl -L https://huggingface.co/ggerganov/whisper.cpp/resolve/main/ggml-medium.en.bin \\\n  -o "@
        + path_debug(model_path) + "\n\n파일 크기: 약 1.5GB"@
}

/// How to download the speech model by hand into `model_path`, for when
/// the automatic download did not happen.
pub fn model_download_instructions(model_path: &str) -> (r: String)
    ensures
        r@ == download_instructions(model_path@),
{
    let mut s = String::new();
    push_str(
        &mut s,
        "Whisper 모델이 없습니다.\n\n다음 명령어로 다운로드하세요:\n\nmkdir -p ~/.wtf-english/models\ncurl -L https://huggingface.co/ggerganov/whisper.cpp/resolve/main/ggml-medium.en.bin \\\n  -o ",
    );
    let p = debug_path(model_path);
    push_str(&mut s, p.as_str());
    push_str(&mut s, "\n\n파일 크기: 약 1.5GB");
    s
}

/// The texts of the segments that could be read, in order.
pub open spec fn present(texts: Seq<Option<String>>) -> Seq<Seq<char>>
    decreases texts.len(),
{
    if texts.len() == 0 {
        Seq::empty()
    } else {
        let p = present(texts.drop_last());
        match texts.last() {
            Some(t) => p.push(t@),
            None => p,
        }
    }
}

/// `[..].join(" ")`: the words with one space between neighbours.
pub open spec fn join_spaced(ws: Seq<Seq<char>>) -> Seq<char>
    decreases ws.len(),
{
    if ws.len() == 0 {
        Seq::empty()
    } else if ws.len() == 1 {
        ws[0]
    } else {
        join_spaced(ws.drop_last()) + seq![' '] + ws.last()
    }
}

/// The text of an utterance: the segments that could be read, joined with
/// spaces, trimmed.  (`None` stands for a segment whose text could not be
/// read.)
pub fn text_from_segments(texts: &Vec<Option<String>>) -> (r: String)
    ensures
        r@ == trim(join_spaced(present(texts@))),
{
    let mut joined = String::new();
    let mut any = false;
    let mut i: usize = 0;
    while i < texts.len()
        invariant
            0 <= i <= texts@.len(),
            joined@ == join_spaced(present(texts@.take(i as int))),
            any == (present(texts@.take(i as int)).len() > 0),
        decreases texts@.len() - i,
    {
        let ghost pre = texts@.take(i as int);
        assert(texts@.take(i + 1).drop_last() =~= pre);
        assert(texts@.take(i + 1).last() == texts@[i as int]);
        match &texts[i] {
            Some(t) => {
                if any {
                    push_char(&mut joined, ' ');
                } else {
                    assert(joined@ =~= Seq::<char>::empty());
                }
                push_str(&mut joined, t.as_str());
                any = true;
                let ghost ws = present(pre).push(t@);
                assert(present(texts@.take(i + 1)) == ws);
                assert(ws.drop_last() =~= present(pre));
                assert(ws.last() == t@);
                proof {
                    if present(pre).len() == 0 {
                        assert(ws[0] == t@);
                    }
                }
                assert(joined@ =~= join_spaced(present(texts@.take(i + 1))));
            },
            None => {},
        }
        i = i + 1;
    }
    assert(texts@.take(texts@.len() as int) =~= texts@);
    let v = chars_of(joined.as_str());
    let (lo, hi) = trim_bounds(&v);
    string_of_range(&v, lo, hi)
}

} // verus!
