//! The local LLM runtime: whether the tutor model is already downloaded,
//! and the line framing of the runtime's streamed download progress.
use vstd::prelude::*;
use crate::text::{chars_of, nonblank, split, split_chars, string_of_range, trim_bounds, views};

verus! {

/// The model the tutor runs on.
pub const OLLAMA_MODEL: &'static str = "llama3.1:8b";

/// The model's name without its tag: the text before the first `:`.
pub open spec fn model_base(model: Seq<char>) -> Seq<char> {
    split(model, ':')[0]
}

/// Whether `name` begins with `prefix`.
pub open spec fn starts_with(name: Seq<char>, prefix: Seq<char>) -> bool {
    prefix.len() <= name.len() && name.take(prefix.len() as int) == prefix
}

fn vec_starts_with(name: &Vec<char>, prefix: &Vec<char>) -> (r: bool)
    ensures
        r == starts_with(name@, prefix@),
{
    if prefix.len() > name.len() {
        return false;
    }
    let mut i: usize = 0;
    while i < prefix.len()
        invariant
            prefix@.len() <= name@.len(),
            0 <= i <= prefix@.len(),
            forall|k: int| 0 <= k < i ==> name@[k] == prefix@[k],
        decreases prefix@.len() - i,
    {
        if name[i] != prefix[i] {
            assert(name@.take(prefix@.len() as int)[i as int] != prefix@[i as int]);
            return false;
        }
        i = i + 1;
    }
    assert(name@.take(prefix@.len() as int) =~= prefix@);
    true
}

/// Whether the runtime already has `model`, given the names of the models
/// it lists: tags may differ (`llama3.1:latest` for `llama3.1:8b`), so a
/// listed name counts when it begins with the model's name before the `:`.
pub fn is_model_listed(model: &str, names: &Vec<String>) -> (r: bool)
    ensures
        r == exists|i: int| 0 <= i < names@.len() && starts_with(names@[i]@, model_base(model@)),
{
    let mv = chars_of(model);
    let pieces = split_chars(&mv, ':');
    proof {
        crate::text::lemma_split_nonempty(model@, ':');
    }
    assert(views(pieces@)[0] == pieces@[0]@);
    let base = &pieces[0];
    let mut i: usize = 0;
    while i < names.len()
        invariant
            0 <= i <= names@.len(),
            base@ == model_base(model@),
            forall|k: int| 0 <= k < i ==> !starts_with(names@[k]@, model_base(model@)),
        decreases names@.len() - i,
    {
        let nv = chars_of(names[i].as_str());
        if vec_starts_with(&nv, base) {
            return true;
        }
        i = i + 1;
    }
    false
}

/// How long, in seconds, the runtime's server is given to come up.
pub const SERVER_START_TIMEOUT_SECS: u64 = 15;

/// The pause, in milliseconds, between two checks whether the server is up.
pub const SERVER_POLL_INTERVAL_MS: u64 = 500;

/// How many times the server is checked before a start that may take
/// `timeout_secs` seconds is given up: twice a second.
pub fn server_poll_attempts(timeout_secs: u64) -> (r: u64)
    requires
        timeout_secs <= u64::MAX / 2,
    ensures
        r == 2 * timeout_secs,
{
    timeout_secs * 2
}

/// The trimmed, non-blank lines among `pieces`.
pub open spec fn nonblank_lines(pieces: Seq<Seq<char>>) -> Seq<Seq<char>>
    decreases pieces.len(),
{
    if pieces.len() == 0 {
        Seq::empty()
    } else {
        let r = nonblank_lines(pieces.drop_last());
        match nonblank(pieces.last()) {
            Some(t) => r.push(t),
            None => r,
        }
    }
}

/// The complete lines of a newline-delimited JSON stream received so far,
/// trimmed, without blank ones, and the incomplete rest after the last
/// `\n`.
pub open spec fn ndjson_split(buf: Seq<char>) -> (Seq<Seq<char>>, Seq<char>) {
    let pieces = split(buf, '\n');
    (nonblank_lines(pieces.drop_last()), pieces.last())
}

/// Takes the complete lines out of the text received so far: returns them
/// (trimmed, blank ones left out) and the text after the last `\n`, which
/// holds no `\n` and waits for more data.
pub fn take_ndjson_lines(buf: &str) -> (r: (Vec<String>, String))
    ensures
        r.0@.map_values(|s: String| s@) == ndjson_split(buf@).0,
        r.1@ == ndjson_split(buf@).1,
        !r.1@.contains('\n'),
{
    let v = chars_of(buf);
    let pieces = split_chars(&v, '\n');
    let ghost ps = split(buf@, '\n');
    proof {
        crate::text::lemma_split_nonempty(buf@, '\n');
    }
    let n = pieces.len();
    let mut out: Vec<String> = Vec::new();
    let mut i: usize = 0;
    while i + 1 < n
        invariant
            n == pieces@.len(),
            views(pieces@) == ps,
            n >= 1,
            0 <= i < n,
            out@.map_values(|s: String| s@) == nonblank_lines(ps.take(i as int)),
        decreases n - i,
    {
        let p = &pieces[i];
        assert(views(pieces@)[i as int] == p@);
        let (lo, hi) = trim_bounds(p);
        let ghost pre = ps.take(i as int);
        assert(ps.take(i + 1).drop_last() =~= pre);
        assert(ps.take(i + 1).last() == p@);
        if lo < hi {
            let line = string_of_range(p, lo, hi);
            out.push(line);
            assert(out@.map_values(|s: String| s@) =~= nonblank_lines(pre).push(line@));
        }
        i = i + 1;
    }
    assert(ps.take(i as int) =~= ps.drop_last());
    assert(views(pieces@)[i as int] == pieces@[i as int]@);
    let last = &pieces[i];
    let rest = string_of_range(last, 0, last.len());
    assert(last@.subrange(0, last@.len() as int) =~= last@);
    proof {
        crate::text::lemma_split_pieces_have_no_sep(buf@, '\n');
    }
    (out, rest)
}

/// The lines among two runs of pieces are those of the first, then those
/// of the second.
proof fn lemma_nonblank_lines_concat(a: Seq<Seq<char>>, b: Seq<Seq<char>>)
    ensures
        nonblank_lines(a + b) == nonblank_lines(a) + nonblank_lines(b),
    decreases b.len(),
{
    if b.len() == 0 {
        assert(a + b =~= a);
        assert(nonblank_lines(a) + nonblank_lines(b) =~= nonblank_lines(a));
    } else {
        lemma_nonblank_lines_concat(a, b.drop_last());
        assert((a + b).drop_last() =~= a + b.drop_last());
        assert((a + b).last() == b.last());
        match nonblank(b.last()) {
            Some(t) => {
                assert((nonblank_lines(a) + nonblank_lines(b.drop_last())).push(t) =~= nonblank_lines(a)
                    + nonblank_lines(b.drop_last()).push(t));
            },
            None => {},
        }
    }
}

/// Reading the stream in chunks loses and invents nothing: taking the lines
/// out of `x`, then out of what was left of `x` followed by the next chunk
/// `y`, gives the same lines, in the same order, and leaves the same rest as
/// taking them out of `x + y` at once.
pub proof fn lemma_ndjson_chunks(x: Seq<char>, y: Seq<char>)
    ensures
        ndjson_split(x + y).0 == ndjson_split(x).0 + ndjson_split(ndjson_split(x).1 + y).0,
        ndjson_split(x + y).1 == ndjson_split(ndjson_split(x).1 + y).1,
{
    let p = split(x, '\n');
    let q = split(p.last() + y, '\n');
    crate::text::lemma_split_append(x, y, '\n');
    crate::text::lemma_split_nonempty(p.last() + y, '\n');
    let whole = p.drop_last() + q;
    assert(split(x + y, '\n') == whole);
    assert(whole.drop_last() =~= p.drop_last() + q.drop_last());
    assert(whole.last() == q.last());
    lemma_nonblank_lines_concat(p.drop_last(), q.drop_last());
}

} // verus!
