//! Path arithmetic on `/`-separated paths, with the meaning `std::path`
//! gives it on Unix: joining a component onto a path held as bytes (as the
//! OS holds it), the final file name and a file name's extension of a path
//! held as text, and the directories under the user's home where the app
//! keeps its data.
use vstd::prelude::*;
use vstd::utf8::encode_utf8;
use crate::text::{chars_of, string_of_range};

verus! {

/// The path separator, `/`.
pub const SLASH: u8 = 0x2f;

/// `PathBuf::join` on Unix, on the bytes of the paths: an absolute
/// component replaces the base; otherwise a `/` is inserted unless the base
/// is empty or already ends with one.
pub open spec fn join(base: Seq<u8>, comp: Seq<u8>) -> Seq<u8> {
    if comp.len() > 0 && comp[0] == SLASH {
        comp
    } else if base.len() > 0 && base.last() != SLASH {
        base + seq![SLASH] + comp
    } else {
        base + comp
    }
}

/// Appends the bytes of `s` to `out`.
pub fn push_bytes(out: &mut Vec<u8>, s: &[u8])
    ensures
        final(out)@ == old(out)@ + s@,
{
    let mut i: usize = 0;
    while i < s.len()
        invariant
            0 <= i <= s@.len(),
            out@ == old(out)@ + s@.take(i as int),
        decreases s@.len() - i,
    {
        out.push(s[i]);
        assert(s@.take(i + 1) =~= s@.take(i as int).push(s@[i as int]));
        i = i + 1;
    }
    assert(s@.take(s@.len() as int) =~= s@);
}

/// Joins `comp` onto `base`.
pub fn join_path(base: &[u8], comp: &[u8]) -> (r: Vec<u8>)
    ensures
        r@ == join(base@, comp@),
{
    let mut out: Vec<u8> = Vec::new();
    if comp.len() > 0 && comp[0] == SLASH {
        push_bytes(&mut out, comp);
        assert(out@ =~= comp@);
        return out;
    }
    push_bytes(&mut out, base);
    if base.len() > 0 && base[base.len() - 1] != SLASH {
        out.push(SLASH);
    }
    push_bytes(&mut out, comp);
    proof {
        if base@.len() > 0 {
            assert(base@.last() == base@[base@.len() - 1]);
        }
    }
    assert(out@ =~= join(base@, comp@));
    out
}

/// The characters after the last `/`.
pub open spec fn last_segment(p: Seq<char>) -> Seq<char>
    decreases p.len(),
{
    if p.len() == 0 || p.last() == '/' {
        Seq::empty()
    } else {
        last_segment(p.drop_last()).push(p.last())
    }
}

/// `Path::file_name` on Unix: the last component when it is a normal one.
/// Repeated and trailing separators and `.` components are ignored; a path
/// ending in `..`, the root and the empty path have no file name.
pub open spec fn file_name(p: Seq<char>) -> Option<Seq<char>>
    decreases p.len(),
{
    if p.len() == 0 {
        None
    } else if p.last() == '/' {
        file_name(p.drop_last())
    } else if last_segment(p) == seq!['.'] {
        file_name(p.drop_last())
    } else if last_segment(p) == seq!['.', '.'] {
        None
    } else {
        Some(last_segment(p))
    }
}

/// The file name of `p`, if it has one.
pub fn file_name_of(p: &str) -> (r: Option<String>)
    ensures
        r matches Some(x) ==> file_name(p@) == Some(x@),
        r is None ==> file_name(p@) is None,
{
    let v = chars_of(p);
    let mut j: usize = v.len();
    assert(v@.take(j as int) =~= v@);
    loop
        invariant
            j <= v@.len(),
            file_name(v@.take(j as int)) == file_name(p@),
            v@ == p@,
        decreases j,
    {
        if j == 0 {
            return None;
        }
        let ghost t = v@.take(j as int);
        assert(t.last() == v@[j - 1]);
        assert(t.drop_last() =~= v@.take(j - 1));
        if v[j - 1] == '/' {
            j = j - 1;
        } else {
            let mut k: usize = j;
            while k > 0 && v[k - 1] != '/'
                invariant
                    k <= j <= v@.len(),
                    j > 0,
                    t == v@.take(j as int),
                    last_segment(t) == last_segment(v@.take(k as int)) + v@.subrange(
                        k as int,
                        j as int,
                    ),
                decreases k,
            {
                let ghost tk = v@.take(k as int);
                assert(tk.last() == v@[k - 1]);
                assert(tk.drop_last() =~= v@.take(k - 1));
                assert(v@.subrange(k - 1, j as int) =~= seq![v@[k - 1]] + v@.subrange(
                    k as int,
                    j as int,
                ));
                assert(last_segment(tk) == last_segment(v@.take(k - 1)).push(v@[k - 1]));
                assert(last_segment(v@.take(k - 1)).push(v@[k - 1]) + v@.subrange(k as int, j as int)
                    =~= last_segment(v@.take(k - 1)) + v@.subrange(k - 1, j as int));
                k = k - 1;
            }
            proof {
                if k > 0 {
                    assert(v@.take(k as int).last() == v@[k - 1]);
                }
                assert(last_segment(v@.take(k as int)) == Seq::<char>::empty());
                assert(last_segment(t) =~= v@.subrange(k as int, j as int));
            }
            if j - k == 1 && v[k] == '.' {
                assert(last_segment(t) =~= seq!['.']);
                j = j - 1;
            } else if j - k == 2 && v[k] == '.' && v[k + 1] == '.' {
                assert(last_segment(t) =~= seq!['.', '.']);
                return None;
            } else {
                proof {
                    if j - k == 1 {
                        assert(last_segment(t)[0] != seq!['.'][0]);
                    }
                    if j - k == 2 {
                        assert(last_segment(t)[0] != '.' || last_segment(t)[1] != '.');
                        assert(last_segment(t) != seq!['.', '.']) by {
                            if last_segment(t) == seq!['.', '.'] {
                                assert(last_segment(t)[0] == '.');
                                assert(last_segment(t)[1] == '.');
                            }
                        }
                    }
                    assert(last_segment(t) != seq!['.']) by {
                        if last_segment(t) == seq!['.'] {
                            assert(last_segment(t).len() == 1);
                        }
                    }
                }
                return Some(string_of_range(&v, k, j));
            }
        }
    }
}

/// The index of the last `.`.
pub open spec fn last_dot(s: Seq<char>) -> Option<int>
    decreases s.len(),
{
    if s.len() == 0 {
        None
    } else if s.last() == '.' {
        Some(s.len() - 1)
    } else {
        last_dot(s.drop_last())
    }
}

/// `Path::extension` of a file name: the text after the last `.`, unless
/// the name is `..`, has no `.`, or its only `.` is the first character.
pub open spec fn extension(name: Seq<char>) -> Option<Seq<char>> {
    if name == seq!['.', '.'] {
        None
    } else {
        match last_dot(name) {
            None => None,
            Some(k) => if k == 0 {
                None
            } else {
                Some(name.skip(k + 1))
            },
        }
    }
}

/// Whether the file name `name` has the extension `md`.
pub open spec fn is_markdown_name(name: Seq<char>) -> bool {
    extension(name) == Some(seq!['m', 'd'])
}

/// Whether a directory entry named `name` is a session report (`*.md`).
pub fn is_markdown_file(name: &str) -> (r: bool)
    ensures
        r == is_markdown_name(name@),
{
    let v = chars_of(name);
    let n = v.len();
    if n == 2 && v[0] == '.' && v[1] == '.' {
        assert(v@ =~= seq!['.', '.']);
        return false;
    }
    assert(v@ != seq!['.', '.']) by {
        if v@ == seq!['.', '.'] {
            assert(v@.len() == 2 && v@[0] == '.' && v@[1] == '.');
        }
    }
    let mut j: usize = n;
    assert(v@.take(j as int) =~= v@);
    while j > 0 && v[j - 1] != '.'
        invariant
            j <= n == v@.len(),
            last_dot(v@.take(j as int)) == last_dot(v@),
        decreases j,
    {
        assert(v@.take(j as int).last() == v@[j - 1]);
        assert(v@.take(j as int).drop_last() =~= v@.take(j - 1));
        j = j - 1;
    }
    if j == 0 {
        assert(v@.take(0) =~= Seq::<char>::empty());
        return false;
    }
    assert(v@.take(j as int).last() == v@[j - 1]);
    assert(last_dot(v@) == Some(j - 1));
    if j - 1 == 0 {
        return false;
    }
    let ok = n - j == 2 && v[j] == 'm' && v[j + 1] == 'd';
    proof {
        let e = v@.skip(j as int);
        if ok {
            assert(e =~= seq!['m', 'd']);
        } else {
            if e == seq!['m', 'd'] {
                assert(e.len() == 2 && e[0] == 'm' && e[1] == 'd');
                assert(e[0] == v@[j as int]);
                assert(e[1] == v@[j + 1]);
            }
        }
    }
    ok
}

// ───────────────────────── the app's directories ─────────────────────────

/// The UTF-8 bytes of a text.
pub open spec fn utf8(s: Seq<char>) -> Seq<u8> {
    encode_utf8(s)
}

/// The home directory, or `.` when none is known.
pub open spec fn home_or_cwd(home: Option<Seq<u8>>) -> Seq<u8> {
    match home {
        Some(h) => h,
        None => utf8("."@),
    }
}

/// `~/.wtf-english`, the root of everything the app stores.
pub open spec fn data_root(home: Option<Seq<u8>>) -> Seq<u8> {
    join(home_or_cwd(home), utf8(".wtf-english"@))
}

/// `~/.wtf-english/sessions`, where reports are saved.
pub open spec fn sessions_dir(home: Option<Seq<u8>>) -> Seq<u8> {
    join(data_root(home), utf8("sessions"@))
}

/// `~/.wtf-english/ollama`, where the LLM runtime is installed.
pub open spec fn ollama_dir(home: Option<Seq<u8>>) -> Seq<u8> {
    join(data_root(home), utf8("ollama"@))
}

/// `~/.wtf-english/ollama/ollama`, the runtime's executable.
pub open spec fn ollama_binary(home: Option<Seq<u8>>) -> Seq<u8> {
    join(ollama_dir(home), utf8("ollama"@))
}

/// `~/.wtf-english/ollama-models`, kept apart from the runtime.
pub open spec fn ollama_models_dir(home: Option<Seq<u8>>) -> Seq<u8> {
    join(data_root(home), utf8("ollama-models"@))
}

/// `~/.wtf-english/models/ggml-medium.en.bin`, the downloaded speech model.
pub open spec fn home_model_path(home: Option<Seq<u8>>) -> Seq<u8> {
    join(join(data_root(home), utf8("models"@)), utf8("ggml-medium.en.bin"@))
}

/// The speech model bundled next to the executable in an installed app.
pub open spec fn bundled_model_path(exe_dir: Seq<u8>) -> Seq<u8> {
    join(exe_dir, utf8("../Resources/models/ggml-medium.en.bin"@))
}

/// The view of an optional byte vector.
pub open spec fn opt_bytes(o: Option<&[u8]>) -> Option<Seq<u8>> {
    match o {
        Some(s) => Some(s@),
        None => None,
    }
}

/// `data_root` for a known home directory (or `None`).
pub fn data_root_in(home: Option<&[u8]>) -> (r: Vec<u8>)
    ensures
        r@ == data_root(opt_bytes(home)),
{
    match home {
        Some(h) => join_path(h, ".wtf-english".as_bytes()),
        None => join_path(".".as_bytes(), ".wtf-english".as_bytes()),
    }
}

/// `sessions_dir` for a known home directory (or `None`).
pub fn sessions_dir_in(home: Option<&[u8]>) -> (r: Vec<u8>)
    ensures
        r@ == sessions_dir(opt_bytes(home)),
{
    let root = data_root_in(home);
    join_path(root.as_slice(), "sessions".as_bytes())
}

/// `ollama_dir` for a known home directory (or `None`).
pub fn ollama_dir_in(home: Option<&[u8]>) -> (r: Vec<u8>)
    ensures
        r@ == ollama_dir(opt_bytes(home)),
{
    let root = data_root_in(home);
    join_path(root.as_slice(), "ollama".as_bytes())
}

/// `ollama_binary` for a known home directory (or `None`).
pub fn ollama_binary_in(home: Option<&[u8]>) -> (r: Vec<u8>)
    ensures
        r@ == ollama_binary(opt_bytes(home)),
{
    let dir = ollama_dir_in(home);
    join_path(dir.as_slice(), "ollama".as_bytes())
}

/// `ollama_models_dir` for a known home directory (or `None`).
pub fn ollama_models_dir_in(home: Option<&[u8]>) -> (r: Vec<u8>)
    ensures
        r@ == ollama_models_dir(opt_bytes(home)),
{
    let root = data_root_in(home);
    join_path(root.as_slice(), "ollama-models".as_bytes())
}

/// `home_model_path` for a known home directory (or `None`).
pub fn home_model_path_in(home: Option<&[u8]>) -> (r: Vec<u8>)
    ensures
        r@ == home_model_path(opt_bytes(home)),
{
    let root = data_root_in(home);
    let models = join_path(root.as_slice(), "models".as_bytes());
    join_path(models.as_slice(), "ggml-medium.en.bin".as_bytes())
}

/// `dirs::home_dir`: the current user's home directory, as the bytes of
/// its path (`OsString::into_encoded_bytes`; on Unix, the path's bytes).
///
/// The value comes from `$HOME` or the password database, so nothing is
/// stated about it.
#[verifier::external_body]
fn home_dir() -> (r: Option<Vec<u8>>) {
    dirs::home_dir().map(|p| p.into_os_string().into_encoded_bytes())
}

/// The home directory `home_dir` found, as a slice.
fn home_slice(home: &Option<Vec<u8>>) -> (r: Option<&[u8]>)
    ensures
        opt_bytes(r) == match home {
            Some(h) => Some(h@),
            None => None::<Seq<u8>>,
        },
{
    match home {
        Some(h) => Some(h.as_slice()),
        None => None,
    }
}

/// The session report directory of the current user.
pub fn get_sessions_dir() -> (r: Vec<u8>)
    ensures
        exists|h: Option<Seq<u8>>| r@ == sessions_dir(h),
{
    let home = home_dir();
    sessions_dir_in(home_slice(&home))
}

/// The LLM runtime's install directory for the current user.
pub fn get_ollama_dir() -> (r: Vec<u8>)
    ensures
        exists|h: Option<Seq<u8>>| r@ == ollama_dir(h),
{
    let home = home_dir();
    ollama_dir_in(home_slice(&home))
}

/// The LLM runtime's executable for the current user.
pub fn get_ollama_binary_path() -> (r: Vec<u8>)
    ensures
        exists|h: Option<Seq<u8>>| r@ == ollama_binary(h),
{
    let home = home_dir();
    ollama_binary_in(home_slice(&home))
}

/// Where the LLM runtime keeps downloaded models, for the current user.
pub fn get_ollama_models_dir() -> (r: Vec<u8>)
    ensures
        exists|h: Option<Seq<u8>>| r@ == ollama_models_dir(h),
{
    let home = home_dir();
    ollama_models_dir_in(home_slice(&home))
}

/// Where the speech model is downloaded to, for the current user.
pub fn get_home_model_path() -> (r: Vec<u8>)
    ensures
        exists|h: Option<Seq<u8>>| r@ == home_model_path(h),
{
    let home = home_dir();
    home_model_path_in(home_slice(&home))
}

/// The bundled speech model's path for an executable in `exe_dir`.
pub fn get_bundled_model_path(exe_dir: &[u8]) -> (r: Vec<u8>)
    ensures
        r@ == bundled_model_path(exe_dir@),
{
    join_path(exe_dir, "../Resources/models/ggml-medium.en.bin".as_bytes())
}

} // verus!
