//! Strict paths: home expansion, separator normalisation, dot resolution,
//! long-path prefixes and drive splitting.
use vstd::prelude::*;
use crate::text::{
    chars_of, has_prefix, push_all, replace_all, replace_chars, same_text, starts_with, string_of,
    swap_char, swap_chars,
};

verus! {

/// The operating system whose path syntax applies.
#[derive(Clone, Copy, Debug, PartialEq, Eq, Structural)]
pub enum Os {
    Windows,
    Linux,
    Mac,
    Other,
}

/// Relies on whoami::platform: the platform this program was built for.
#[verifier::external_body]
fn current_platform() -> Os {
    match whoami::platform() {
        whoami::Platform::Linux => Os::Linux,
        whoami::Platform::Windows => Os::Windows,
        whoami::Platform::MacOS => Os::Mac,
        _ => Os::Other,
    }
}

/// The operating system this program runs on.
pub fn get_os() -> (r: Os) {
    current_platform()
}

/// Relies on dirs::home_dir: the current user's home directory, when one is known.
#[verifier::external_body]
pub(crate) fn home_dir() -> Option<String> {
    dirs::home_dir().map(|p| p.to_string_lossy().into_owned())
}

/// Relies on std::path::absolute: a path made absolute against the working
/// directory of the process, without touching the file system; the result is
/// absolute (std documents that it is); `None` for an empty path or when the
/// working directory cannot be read.
#[verifier::external_body]
fn absolute_from_working_dir(path: &str) -> (r: Option<String>)
    ensures
        r matches Some(a) ==> absolute_somewhere(a@),
{
    std::path::absolute(path).ok().map(|p| p.display().to_string())
}

/// Relies on std::path::Path::canonicalize: the canonical form of a path that
/// exists, with symbolic links resolved; std documents it as absolute with no
/// `.` or `..` component; `None` when it cannot be resolved.
#[verifier::external_body]
fn canonical_form(path: &str) -> (r: Option<String>)
    ensures
        r matches Some(c) ==> absolute_somewhere(c@) && dot_free(c@),
{
    std::path::Path::new(path).canonicalize().ok().map(|p| p.display().to_string())
}

/// Relies on std::path::Path::is_file: whether a regular file is there.
#[verifier::external_body]
pub(crate) fn path_is_file(path: &str) -> bool {
    std::path::Path::new(path).is_file()
}

/// Relies on std::path::Path::is_dir: whether a directory is there.
#[verifier::external_body]
pub(crate) fn path_is_dir(path: &str) -> bool {
    std::path::Path::new(path).is_dir()
}

#[verifier::external_type_specification]
#[verifier::external_body]
pub struct ExPathBuf(std::path::PathBuf);

/// Relies on std::path::Path::display: the path as text.
#[verifier::external_body]
fn path_buf_text(path: &std::path::PathBuf) -> String {
    path.display().to_string()
}

/// Relies on std::path::PathBuf::from: a path buffer holding the text as it is.
#[verifier::external_body]
fn path_buf_of(text: &str) -> std::path::PathBuf {
    std::path::PathBuf::from(text)
}

/// The separator that `os` writes.
pub open spec fn typical_sep(os: Os) -> char {
    if os == Os::Windows { '\\' } else { '/' }
}

/// The separator that `os` accepts but does not write.
pub open spec fn atypical_sep(os: Os) -> char {
    if os == Os::Windows { '/' } else { '\\' }
}

/// Whether `c` separates path components on `os`.
pub open spec fn is_sep(c: char, os: Os) -> bool {
    c == typical_sep(os) || (os == Os::Windows && c == '/')
}

/// The prefix of local long-path (UNC) form.
pub open spec fn unc_local() -> Seq<char> {
    seq!['\\', '\\', '?', '\\']
}

/// The prefix of remote UNC form.
pub open spec fn unc_remote() -> Seq<char> {
    seq!['\\', '\\']
}

/// Whether the path starts with a tilde that stands for the home directory.
pub open spec fn tilde_led(p: Seq<char>) -> bool {
    p == seq!['~'] || (p.len() >= 2 && p[0] == '~' && (p[1] == '/' || p[1] == '\\'))
}

/// The path with a leading home tilde replaced by the home directory, when known.
pub open spec fn expand_home(p: Seq<char>, home: Option<Seq<char>>) -> Seq<char> {
    match home {
        Some(h) => if tilde_led(p) { h + p.subrange(1, p.len() as int) } else { p },
        None => p,
    }
}

/// Home expansion followed by separator normalisation.
pub open spec fn normalized(p: Seq<char>, os: Os, home: Option<Seq<char>>) -> Seq<char> {
    swap_char(expand_home(p, home), atypical_sep(os), typical_sep(os))
}

/// Whether a normalised path is absolute on `os`.
pub open spec fn is_absolute(p: Seq<char>, os: Os) -> bool {
    if os == Os::Windows {
        (p.len() >= 2 && p[0] == '\\' && p[1] == '\\') || (p.len() >= 3 && p[1] == ':' && is_sep(
            p[2],
            os,
        ))
    } else {
        p.len() >= 1 && p[0] == '/'
    }
}

/// Whether a path is absolute on some platform: rooted at `/`, or a Windows
/// drive root or UNC path.
pub open spec fn absolute_somewhere(p: Seq<char>) -> bool {
    is_absolute(p, Os::Linux) || is_absolute(p, Os::Windows)
}

/// Whether no `/`-separated component of a path is `.` or `..`.
pub open spec fn dot_free(p: Seq<char>) -> bool {
    forall|k: int|
        0 <= k < components(p, Os::Linux).len() ==> #[trigger] components(p, Os::Linux)[k]
            != seq!['.'] && components(p, Os::Linux)[k] != seq!['.', '.']
}

/// `rel` appended to `base` with one separator between them.
pub open spec fn join_path(base: Seq<char>, rel: Seq<char>, os: Os) -> Seq<char> {
    if base.len() == 0 {
        rel
    } else if is_sep(base.last(), os) {
        base + rel
    } else {
        base + seq![typical_sep(os)] + rel
    }
}

/// A normalised path made absolute against `base`, unless it is absolute already.
pub open spec fn absolutized(p: Seq<char>, base: Seq<char>, os: Os) -> Seq<char> {
    if is_absolute(p, os) { p } else { join_path(base, p, os) }
}

/// How many leading characters form the root of a path (drive, UNC head, slash).
pub open spec fn root_len(p: Seq<char>, os: Os) -> int {
    if os == Os::Windows {
        if p.len() >= 7 && p.subrange(0, 4) == unc_local() && p[5] == ':' && is_sep(p[6], os) {
            7
        } else if p.len() >= 3 && p[1] == ':' && is_sep(p[2], os) {
            3
        } else if p.len() >= 2 && is_sep(p[0], os) && is_sep(p[1], os) {
            2
        } else if p.len() >= 1 && is_sep(p[0], os) {
            1
        } else {
            0
        }
    } else {
        if p.len() >= 1 && p[0] == '/' { 1 } else { 0 }
    }
}

/// Components already closed, and the component being read, after reading `s`.
pub open spec fn split_state(s: Seq<char>, os: Os) -> (Seq<Seq<char>>, Seq<char>)
    decreases s.len(),
{
    if s.len() == 0 {
        (seq![], seq![])
    } else {
        let (segs, cur) = split_state(s.drop_last(), os);
        if is_sep(s.last(), os) {
            (segs.push(cur), seq![])
        } else {
            (segs, cur.push(s.last()))
        }
    }
}

/// The components of `s` between separators (empty ones included).
pub open spec fn components(s: Seq<char>, os: Os) -> Seq<Seq<char>> {
    split_state(s, os).0.push(split_state(s, os).1)
}

/// One step of dot resolution: `.` and empty components vanish, `..` drops
/// the previous component, anything else is kept.
pub open spec fn resolve_step(prev: Seq<Seq<char>>, seg: Seq<char>) -> Seq<Seq<char>> {
    if seg.len() == 0 || seg == seq!['.'] {
        prev
    } else if seg == seq!['.', '.'] {
        if prev.len() > 0 { prev.drop_last() } else { prev }
    } else {
        prev.push(seg)
    }
}

/// Dot resolution of a sequence of components, from left to right.
pub open spec fn resolve(segs: Seq<Seq<char>>) -> Seq<Seq<char>>
    decreases segs.len(),
{
    if segs.len() == 0 {
        seq![]
    } else {
        resolve_step(resolve(segs.drop_last()), segs.last())
    }
}

/// Components written out with `sep` between them.
pub open spec fn join_segments(segs: Seq<Seq<char>>, sep: char) -> Seq<char>
    decreases segs.len(),
{
    if segs.len() == 0 {
        seq![]
    } else if segs.len() == 1 {
        segs[0]
    } else {
        join_segments(segs.drop_last(), sep) + seq![sep] + segs.last()
    }
}

/// A path with its `.` and `..` components resolved below its root.
pub open spec fn dedotted(p: Seq<char>, os: Os) -> Seq<char> {
    let r = root_len(p, os);
    p.subrange(0, r) + join_segments(
        resolve(components(p.subrange(r, p.len() as int), os)),
        typical_sep(os),
    )
}

/// The final form of an absolute path: the canonical form when the file system
/// gave one, else the dot-resolved path, in long-path form on Windows.
pub open spec fn settled(abs: Seq<char>, canonical: Option<Seq<char>>, os: Os) -> Seq<char> {
    match canonical {
        Some(c) => c,
        None => {
            let d = dedotted(abs, os);
            let body = swap_char(d, atypical_sep(os), typical_sep(os));
            if os == Os::Windows && !has_prefix(d, unc_local()) {
                unc_local() + body
            } else {
                body
            }
        },
    }
}

/// The form for display and storage: no long-path marker, forward slashes only.
pub open spec fn rendered(p: Seq<char>) -> Seq<char> {
    swap_char(replace_all(p, unc_local(), seq![]), '\\', '/')
}

/// An optional string seen as an optional character sequence.
pub open spec fn opt_view(o: Option<String>) -> Option<Seq<char>> {
    match o {
        Some(s) => Some(s@),
        None => None,
    }
}

/// A copy of an optional string.
pub fn copy_opt(o: &Option<String>) -> (r: Option<String>)
    ensures
        opt_view(r) == opt_view(*o),
{
    match o {
        Some(s) => Some(s.clone()),
        None => None,
    }
}

/// The path with a leading home tilde replaced by `home`, when known.
pub fn expand_home_dir(path: &[char], home: &Option<String>) -> (r: Vec<char>)
    ensures
        r@ == expand_home(path@, opt_view(*home)),
{
    let mut r: Vec<char> = Vec::new();
    match home {
        Some(h) => {
            let led = (path.len() == 1 && path[0] == '~') || (path.len() >= 2 && path[0] == '~' && (
            path[1] == '/' || path[1] == '\\'));
            assert(led == tilde_led(path@)) by {
                if path@.len() == 1 && path@[0] == '~' {
                    assert(path@ =~= seq!['~']);
                }
            }
            if led {
                let hv = chars_of(h.as_str());
                push_all(&mut r, hv.as_slice());
                let mut i: usize = 1;
                while i < path.len()
                    invariant
                        1 <= i <= path@.len(),
                        r@ == h@ + path@.subrange(1, i as int),
                    decreases path@.len() - i,
                {
                    r.push(path[i]);
                    i = i + 1;
                }
            } else {
                push_all(&mut r, path);
            }
        },
        None => {
            push_all(&mut r, path);
        },
    }
    r
}

/// Home expansion followed by separator normalisation for `os`.
pub fn normalize(path: &str, os: Os, home: &Option<String>) -> (r: String)
    ensures
        r@ == normalized(path@, os, opt_view(*home)),
{
    let p = chars_of(path);
    let e = expand_home_dir(p.as_slice(), home);
    let (a, t) = match os {
        Os::Windows => ('/', '\\'),
        _ => ('\\', '/'),
    };
    let n = swap_chars(e.as_slice(), a, t);
    string_of(n.as_slice())
}

fn is_sep_char(c: char, os: Os) -> (r: bool)
    ensures
        r == is_sep(c, os),
{
    match os {
        Os::Windows => c == '\\' || c == '/',
        _ => c == '/',
    }
}

/// Whether a normalised path is absolute on `os`.
pub fn is_absolute_path(p: &[char], os: Os) -> (r: bool)
    ensures
        r == is_absolute(p@, os),
{
    match os {
        Os::Windows => (p.len() >= 2 && p[0] == '\\' && p[1] == '\\') || (p.len() >= 3 && p[1]
            == ':' && is_sep_char(p[2], os)),
        _ => p.len() >= 1 && p[0] == '/',
    }
}

/// A normalised path made absolute against `base`, unless it is absolute already.
pub fn absolutize(path: &str, base: &str, os: Os) -> (r: String)
    ensures
        r@ == absolutized(path@, base@, os),
{
    let p = chars_of(path);
    if is_absolute_path(p.as_slice(), os) {
        return string_of(p.as_slice());
    }
    let b = chars_of(base);
    let mut r: Vec<char> = Vec::new();
    push_all(&mut r, b.as_slice());
    if b.len() > 0 && !is_sep_char(b[b.len() - 1], os) {
        r.push(match os {
            Os::Windows => '\\',
            _ => '/',
        });
    }
    push_all(&mut r, p.as_slice());
    string_of(r.as_slice())
}

fn root_length(p: &[char], os: Os) -> (r: usize)
    ensures
        r == root_len(p@, os),
        r <= p@.len(),
{
    match os {
        Os::Windows => {
            if p.len() >= 7 && p[0] == '\\' && p[1] == '\\' && p[2] == '?' && p[3] == '\\' && p[5]
                == ':' && is_sep_char(p[6], os) {
                assert(p@.subrange(0, 4) =~= unc_local());
                7
            } else if p.len() >= 3 && p[1] == ':' && is_sep_char(p[2], os) {
                proof {
                    if p@.len() >= 7 && p@.subrange(0, 4) == unc_local() {
                        assert(p@[0] == p@.subrange(0, 4)[0]);
                        assert(p@[3] == p@.subrange(0, 4)[3]);
                    }
                }
                3
            } else if p.len() >= 2 && is_sep_char(p[0], os) && is_sep_char(p[1], os) {
                proof {
                    if p@.len() >= 7 && p@.subrange(0, 4) == unc_local() {
                        assert(p@[0] == p@.subrange(0, 4)[0]);
                        assert(p@[1] == p@.subrange(0, 4)[1]);
                        assert(p@[2] == p@.subrange(0, 4)[2]);
                        assert(p@[3] == p@.subrange(0, 4)[3]);
                    }
                }
                2
            } else if p.len() >= 1 && is_sep_char(p[0], os) {
                proof {
                    if p@.len() >= 7 && p@.subrange(0, 4) == unc_local() {
                        assert(p@[1] == p@.subrange(0, 4)[1]);
                    }
                }
                1
            } else {
                proof {
                    if p@.len() >= 7 && p@.subrange(0, 4) == unc_local() {
                        assert(p@[0] == p@.subrange(0, 4)[0]);
                    }
                }
                0
            }
        },
        _ => if p.len() >= 1 && p[0] == '/' {
            1
        } else {
            0
        },
    }
}

/// The character sequences held by a vector of character vectors.
pub open spec fn seg_views(v: Seq<Vec<char>>) -> Seq<Seq<char>> {
    Seq::new(v.len(), |i: int| v[i]@)
}

fn apply_step(resolved: &mut Vec<Vec<char>>, seg: Vec<char>)
    ensures
        seg_views(final(resolved)@) == resolve_step(seg_views(old(resolved)@), seg@),
{
    let ghost before = seg_views(resolved@);
    let is_dot = seg.len() == 1 && seg[0] == '.';
    let is_dotdot = seg.len() == 2 && seg[0] == '.' && seg[1] == '.';
    assert(is_dot == (seg@ == seq!['.'])) by {
        if seg@.len() == 1 && seg@[0] == '.' {
            assert(seg@ =~= seq!['.']);
        }
    }
    assert(is_dotdot == (seg@ == seq!['.', '.'])) by {
        if seg@.len() == 2 && seg@[0] == '.' && seg@[1] == '.' {
            assert(seg@ =~= seq!['.', '.']);
        }
    }
    if seg.len() == 0 || is_dot {
    } else if is_dotdot {
        if resolved.len() > 0 {
            resolved.pop();
            assert(seg_views(resolved@) =~= before.drop_last());
        }
    } else {
        resolved.push(seg);
        assert(seg_views(resolved@) =~= before.push(seg@));
    }
}

proof fn lemma_components_last(s: Seq<char>, os: Os)
    ensures
        resolve(components(s, os)) == resolve_step(resolve(split_state(s, os).0), split_state(s, os).1),
{
    let segs = split_state(s, os).0;
    let cur = split_state(s, os).1;
    assert(segs.push(cur).drop_last() =~= segs);
}

fn join_with(segs: &Vec<Vec<char>>, sep: char) -> (r: Vec<char>)
    ensures
        r@ == join_segments(seg_views(segs@), sep),
{
    let mut r: Vec<char> = Vec::new();
    let mut i: usize = 0;
    while i < segs.len()
        invariant
            i <= segs@.len(),
            r@ == join_segments(seg_views(segs@).subrange(0, i as int), sep),
        decreases segs@.len() - i,
    {
        let ghost sv = seg_views(segs@);
        assert(sv.subrange(0, i + 1).drop_last() =~= sv.subrange(0, i as int));
        if i > 0 {
            r.push(sep);
        } else {
            assert(sv.subrange(0, 0) =~= Seq::<Seq<char>>::empty());
        }
        push_all(&mut r, segs[i].as_slice());
        i = i + 1;
    }
    assert(seg_views(segs@).subrange(0, segs@.len() as int) =~= seg_views(segs@));
    r
}

/// A path with its `.` and `..` components resolved below its root.
pub fn parse_dots(path: &str, os: Os) -> (r: String)
    ensures
        r@ == dedotted(path@, os),
{
    let p = chars_of(path);
    let root = root_length(p.as_slice(), os);
    let mut out: Vec<char> = Vec::new();
    let mut i: usize = 0;
    while i < root
        invariant
            i <= root <= p@.len(),
            out@ == p@.subrange(0, i as int),
        decreases root - i,
    {
        out.push(p[i]);
        i = i + 1;
    }
    let ghost rest = p@.subrange(root as int, p@.len() as int);
    let mut resolved: Vec<Vec<char>> = Vec::new();
    let mut cur: Vec<char> = Vec::new();
    assert(rest.subrange(0, 0) =~= Seq::<char>::empty());
    assert(seg_views(resolved@) =~= Seq::<Seq<char>>::empty());
    while i < p.len()
        invariant
            root <= i <= p@.len(),
            rest == p@.subrange(root as int, p@.len() as int),
            seg_views(resolved@) == resolve(split_state(rest.subrange(0, i - root), os).0),
            cur@ == split_state(rest.subrange(0, i - root), os).1,
        decreases p@.len() - i,
    {
        let ghost k = (i - root) as int;
        assert(rest.subrange(0, k + 1).drop_last() =~= rest.subrange(0, k));
        assert(rest.subrange(0, k + 1).last() == p@[i as int]);
        let c = p[i];
        if is_sep_char(c, os) {
            let seg = cur;
            cur = Vec::new();
            let ghost segs = split_state(rest.subrange(0, k), os).0;
            apply_step(&mut resolved, seg);
            assert(segs.push(seg@).drop_last() =~= segs);
        } else {
            cur.push(c);
        }
        i = i + 1;
    }
    assert(rest.subrange(0, rest.len() as int) =~= rest);
    proof {
        lemma_components_last(rest, os);
    }
    apply_step(&mut resolved, cur);
    let sep = match os {
        Os::Windows => '\\',
        _ => '/',
    };
    let joined = join_with(&resolved, sep);
    push_all(&mut out, joined.as_slice());
    string_of(out.as_slice())
}

/// The final form of an absolute path: the canonical form when the file system
/// gave one, else the dot-resolved path, in long-path form on Windows.
pub fn settle(abs: &str, canonical: &Option<String>, os: Os) -> (r: String)
    ensures
        r@ == settled(abs@, opt_view(*canonical), os),
{
    match canonical {
        Some(c) => c.clone(),
        None => {
            let d = parse_dots(abs, os);
            let dv = chars_of(d.as_str());
            let (a, t) = match os {
                Os::Windows => ('/', '\\'),
                _ => ('\\', '/'),
            };
            let body = swap_chars(dv.as_slice(), a, t);
            let unc = chars_of("\\\\?\\");
            proof {
                reveal_strlit("\\\\?\\");
                assert(unc@ =~= unc_local());
            }
            if os == Os::Windows && !starts_with(dv.as_slice(), unc.as_slice()) {
                let mut r: Vec<char> = Vec::new();
                push_all(&mut r, unc.as_slice());
                push_all(&mut r, body.as_slice());
                string_of(r.as_slice())
            } else {
                string_of(body.as_slice())
            }
        },
    }
}

/// The form of a path for display and storage: no long-path marker, forward slashes.
pub fn render(path: &str) -> (r: String)
    ensures
        r@ == rendered(path@),
{
    let p = chars_of(path);
    let unc = chars_of("\\\\?\\");
    proof {
        reveal_strlit("\\\\?\\");
        assert(unc@ =~= unc_local());
    }
    let empty: Vec<char> = Vec::new();
    let stripped = replace_chars(p.as_slice(), unc.as_slice(), empty.as_slice());
    assert(empty@ =~= Seq::<char>::empty());
    let slashed = swap_chars(stripped.as_slice(), '\\', '/');
    string_of(slashed.as_slice())
}


/// Whether `r` is what interpreting `raw` against `basis` gives on `os`, with
/// the home directory `home`, the absolute form `abs` and the canonical form
/// `canon` that the file system gave (if any).
pub open spec fn interprets_with(
    raw: Seq<char>,
    basis: Option<Seq<char>>,
    os: Os,
    home: Option<Seq<char>>,
    abs: Seq<char>,
    canon: Option<Seq<char>>,
    r: Seq<char>,
) -> bool {
    let n = normalized(raw, os, home);
    &&& r == settled(abs, canon, os)
    &&& match basis {
        Some(b) => {
            let j = absolutized(n, b, os);
            if is_absolute(j, os) {
                abs == j
            } else {
                absolute_somewhere(abs) || abs == j
            }
        },
        None => if is_absolute(n, os) {
            abs == n
        } else {
            absolute_somewhere(abs) || abs == n
        },
    }
    &&& canon matches Some(c) ==> absolute_somewhere(c) && dot_free(c)
}

/// Whether `r` is an interpretation of `raw` against `basis` on `os`, for some
/// home directory, working directory and file-system state: the path with its
/// home tilde expanded and its separators normalised, made absolute against the
/// basis (or the working directory, also for a relative basis), then canonical
/// when the file system can resolve it, else with its dots resolved. It stays
/// relative only when the working directory cannot be read.
pub open spec fn interpretation_on(raw: Seq<char>, basis: Option<Seq<char>>, os: Os, r: Seq<char>) -> bool {
    exists|home: Option<Seq<char>>, abs: Seq<char>, canon: Option<Seq<char>>|
        #[trigger] interprets_with(raw, basis, os, home, abs, canon, r)
}

/// Whether `r` is an interpretation of `raw` against `basis` on some platform.
pub open spec fn interpretation(raw: Seq<char>, basis: Option<Seq<char>>, r: Seq<char>) -> bool {
    exists|os: Os| #[trigger] interpretation_on(raw, basis, os, r)
}

/// Whether `r` is `p` joined with `other`: the interpretation of `p`, a slash,
/// then `other`, with no basis.
pub open spec fn joined_of(p: StrictPath, other: Seq<char>, r: StrictPath) -> bool {
    &&& r.basis_view() == None::<Seq<char>>
    &&& exists|x: Seq<char>|
        #[trigger] interpretation(p.raw_view(), p.basis_view(), x) && r.raw_view() == x + seq!['/']
            + other
}

/// Whether `s[k]` is the first backslash of `s`.
pub open spec fn first_backslash_at(s: Seq<char>, k: int) -> bool {
    0 <= k < s.len() && s[k] == '\\' && forall|j: int| 0 <= j < k ==> s[j] != '\\'
}

/// Drive and remainder of an interpreted Windows path: a local long path gives
/// its drive, a remote UNC path its server; anything else falls back to the
/// raw text with forward slashes and no drive.
pub open spec fn windows_drive_split(interp: Seq<char>, raw: Seq<char>) -> (Seq<char>, Seq<char>) {
    let local = interp.subrange(4, interp.len() as int);
    let remote = interp.subrange(2, interp.len() as int);
    if has_prefix(interp, unc_local()) && exists|k: int| first_backslash_at(local, k) {
        let k = choose|k: int| first_backslash_at(local, k);
        (local.subrange(0, k), swap_char(local.subrange(k + 1, local.len() as int), '\\', '/'))
    } else if !has_prefix(interp, unc_local()) && has_prefix(interp, unc_remote()) && exists|
        k: int,
    | first_backslash_at(remote, k) {
        let k = choose|k: int| first_backslash_at(remote, k);
        (
            unc_remote() + remote.subrange(0, k),
            swap_char(remote.subrange(k + 1, remote.len() as int), '\\', '/'),
        )
    } else {
        (seq![], swap_char(raw, '\\', '/'))
    }
}

/// Drive and remainder of a path outside Windows: no drive, and the raw text
/// without one leading slash.
pub open spec fn posix_drive_split(raw: Seq<char>) -> (Seq<char>, Seq<char>) {
    if raw.len() > 0 && raw[0] == '/' {
        (seq![], raw.subrange(1, raw.len() as int))
    } else {
        (seq![], raw)
    }
}

fn find_backslash(s: &[char], from: usize) -> (r: Option<usize>)
    requires
        from <= s@.len(),
    ensures
        match r {
            Some(k) => from <= k < s@.len() && first_backslash_at(
                s@.subrange(from as int, s@.len() as int),
                k - from,
            ),
            None => forall|j: int| from <= j < s@.len() ==> s@[j] != '\\',
        },
{
    let mut i = from;
    while i < s.len()
        invariant
            from <= i <= s@.len(),
            forall|j: int| from <= j < i ==> s@[j] != '\\',
        decreases s@.len() - i,
    {
        if s[i] == '\\' {
            return Some(i);
        }
        i = i + 1;
    }
    None
}

proof fn lemma_first_backslash_unique(s: Seq<char>, k1: int, k2: int)
    requires
        first_backslash_at(s, k1),
        first_backslash_at(s, k2),
    ensures
        k1 == k2,
{
    if k1 < k2 {
        assert(s[k1] != '\\');
    } else if k2 < k1 {
        assert(s[k2] != '\\');
    }
}

fn copy_range(s: &[char], from: usize, to: usize) -> (r: Vec<char>)
    requires
        from <= to <= s@.len(),
    ensures
        r@ == s@.subrange(from as int, to as int),
{
    let mut r: Vec<char> = Vec::new();
    let mut i = from;
    while i < to
        invariant
            from <= i <= to <= s@.len(),
            r@ == s@.subrange(from as int, i as int),
        decreases to - i,
    {
        r.push(s[i]);
        i = i + 1;
    }
    r
}

/// Drive and remainder of an interpreted Windows path (see `windows_drive_split`).
pub fn split_windows_drive(interp: &str, raw: &str) -> (r: (String, String))
    ensures
        (r.0@, r.1@) == windows_drive_split(interp@, raw@),
{
    let iv = chars_of(interp);
    let local = chars_of("\\\\?\\");
    let remote = chars_of("\\\\");
    proof {
        reveal_strlit("\\\\?\\");
        reveal_strlit("\\\\");
        assert(local@ =~= unc_local());
        assert(remote@ =~= unc_remote());
    }
    let is_local = starts_with(iv.as_slice(), local.as_slice());
    if is_local {
        let ghost lrest = iv@.subrange(4, iv@.len() as int);
        match find_backslash(iv.as_slice(), 4) {
            Some(k) => {
                let drive = copy_range(iv.as_slice(), 4, k);
                assert(k < iv.len());
                let tail = copy_range(iv.as_slice(), k + 1, iv.len());
                let rest = swap_chars(tail.as_slice(), '\\', '/');
                proof {
                    let kk = choose|j: int| first_backslash_at(lrest, j);
                    lemma_first_backslash_unique(lrest, kk, k - 4);
                    assert(lrest.subrange(0, k - 4) =~= drive@);
                    assert(lrest.subrange(k - 4 + 1, lrest.len() as int) =~= tail@);
                }
                return (string_of(drive.as_slice()), string_of(rest.as_slice()));
            },
            None => {
                assert forall|j: int| !first_backslash_at(lrest, j) by {
                    if first_backslash_at(lrest, j) {
                        assert(iv@[j + 4] == lrest[j]);
                    }
                }
            },
        }
    } else if starts_with(iv.as_slice(), remote.as_slice()) {
        let ghost rrest = iv@.subrange(2, iv@.len() as int);
        match find_backslash(iv.as_slice(), 2) {
            Some(k) => {
                let server = copy_range(iv.as_slice(), 2, k);
                assert(k < iv.len());
                let tail = copy_range(iv.as_slice(), k + 1, iv.len());
                let rest = swap_chars(tail.as_slice(), '\\', '/');
                let mut drive: Vec<char> = Vec::new();
                push_all(&mut drive, remote.as_slice());
                push_all(&mut drive, server.as_slice());
                proof {
                    let kk = choose|j: int| first_backslash_at(rrest, j);
                    lemma_first_backslash_unique(rrest, kk, k - 2);
                    assert(rrest.subrange(0, k - 2) =~= server@);
                    assert(rrest.subrange(k - 2 + 1, rrest.len() as int) =~= tail@);
                }
                return (string_of(drive.as_slice()), string_of(rest.as_slice()));
            },
            None => {
                assert forall|j: int| !first_backslash_at(rrest, j) by {
                    if first_backslash_at(rrest, j) {
                        assert(iv@[j + 2] == rrest[j]);
                    }
                }
            },
        }
    }
    let rv = chars_of(raw);
    let rest = swap_chars(rv.as_slice(), '\\', '/');
    (String::new(), string_of(rest.as_slice()))
}

/// Whether `(d, p)` is a drive split of the path `raw` read against `basis`:
/// the split outside Windows, or the Windows split of an interpretation.
pub open spec fn drive_split_of(raw: Seq<char>, basis: Option<Seq<char>>, d: Seq<char>, p: Seq<char>) -> bool {
    exists|os: Os| #[trigger] drive_split_on(raw, basis, os, d, p)
}

/// Whether `(d, p)` is the drive split on `os` of the path `raw` read against
/// `basis`: outside Windows the raw text without a leading slash and no drive;
/// on Windows the split of its interpretation.
pub open spec fn drive_split_on(
    raw: Seq<char>,
    basis: Option<Seq<char>>,
    os: Os,
    d: Seq<char>,
    p: Seq<char>,
) -> bool {
    if os == Os::Windows {
        exists|x: Seq<char>|
            interpretation_on(raw, basis, os, x) && (d, p) == #[trigger] windows_drive_split(x, raw)
    } else {
        (d, p) == posix_drive_split(raw)
    }
}

/// Drive and remainder of a path outside Windows (see `posix_drive_split`).
pub fn split_posix_drive(raw: &str) -> (r: (String, String))
    ensures
        (r.0@, r.1@) == posix_drive_split(raw@),
{
    let rv = chars_of(raw);
    if rv.len() > 0 && rv[0] == '/' {
        let rest = copy_range(rv.as_slice(), 1, rv.len());
        (String::new(), string_of(rest.as_slice()))
    } else {
        (String::new(), raw.to_owned())
    }
}

/// A path as written, with the directory that a relative path is read against
/// (the working directory when there is none). Equality, order and hashing
/// go by this text, never by the file it denotes.
#[derive(Clone, Debug, Default, PartialEq, Eq, PartialOrd, Ord, Hash)]
pub struct StrictPath {
    raw: String,
    basis: Option<String>,
}

impl StrictPath {
    /// The path as written.
    pub closed spec fn raw_view(&self) -> Seq<char> {
        self.raw@
    }

    /// The directory a relative path is read against, if one was given.
    pub closed spec fn basis_view(&self) -> Option<Seq<char>> {
        opt_view(self.basis)
    }

    pub fn new(raw: String) -> (r: Self)
        ensures
            r.raw_view() == raw@,
            r.basis_view() == None::<Seq<char>>,
    {
        StrictPath { raw, basis: None }
    }

    pub fn relative(raw: String, basis: Option<String>) -> (r: Self)
        ensures
            r.raw_view() == raw@,
            r.basis_view() == opt_view(basis),
    {
        StrictPath { raw, basis }
    }

    /// Replaces the text of the path, keeping its basis.
    pub fn reset(&mut self, raw: String)
        ensures
            final(self).raw_view() == raw@,
            final(self).basis_view() == old(self).basis_view(),
    {
        self.raw = raw;
    }

    /// A copy with the same text and basis.
    pub fn copied(&self) -> (r: Self)
        ensures
            r.raw_view() == self.raw_view(),
            r.basis_view() == self.basis_view(),
    {
        StrictPath { raw: self.raw.clone(), basis: copy_opt(&self.basis) }
    }

    pub fn from_std_path_buf(path_buf: &std::path::PathBuf) -> (r: Self)
        ensures
            r.basis_view() == None::<Seq<char>>,
    {
        Self::new(path_buf_text(path_buf))
    }

    pub fn as_std_path_buf(&self) -> std::path::PathBuf {
        let text = self.interpret();
        path_buf_of(text.as_str())
    }

    /// Whether both paths have the same text and basis.
    pub fn same_as(&self, other: &StrictPath) -> (r: bool)
        ensures
            r == (self.raw_view() == other.raw_view() && self.basis_view() == other.basis_view()),
    {
        let raw_eq = same_text(self.raw.as_str(), other.raw.as_str());
        let basis_eq = match (&self.basis, &other.basis) {
            (Some(a), Some(b)) => same_text(a.as_str(), b.as_str()),
            (None, None) => true,
            _ => false,
        };
        raw_eq && basis_eq
    }

    pub fn raw(&self) -> (r: String)
        ensures
            r@ == self.raw_view(),
    {
        self.raw.clone()
    }

    /// The canonical absolute form, for calls into the file system.
    pub fn interpret(&self) -> (r: String)
        ensures
            interpretation(self.raw_view(), self.basis_view(), r@),
    {
        let os = get_os();
        self.interpret_on(os)
    }

    /// The canonical absolute form on `os` (see `interpretation_on`).
    pub fn interpret_on(&self, os: Os) -> (r: String)
        ensures
            interpretation_on(self.raw_view(), self.basis_view(), os, r@),
    {
        let home = home_dir();
        let n = normalize(self.raw.as_str(), os, &home);
        let abs = match &self.basis {
            Some(b) => {
                let j = absolutize(n.as_str(), b.as_str(), os);
                let jv = chars_of(j.as_str());
                if is_absolute_path(jv.as_slice(), os) {
                    j
                } else {
                    let target = if jv.len() == 0 {
                        ".".to_owned()
                    } else {
                        j.clone()
                    };
                    match absolute_from_working_dir(target.as_str()) {
                        Some(a) => a,
                        None => j,
                    }
                }
            },
            None => {
                let nv = chars_of(n.as_str());
                if is_absolute_path(nv.as_slice(), os) {
                    n
                } else {
                    let target = if nv.len() == 0 {
                        ".".to_owned()
                    } else {
                        n.clone()
                    };
                    match absolute_from_working_dir(target.as_str()) {
                        Some(a) => a,
                        None => n,
                    }
                }
            },
        };
        let canon = canonical_form(abs.as_str());
        let r = settle(abs.as_str(), &canon, os);
        assert(interprets_with(
            self.raw_view(),
            self.basis_view(),
            os,
            opt_view(home),
            abs@,
            opt_view(canon),
            r@,
        ));
        r
    }

    /// The form for display and storage on `os`: the interpretation without
    /// the long-path marker and with forward slashes.
    pub fn render_on(&self, os: Os) -> (r: String)
        ensures
            exists|x: Seq<char>|
                interpretation_on(self.raw_view(), self.basis_view(), os, x) && r@ == #[trigger] rendered(x),
    {
        let i = self.interpret_on(os);
        let r = render(i.as_str());
        assert(interpretation_on(self.raw_view(), self.basis_view(), os, i@) && r@ == rendered(i@));
        r
    }

    /// The form for display and storage: the interpretation without the
    /// long-path marker and with forward slashes.
    pub fn render(&self) -> (r: String)
        ensures
            exists|x: Seq<char>|
                interpretation(self.raw_view(), self.basis_view(), x) && r@ == #[trigger] rendered(
                    x,
                ),
    {
        let i = self.interpret();
        let r = render(i.as_str());
        assert(interpretation(self.raw_view(), self.basis_view(), i@) && r@ == rendered(i@));
        r
    }

    pub fn is_file(&self) -> bool {
        let i = self.interpret();
        path_is_file(i.as_str())
    }

    pub fn is_dir(&self) -> bool {
        let i = self.interpret();
        path_is_dir(i.as_str())
    }

    pub fn path_exists(&self) -> bool {
        self.is_file() || self.is_dir()
    }

    /// The interpretation of this path with `other` appended after a slash.
    pub fn joined(&self, other: &str) -> (r: Self)
        ensures
            joined_of(*self, other@, r),
    {
        let i = self.interpret();
        let mut v = chars_of(i.as_str());
        v.push('/');
        let o = chars_of(other);
        push_all(&mut v, o.as_slice());
        let r = Self::new(string_of(v.as_slice()));
        assert(interpretation(self.raw_view(), self.basis_view(), i@) && r.raw_view() == i@ + seq![
            '/',
        ] + other@);
        r
    }

    /// The drive of the path and the rest of it, for archive placement.
    /// Examples: `\\?\C:\foo\bar` gives `C:` and `foo/bar`; `\\remote\foo\bar`
    /// gives `\\remote` and `foo/bar`; `/foo/bar` gives `` and `foo/bar`.
    pub fn split_drive(&self) -> (r: (String, String))
        ensures
            drive_split_of(self.raw_view(), self.basis_view(), r.0@, r.1@),
    {
        let os = get_os();
        let r = self.split_drive_on(os);
        assert(drive_split_on(self.raw_view(), self.basis_view(), os, r.0@, r.1@));
        r
    }

    /// The drive of the path and the rest of it on `os` (see `drive_split_on`).
    pub fn split_drive_on(&self, os: Os) -> (r: (String, String))
        ensures
            drive_split_on(self.raw_view(), self.basis_view(), os, r.0@, r.1@),
    {
        match os {
            Os::Windows => {
                let i = self.interpret_on(os);
                let r = split_windows_drive(i.as_str(), self.raw.as_str());
                assert(interpretation_on(self.raw_view(), self.basis_view(), os, i@) && (r.0@, r.1@)
                    == windows_drive_split(i@, self.raw_view()));
                r
            },
            _ => split_posix_drive(self.raw.as_str()),
        }
    }
}

} // verus!
