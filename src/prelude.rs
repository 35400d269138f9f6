//! Scan results, backup outcomes, progress bookkeeping, redirects and the
//! scans that feed backup and restoration.
use vstd::prelude::*;
pub use crate::path::{get_os, Os, StrictPath};
use crate::layout::{decimal, decimal_of, restorable_listing, BackupLayout, FileView, WalkEntry};
use crate::path::{home_dir, interpretation, interpretation_on, path_is_dir, path_is_file, render, rendered};
use crate::layout::walk;
use crate::text::{
    chars_of, has_prefix, occurs_at, push_all, replace_all, replace_str, same_text, starts_with,
    string_of, swap_char, swap_chars,
};

verus! {

/// Failures that the application reports.
#[derive(Clone, Debug, PartialEq)]
pub enum Error {
    ManifestInvalid { why: String },
    ManifestCannotBeUpdated,
    ConfigInvalid { why: String },
    CliBackupTargetExists { path: StrictPath },
    CliUnrecognizedGames { games: Vec<String> },
    CliUnableToRequestConfirmation,
    SomeEntriesFailed,
    CannotPrepareBackupTarget { path: StrictPath },
    RestorationSourceInvalid { path: StrictPath },
    RegistryIssue,
    UnableToBrowseFileSystem,
}

/// Appends `text` in double quotes, with quotes, backslashes and the
/// control characters tab, return, newline and nul escaped.
fn push_quoted(v: &mut Vec<char>, text: &str) {
    let w = chars_of(text);
    v.push('"');
    let mut i: usize = 0;
    while i < w.len()
        decreases w@.len() - i,
    {
        let c = w[i];
        if c == '"' || c == '\\' {
            v.push('\\');
            v.push(c);
        } else if c == '\n' {
            v.push('\\');
            v.push('n');
        } else if c == '\r' {
            v.push('\\');
            v.push('r');
        } else if c == '\t' {
            v.push('\\');
            v.push('t');
        } else if c == '\0' {
            v.push('\\');
            v.push('0');
        } else {
            v.push(c);
        }
        i = i + 1;
    }
    v.push('"');
}

impl Error {
    /// The message shown to the user.
    pub fn message(&self) -> String {
        match self {
            Error::ManifestInvalid { why } => {
                let mut v = chars_of("The manifest file is invalid: ");
                push_quoted(&mut v, why.as_str());
                string_of(v.as_slice())
            },
            Error::ManifestCannotBeUpdated => "Unable to download an update to the manifest file".to_owned(),
            Error::ConfigInvalid { why } => {
                let mut v = chars_of("The config file is invalid: ");
                push_quoted(&mut v, why.as_str());
                string_of(v.as_slice())
            },
            Error::CliBackupTargetExists { .. } => "Target already exists".to_owned(),
            Error::CliUnrecognizedGames { .. } => "Target already exists".to_owned(),
            Error::CliUnableToRequestConfirmation => "Unable to request confirmation".to_owned(),
            Error::SomeEntriesFailed => "Some entries failed".to_owned(),
            Error::CannotPrepareBackupTarget { .. } => "Cannot prepare the backup target".to_owned(),
            Error::RestorationSourceInvalid { .. } => "Cannot prepare the backup target".to_owned(),
            Error::RegistryIssue => "Error while working with the registry".to_owned(),
            Error::UnableToBrowseFileSystem => "Unable to browse file system".to_owned(),
        }
    }
}

/// A strict path as its text and basis.
pub open spec fn path_view(p: StrictPath) -> (Seq<char>, Option<Seq<char>>) {
    (p.raw_view(), p.basis_view())
}

/// What a scanned file holds: its path, size and original path.
pub open spec fn file_view(f: ScannedFile) -> (
    (Seq<char>, Option<Seq<char>>),
    u64,
    Option<(Seq<char>, Option<Seq<char>>)>,
) {
    (
        path_view(f.path),
        f.size,
        match f.original_path {
            Some(o) => Some(path_view(o)),
            None => None,
        },
    )
}

/// What each of a sequence of scanned files holds.
pub open spec fn file_views(s: Seq<ScannedFile>) -> Seq<
    ((Seq<char>, Option<Seq<char>>), u64, Option<(Seq<char>, Option<Seq<char>>)>),
> {
    Seq::new(s.len(), |i: int| file_view(s[i]))
}

/// A file found by a scan: where its bytes are, how many, and (for a file in
/// a backup) where it came from, before any redirect.
#[derive(Clone, Debug, PartialEq, Eq, PartialOrd, Ord, Hash)]
pub struct ScannedFile {
    pub path: StrictPath,
    pub size: u64,
    pub original_path: Option<StrictPath>,
}

impl ScannedFile {
    /// A copy holding the same paths and size.
    pub fn copied(&self) -> (r: Self)
        ensures
            file_view(r) == file_view(*self),
    {
        ScannedFile {
            path: self.path.copied(),
            size: self.size,
            original_path: match &self.original_path {
                Some(o) => Some(o.copied()),
                None => None,
            },
        }
    }
}

/// The total size of some files.
pub open spec fn total_size(s: Seq<ScannedFile>) -> int
    decreases s.len(),
{
    if s.len() == 0 {
        0
    } else {
        total_size(s.drop_last()) + s.last().size
    }
}

proof fn lemma_total_size_prefix(s: Seq<ScannedFile>, i: int)
    requires
        0 <= i <= s.len(),
    ensures
        0 <= total_size(s.subrange(0, i)) <= total_size(s),
    decreases s.len(),
{
    if s.len() > 0 {
        if i == s.len() {
            assert(s.subrange(0, i) =~= s);
            lemma_total_size_prefix(s.drop_last(), i - 1);
            assert(s.drop_last().subrange(0, i - 1) =~= s.drop_last());
        } else {
            lemma_total_size_prefix(s.drop_last(), i);
            assert(s.drop_last().subrange(0, i) =~= s.subrange(0, i));
        }
    } else {
        assert(s.subrange(0, i) =~= s);
    }
}

fn sum_sizes(files: &Vec<ScannedFile>) -> (r: u64)
    requires
        total_size(files@) <= u64::MAX,
    ensures
        r == total_size(files@),
{
    let mut sum: u64 = 0;
    let mut i: usize = 0;
    while i < files.len()
        invariant
            i <= files@.len(),
            total_size(files@) <= u64::MAX,
            sum == total_size(files@.subrange(0, i as int)),
        decreases files@.len() - i,
    {
        proof {
            lemma_total_size_prefix(files@, i + 1);
            assert(files@.subrange(0, i + 1).drop_last() =~= files@.subrange(0, i as int));
        }
        sum = sum + files[i].size;
        i = i + 1;
    }
    assert(files@.subrange(0, files@.len() as int) =~= files@);
    sum
}

/// What a scan found for one game.
#[derive(Clone, Debug, Default, PartialEq)]
pub struct ScanInfo {
    pub game_name: String,
    pub found_files: Vec<ScannedFile>,
    pub found_registry_keys: Vec<String>,
    pub registry_file: Option<StrictPath>,
}

/// The bytes counted for a scan: all found bytes, less the failed ones.
pub open spec fn counted_bytes(scan: ScanInfo, backup: Option<BackupInfo>) -> int {
    total_size(scan.found_files@) - match backup {
        Some(b) => total_size(b.failed_files@),
        None => 0,
    }
}

/// Whether counting the bytes of a scan stays within `u64` and the failed
/// bytes do not exceed the found ones.
pub open spec fn countable(scan: ScanInfo, backup: Option<BackupInfo>) -> bool {
    &&& total_size(scan.found_files@) <= u64::MAX
    &&& match backup {
        Some(b) => total_size(b.failed_files@) <= total_size(scan.found_files@),
        None => true,
    }
}

impl ScanInfo {
    /// The bytes found, less those that failed in `backup_info`.
    pub fn sum_bytes(&self, backup_info: &Option<BackupInfo>) -> (r: u64)
        requires
            countable(*self, *backup_info),
        ensures
            r == counted_bytes(*self, *backup_info),
    {
        let found = sum_sizes(&self.found_files);
        let failed = match backup_info {
            Some(b) => sum_sizes(&b.failed_files),
            None => 0,
        };
        found - failed
    }

    pub fn found_anything(&self) -> (r: bool)
        ensures
            r == (self.found_files@.len() > 0 || self.found_registry_keys@.len() > 0),
    {
        !self.found_files.is_empty() || !self.found_registry_keys.is_empty()
    }
}

/// What failed while backing up or restoring one game.
#[derive(Clone, Debug, Default)]
pub struct BackupInfo {
    pub failed_files: Vec<ScannedFile>,
    pub failed_registry: Vec<String>,
}

impl BackupInfo {
    pub fn successful(&self) -> (r: bool)
        ensures
            r == (self.failed_files@.len() == 0 && self.failed_registry@.len() == 0),
    {
        self.failed_files.is_empty() && self.failed_registry.is_empty()
    }
}

/// The files among `found` that failed: all of them when the target could not
/// be prepared, else those whose copy did not succeed.
pub open spec fn failed_of(
    found: Seq<((Seq<char>, Option<Seq<char>>), u64, Option<(Seq<char>, Option<Seq<char>>)>)>,
    prepared: bool,
    copied: Seq<bool>,
) -> Seq<((Seq<char>, Option<Seq<char>>), u64, Option<(Seq<char>, Option<Seq<char>>)>)>
    decreases found.len(),
{
    if found.len() == 0 {
        seq![]
    } else {
        let prev = failed_of(found.drop_last(), prepared, copied.subrange(0, found.len() - 1));
        if !prepared || !copied[found.len() - 1] {
            prev.push(found.last())
        } else {
            prev
        }
    }
}

/// The outcome of backing up the files of `info`: `prepared` tells whether
/// the game's folder was made ready, `copied[i]` whether the `i`-th file was
/// copied. Registry keys are out of this count.
pub fn backup_outcome(info: &ScanInfo, prepared: bool, copied: &Vec<bool>) -> (r: BackupInfo)
    requires
        copied@.len() == info.found_files@.len(),
    ensures
        file_views(r.failed_files@) == failed_of(file_views(info.found_files@), prepared, copied@),
        r.failed_registry@.len() == 0,
{
    let mut failed: Vec<ScannedFile> = Vec::new();
    let mut i: usize = 0;
    while i < info.found_files.len()
        invariant
            i <= info.found_files@.len(),
            copied@.len() == info.found_files@.len(),
            file_views(failed@) == failed_of(
                file_views(info.found_files@).subrange(0, i as int),
                prepared,
                copied@.subrange(0, i as int),
            ),
        decreases info.found_files@.len() - i,
    {
        let ghost fv = file_views(info.found_files@);
        assert(fv.subrange(0, i + 1).drop_last() =~= fv.subrange(0, i as int));
        assert(copied@.subrange(0, i + 1).subrange(0, i as int) =~= copied@.subrange(0, i as int));
        if !prepared || !copied[i] {
            let ghost before = failed@;
            failed.push(info.found_files[i].copied());
            assert(file_views(failed@) =~= file_views(before).push(fv[i as int]));
        }
        i = i + 1;
    }
    assert(file_views(info.found_files@).subrange(0, i as int) =~= file_views(info.found_files@));
    assert(copied@.subrange(0, i as int) =~= copied@);
    BackupInfo { failed_files: failed, failed_registry: Vec::new() }
}

/// Whether a backup records the drive mapping of the game: when it found
/// something and its folder was made ready.
pub fn saves_mapping(info: &ScanInfo, prepared: bool) -> (r: bool)
    ensures
        r == ((info.found_files@.len() > 0 || info.found_registry_keys@.len() > 0) && prepared),
{
    info.found_anything() && prepared
}

/// The files of `found` that restoring failed: those with an original path
/// whose copy back did not succeed.
pub open spec fn restore_failed_of(found: Seq<ScannedFile>, copied: Seq<bool>) -> Seq<FileView>
    decreases found.len(),
{
    if found.len() == 0 {
        seq![]
    } else {
        let prev = restore_failed_of(found.drop_last(), copied.subrange(0, found.len() - 1));
        if found.last().original_path is Some && !copied[found.len() - 1] {
            prev.push(file_view(found.last()))
        } else {
            prev
        }
    }
}

/// The outcome of restoring the files of `info`: `copied[i]` tells whether the
/// `i`-th file was copied back (its value does not matter for a file without an
/// original path, which is never restored).
pub fn restore_outcome(info: &ScanInfo, copied: &Vec<bool>) -> (r: BackupInfo)
    requires
        copied@.len() == info.found_files@.len(),
    ensures
        file_views(r.failed_files@) == restore_failed_of(info.found_files@, copied@),
        r.failed_registry@.len() == 0,
{
    let mut failed: Vec<ScannedFile> = Vec::new();
    let mut i: usize = 0;
    while i < info.found_files.len()
        invariant
            i <= info.found_files@.len(),
            copied@.len() == info.found_files@.len(),
            file_views(failed@) == restore_failed_of(
                info.found_files@.subrange(0, i as int),
                copied@.subrange(0, i as int),
            ),
        decreases info.found_files@.len() - i,
    {
        assert(info.found_files@.subrange(0, i + 1).drop_last() =~= info.found_files@.subrange(0, i as int));
        assert(copied@.subrange(0, i + 1).subrange(0, i as int) =~= copied@.subrange(0, i as int));
        if info.found_files[i].original_path.is_some() && !copied[i] {
            let ghost before = failed@;
            let f = info.found_files[i].copied();
            failed.push(f);
            assert(file_views(failed@) =~= file_views(before).push(file_view(f)));
        }
        i = i + 1;
    }
    assert(info.found_files@.subrange(0, i as int) =~= info.found_files@);
    assert(copied@.subrange(0, i as int) =~= copied@);
    BackupInfo { failed_files: failed, failed_registry: Vec::new() }
}

/// Progress over a run of several games.
#[derive(Clone, Debug, Default)]
pub struct OperationStatus {
    pub total_games: usize,
    pub total_bytes: u64,
    pub processed_games: usize,
    pub processed_bytes: u64,
}

impl OperationStatus {
    pub fn clear(&mut self)
        ensures
            final(self).total_games == 0,
            final(self).total_bytes == 0,
            final(self).processed_games == 0,
            final(self).processed_bytes == 0,
    {
        self.total_games = 0;
        self.total_bytes = 0;
        self.processed_games = 0;
        self.processed_bytes = 0;
    }

    /// Counts one more game with its bytes, and as processed too when it was.
    pub fn add_game(&mut self, scan_info: &ScanInfo, backup_info: &Option<BackupInfo>, processed: bool)
        requires
            countable(*scan_info, None),
            countable(*scan_info, *backup_info),
            old(self).total_games < usize::MAX,
            old(self).total_bytes + total_size(scan_info.found_files@) <= u64::MAX,
            processed ==> old(self).processed_games < usize::MAX,
            processed ==> old(self).processed_bytes + counted_bytes(*scan_info, *backup_info)
                <= u64::MAX,
        ensures
            final(self).total_games == old(self).total_games + 1,
            final(self).total_bytes == old(self).total_bytes + total_size(scan_info.found_files@),
            final(self).processed_games == old(self).processed_games + if processed {
                1int
            } else {
                0int
            },
            final(self).processed_bytes == old(self).processed_bytes + if processed {
                counted_bytes(*scan_info, *backup_info)
            } else {
                0int
            },
    {
        self.total_games = self.total_games + 1;
        self.total_bytes = self.total_bytes + scan_info.sum_bytes(&None);
        if processed {
            self.processed_games = self.processed_games + 1;
            self.processed_bytes = self.processed_bytes + scan_info.sum_bytes(backup_info);
        }
    }

    pub fn completed(&self) -> (r: bool)
        ensures
            r == (self.total_games == self.processed_games && self.total_bytes
                == self.processed_bytes),
    {
        self.total_games == self.processed_games && self.total_bytes == self.processed_bytes
    }
}

/// What became of one game in a run.
#[derive(Clone, Copy, Debug, PartialEq, Eq, Structural)]
pub enum OperationStepDecision {
    Processed,
    Cancelled,
    Ignored,
}

impl Default for OperationStepDecision {
    fn default() -> (r: Self)
        ensures
            r == OperationStepDecision::Processed,
    {
        OperationStepDecision::Processed
    }
}

/// A rule that restores files under `source` to `target` instead.
#[derive(Clone, Debug, Default)]
pub struct RedirectConfig {
    pub source: StrictPath,
    pub target: StrictPath,
}

/// A rendered path after the redirects, in order: each whose source and target
/// are not empty and whose source begins the path so far swaps that beginning
/// for its target.
pub open spec fn apply_redirects(t: Seq<char>, rs: Seq<(Seq<char>, Seq<char>)>) -> Seq<char>
    decreases rs.len(),
{
    if rs.len() == 0 {
        t
    } else {
        let prev = apply_redirects(t, rs.drop_last());
        let s = rs.last().0;
        let g = rs.last().1;
        if s.len() > 0 && g.len() > 0 && has_prefix(prev, s) {
            g + prev.subrange(s.len() as int, prev.len() as int)
        } else {
            prev
        }
    }
}

/// Source/target pairs as character sequences.
pub open spec fn redirect_views(v: Seq<(String, String)>) -> Seq<(Seq<char>, Seq<char>)> {
    Seq::new(v.len(), |i: int| (v[i].0@, v[i].1@))
}

/// A rendered path after rendered redirects (see `apply_redirects`).
pub fn redirect_rendered(target: &str, redirects: &Vec<(String, String)>) -> (r: String)
    ensures
        r@ == apply_redirects(target@, redirect_views(redirects@)),
{
    let mut cur = chars_of(target);
    let mut i: usize = 0;
    while i < redirects.len()
        invariant
            i <= redirects@.len(),
            cur@ == apply_redirects(target@, redirect_views(redirects@).subrange(0, i as int)),
        decreases redirects@.len() - i,
    {
        let ghost rv = redirect_views(redirects@);
        assert(rv.subrange(0, i + 1).drop_last() =~= rv.subrange(0, i as int));
        let s = chars_of(redirects[i].0.as_str());
        let g = chars_of(redirects[i].1.as_str());
        if s.len() > 0 && g.len() > 0 && starts_with(cur.as_slice(), s.as_slice()) {
            let mut next = g.clone();
            assert(next@ == g@);
            let mut k = s.len();
            while k < cur.len()
                invariant
                    s@.len() <= k <= cur@.len(),
                    next@ == g@ + cur@.subrange(s@.len() as int, k as int),
                decreases cur@.len() - k,
            {
                next.push(cur[k]);
                k = k + 1;
            }
            cur = next;
        }
        i = i + 1;
    }
    assert(redirect_views(redirects@).subrange(0, i as int) =~= redirect_views(redirects@));
    string_of(cur.as_slice())
}

/// How many times copying a file back is tried before it counts as failed.
pub const RESTORE_ATTEMPTS: u64 = 99;

/// The wait before trying again after attempt `attempt` (counted from zero)
/// to copy a file back failed: it grows with the attempt and with the length
/// of the game's name, up to the largest `u64`.
pub open spec fn retry_wait(attempt: u64, name_len: u64) -> u64 {
    if attempt * name_len > u64::MAX { u64::MAX } else { (attempt * name_len) as u64 }
}

/// What follows a failed attempt to copy a file back: wait this many
/// milliseconds and try again, or (`None`) give the file up once every
/// attempt is spent.
pub fn restore_retry(attempt: u64, name_len: u64) -> (r: Option<u64>)
    ensures
        attempt + 1 < RESTORE_ATTEMPTS ==> r == Some(retry_wait(attempt, name_len)),
        attempt + 1 >= RESTORE_ATTEMPTS ==> r is None,
{
    if attempt >= RESTORE_ATTEMPTS - 1 {
        return None;
    }
    if name_len != 0 && attempt > u64::MAX / name_len {
        proof {
            assert(attempt * name_len > u64::MAX) by (nonlinear_arith)
                requires
                    name_len != 0,
                    attempt > u64::MAX / name_len,
            ;
        }
        Some(u64::MAX)
    } else {
        proof {
            if name_len != 0 {
                assert(attempt * name_len <= u64::MAX) by (nonlinear_arith)
                    requires
                        name_len != 0,
                        attempt <= u64::MAX / name_len,
                ;
            } else {
                assert(attempt * name_len == 0) by (nonlinear_arith)
                    requires
                        name_len == 0,
                ;
            }
        }
        Some(attempt * name_len)
    }
}

/// Whether `x` is a rendering of the path `p`.
pub open spec fn rendering_of(p: StrictPath, x: Seq<char>) -> bool {
    exists|i: Seq<char>| #[trigger] interpretation(p.raw_view(), p.basis_view(), i) && x == rendered(i)
}

/// Whether `r` is where a file backed up from `original` goes back to, given
/// the rendering `x` of `original` and the renderings `rs` of the redirects:
/// the redirected text, with the original target beside it, when a redirect
/// changed the rendering; else the original target alone.
pub open spec fn restoration_target_of(
    original: StrictPath,
    x: Seq<char>,
    rs: Seq<(Seq<char>, Seq<char>)>,
    r: (StrictPath, Option<StrictPath>),
) -> bool {
    if apply_redirects(x, rs) != x {
        &&& r.0.raw_view() == apply_redirects(x, rs)
        &&& r.0.basis_view() == None::<Seq<char>>
        &&& r.1 matches Some(o) && path_view(o) == path_view(original)
    } else {
        &&& path_view(r.0) == path_view(original)
        &&& r.1 is None
    }
}

/// Whether `rs` renders each redirect of `redirects`, source and target.
pub open spec fn redirects_rendered(redirects: Seq<RedirectConfig>, rs: Seq<(Seq<char>, Seq<char>)>) -> bool {
    &&& rs.len() == redirects.len()
    &&& forall|k: int|
        0 <= k < rs.len() ==> rendering_of(redirects[k].source, #[trigger] rs[k].0) && rendering_of(
            redirects[k].target,
            rs[k].1,
        )
}

/// Where a file backed up from `original_target` goes back to, and the
/// original target too when a redirect moved it.
pub fn game_file_restoration_target(original_target: &StrictPath, redirects: &[RedirectConfig]) -> (r: (
    StrictPath,
    Option<StrictPath>,
))
    ensures
        exists|x: Seq<char>, rs: Seq<(Seq<char>, Seq<char>)>|
            rendering_of(*original_target, x) && redirects_rendered(redirects@, rs)
                && #[trigger] restoration_target_of(*original_target, x, rs, r),
{
    let rendered_target = original_target.render();
    let mut pairs: Vec<(String, String)> = Vec::new();
    let mut i: usize = 0;
    while i < redirects.len()
        invariant
            i <= redirects@.len(),
            pairs@.len() == i,
            forall|k: int|
                0 <= k < i ==> rendering_of(redirects@[k].source, #[trigger] redirect_views(pairs@)[k].0)
                    && rendering_of(redirects@[k].target, redirect_views(pairs@)[k].1),
        decreases redirects@.len() - i,
    {
        let s = redirects[i].source.render();
        let t = redirects[i].target.render();
        let ghost before = pairs@;
        pairs.push((s, t));
        proof {
            assert forall|k: int| 0 <= k < i + 1 implies rendering_of(
                redirects@[k].source,
                #[trigger] redirect_views(pairs@)[k].0,
            ) && rendering_of(redirects@[k].target, redirect_views(pairs@)[k].1) by {
                if k < i {
                    assert(redirect_views(pairs@)[k] == redirect_views(before)[k]);
                }
            }
        }
        i = i + 1;
    }
    let redirected = redirect_rendered(rendered_target.as_str(), &pairs);
    let ghost x = rendered_target@;
    let ghost rs = redirect_views(pairs@);
    assert(rendering_of(*original_target, x));
    assert(rs.len() == redirects@.len());
    assert forall|k: int| 0 <= k < rs.len() implies rendering_of(redirects@[k].source, #[trigger] rs[k].0)
        && rendering_of(redirects@[k].target, rs[k].1) by {
        assert(rs[k] == redirect_views(pairs@)[k]);
    }
    assert(redirects_rendered(redirects@, rs));
    if !same_text(rendered_target.as_str(), redirected.as_str()) {
        let r = (StrictPath::new(redirected), Some(original_target.copied()));
        assert(restoration_target_of(*original_target, x, rs, r));
        r
    } else {
        let r = (original_target.copied(), None);
        assert(restoration_target_of(*original_target, x, rs, r));
        r
    }
}


/// The store that laid out a root's games.
#[derive(Clone, Copy, Debug, PartialEq, Eq, Structural)]
pub enum Store {
    Steam,
    Other,
}

/// A folder under which games are installed, with the store it belongs to.
#[derive(Clone, Debug)]
pub struct RootsConfig {
    pub path: StrictPath,
    pub store: Store,
}

/// A game's entry in the manifest: its path templates, the names of its
/// install folders, and its registry keys.
#[derive(Clone, Debug, Default)]
pub struct Game {
    pub files: Option<Vec<String>>,
    pub install_dir: Option<Vec<String>>,
    pub registry: Option<Vec<String>>,
}

/// The marker of a placeholder that means nothing here; a path holding it is
/// never scanned.
pub open spec fn skip_marker() -> Seq<char> {
    "<skip>"@
}

/// What each placeholder of a path template stands for.
#[derive(Clone, Debug)]
pub struct Substitutions {
    pub root: String,
    pub game: String,
    pub base: String,
    pub home: String,
    pub store_user_id: String,
    pub os_user_name: String,
    pub win_app_data: String,
    pub win_local_app_data: String,
    pub win_documents: String,
    pub win_public: String,
    pub win_program_data: String,
    pub win_dir: String,
    pub xdg_data: String,
    pub xdg_config: String,
}

/// A path template with each placeholder replaced, in a fixed order.
#[verifier::opaque]
pub open spec fn substituted(t: Seq<char>, s: Substitutions) -> Seq<char> {
    let a = replace_all(t, "<root>"@, s.root@);
    let a = replace_all(a, "<game>"@, s.game@);
    let a = replace_all(a, "<base>"@, s.base@);
    let a = replace_all(a, "<home>"@, s.home@);
    let a = replace_all(a, "<storeUserId>"@, s.store_user_id@);
    let a = replace_all(a, "<osUserName>"@, s.os_user_name@);
    let a = replace_all(a, "<winAppData>"@, s.win_app_data@);
    let a = replace_all(a, "<winLocalAppData>"@, s.win_local_app_data@);
    let a = replace_all(a, "<winDocuments>"@, s.win_documents@);
    let a = replace_all(a, "<winPublic>"@, s.win_public@);
    let a = replace_all(a, "<winProgramData>"@, s.win_program_data@);
    let a = replace_all(a, "<winDir>"@, s.win_dir@);
    let a = replace_all(a, "<xdgData>"@, s.xdg_data@);
    let a = replace_all(a, "<xdgConfig>"@, s.xdg_config@);
    let a = replace_all(a, "<regHkcu>"@, skip_marker());
    replace_all(a, "<regHklm>"@, skip_marker())
}

fn replace_placeholder(t: String, placeholder: &str, value: &str) -> (r: String)
    requires
        placeholder@.len() > 0,
    ensures
        r@ == replace_all(t@, placeholder@, value@),
{
    replace_str(t.as_str(), placeholder, value)
}

/// A path template with each placeholder replaced (see `substituted`).
pub fn substitute(template: &str, s: &Substitutions) -> (r: String)
    ensures
        r@ == substituted(template@, *s),
{
    proof {
        reveal(substituted);
        reveal_strlit("<root>");
        reveal_strlit("<game>");
        reveal_strlit("<base>");
        reveal_strlit("<home>");
        reveal_strlit("<storeUserId>");
        reveal_strlit("<osUserName>");
        reveal_strlit("<winAppData>");
        reveal_strlit("<winLocalAppData>");
        reveal_strlit("<winDocuments>");
        reveal_strlit("<winPublic>");
        reveal_strlit("<winProgramData>");
        reveal_strlit("<winDir>");
        reveal_strlit("<xdgData>");
        reveal_strlit("<xdgConfig>");
        reveal_strlit("<regHkcu>");
        reveal_strlit("<regHklm>");
    }
    let a = replace_str(template, "<root>", s.root.as_str());
    let a = replace_placeholder(a, "<game>", s.game.as_str());
    let a = replace_placeholder(a, "<base>", s.base.as_str());
    let a = replace_placeholder(a, "<home>", s.home.as_str());
    let a = replace_placeholder(a, "<storeUserId>", s.store_user_id.as_str());
    let a = replace_placeholder(a, "<osUserName>", s.os_user_name.as_str());
    let a = replace_placeholder(a, "<winAppData>", s.win_app_data.as_str());
    let a = replace_placeholder(a, "<winLocalAppData>", s.win_local_app_data.as_str());
    let a = replace_placeholder(a, "<winDocuments>", s.win_documents.as_str());
    let a = replace_placeholder(a, "<winPublic>", s.win_public.as_str());
    let a = replace_placeholder(a, "<winProgramData>", s.win_program_data.as_str());
    let a = replace_placeholder(a, "<winDir>", s.win_dir.as_str());
    let a = replace_placeholder(a, "<xdgData>", s.xdg_data.as_str());
    let a = replace_placeholder(a, "<xdgConfig>", s.xdg_config.as_str());
    let a = replace_placeholder(a, "<regHkcu>", "<skip>");
    replace_placeholder(a, "<regHklm>", "<skip>")
}

/// The directories of the user and the machine that templates may name, each
/// already `<skip>` where it does not apply.
#[derive(Clone, Debug)]
pub struct TemplateEnv {
    pub home: String,
    pub os_user_name: String,
    pub win_app_data: String,
    pub win_local_app_data: String,
    pub win_documents: String,
    pub win_public: String,
    pub win_program_data: String,
    pub win_dir: String,
    pub xdg_data: String,
    pub xdg_config: String,
}

/// Relies on dirs::data_dir: the user's data directory, when known.
#[verifier::external_body]
fn data_dir_text() -> Option<String> {
    dirs::data_dir().map(|p| p.to_string_lossy().into_owned())
}

/// Relies on dirs::data_local_dir: the user's local data directory, when known.
#[verifier::external_body]
fn data_local_dir_text() -> Option<String> {
    dirs::data_local_dir().map(|p| p.to_string_lossy().into_owned())
}

/// Relies on dirs::document_dir: the user's documents directory, when known.
#[verifier::external_body]
fn document_dir_text() -> Option<String> {
    dirs::document_dir().map(|p| p.to_string_lossy().into_owned())
}

/// Relies on dirs::public_dir: the user's public directory, when known.
#[verifier::external_body]
fn public_dir_text() -> Option<String> {
    dirs::public_dir().map(|p| p.to_string_lossy().into_owned())
}

/// Relies on dirs::config_dir: the user's configuration directory, when known.
#[verifier::external_body]
fn config_dir_text() -> Option<String> {
    dirs::config_dir().map(|p| p.to_string_lossy().into_owned())
}

/// Relies on whoami::username: the name of the user running the program.
#[verifier::external_body]
fn user_name() -> String {
    whoami::username()
}

fn skip_text() -> (r: String)
    ensures
        r@ == skip_marker(),
{
    "<skip>".to_owned()
}

/// A directory when known, else the skip marker.
pub fn check_path(path: Option<String>) -> (r: String)
    ensures
        r@ == match path {
            Some(p) => p@,
            None => skip_marker(),
        },
{
    match path {
        Some(p) => p,
        None => skip_text(),
    }
}

/// A Windows directory: the skip marker on other systems.
pub fn check_windows_path(os: Os, path: Option<String>) -> (r: String)
    ensures
        os != Os::Windows ==> r@ == skip_marker(),
        os == Os::Windows ==> r@ == match path {
            Some(p) => p@,
            None => skip_marker(),
        },
{
    match os {
        Os::Windows => check_path(path),
        _ => skip_text(),
    }
}

/// A directory of systems other than Windows: the skip marker on Windows.
pub fn check_nonwindows_path(os: Os, path: Option<String>) -> (r: String)
    ensures
        os == Os::Windows ==> r@ == skip_marker(),
        os != Os::Windows ==> r@ == match path {
            Some(p) => p@,
            None => skip_marker(),
        },
{
    match os {
        Os::Windows => skip_text(),
        _ => check_path(path),
    }
}

/// Whether `env` fits `os`: the Windows folders are the skip marker on other
/// systems, and the XDG folders are the skip marker on Windows.
pub open spec fn env_for(os: Os, env: TemplateEnv) -> bool {
    &&& os != Os::Windows ==> env.win_app_data@ == skip_marker() && env.win_local_app_data@
        == skip_marker() && env.win_documents@ == skip_marker() && env.win_public@
        == skip_marker() && env.win_program_data@ == skip_marker() && env.win_dir@
        == skip_marker()
    &&& os == Os::Windows ==> env.xdg_data@ == skip_marker() && env.xdg_config@ == skip_marker()
}

impl TemplateEnv {
    /// The directories of this user and machine, for `os`.
    pub fn current(os: Os) -> (r: Self)
        ensures
            env_for(os, r),
    {
        TemplateEnv {
            home: check_path(home_dir()),
            os_user_name: user_name(),
            win_app_data: check_windows_path(os, data_dir_text()),
            win_local_app_data: check_windows_path(os, data_local_dir_text()),
            win_documents: check_windows_path(os, document_dir_text()),
            win_public: check_windows_path(os, public_dir_text()),
            win_program_data: check_windows_path(os, Some("C:/Windows/ProgramData".to_owned())),
            win_dir: check_windows_path(os, Some("C:/Windows".to_owned())),
            xdg_data: check_nonwindows_path(os, data_dir_text()),
            xdg_config: check_nonwindows_path(os, config_dir_text()),
        }
    }
}

/// Three texts one after the other.
pub fn join3(a: &str, b: &str, c: &str) -> (r: String)
    ensures
        r@ == a@ + b@ + c@,
{
    let mut v = chars_of(a);
    let bv = chars_of(b);
    let cv = chars_of(c);
    push_all(&mut v, bv.as_slice());
    push_all(&mut v, cv.as_slice());
    string_of(v.as_slice())
}

/// The install folder of a game under a root: below `steamapps/common` for Steam.
pub open spec fn base_dir(root: Seq<char>, store: Store, install: Seq<char>) -> Seq<char> {
    match store {
        Store::Steam => root + "/steamapps/common/"@ + install,
        Store::Other => root + "/"@ + install,
    }
}

/// Whether `s` is what a template means under `root` (interpreted) for the
/// install folder `install` on this machine.
pub open spec fn native_substitutions(
    root: Seq<char>,
    store: Store,
    install: Seq<char>,
    env: TemplateEnv,
    s: Substitutions,
) -> bool {
    &&& s.root@ == root
    &&& s.game@ == install
    &&& s.base@ == base_dir(root, store, install)
    &&& s.home@ == env.home@
    &&& s.store_user_id@ == match store {
        Store::Steam => "[0-9]*"@,
        Store::Other => "*"@,
    }
    &&& s.os_user_name@ == env.os_user_name@
    &&& s.win_app_data@ == env.win_app_data@
    &&& s.win_local_app_data@ == env.win_local_app_data@
    &&& s.win_documents@ == env.win_documents@
    &&& s.win_public@ == env.win_public@
    &&& s.win_program_data@ == env.win_program_data@
    &&& s.win_dir@ == env.win_dir@
    &&& s.xdg_data@ == env.xdg_data@
    &&& s.xdg_config@ == env.xdg_config@
}

/// The Windows prefix that Steam's compatibility layer keeps for a title.
pub open spec fn proton_prefix(root: Seq<char>, id: Seq<char>) -> Seq<char> {
    root + "/steamapps/compatdata/"@ + id + "/pfx/drive_c"@
}

/// Whether `s` is what a template means inside the compatibility prefix of
/// the Steam title `id` (in decimal) under `root`.
pub open spec fn proton_substitutions(
    root: Seq<char>,
    install: Seq<char>,
    id: Seq<char>,
    env: TemplateEnv,
    s: Substitutions,
) -> bool {
    let prefix = proton_prefix(root, id);
    &&& s.root@ == root
    &&& s.game@ == install
    &&& s.base@ == base_dir(root, Store::Steam, install)
    &&& s.home@ == prefix + "/users/steamuser"@
    &&& s.store_user_id@ == "*"@
    &&& s.os_user_name@ == "steamuser"@
    &&& s.win_app_data@ == prefix + "/users/steamuser/Application Data"@
    &&& s.win_local_app_data@ == prefix + "/users/steamuser/Application Data"@
    &&& s.win_documents@ == prefix + "/users/steamuser/My Documents"@
    &&& s.win_public@ == prefix + "/users/Public"@
    &&& s.win_program_data@ == prefix + "/ProgramData"@
    &&& s.win_dir@ == prefix + "/windows"@
    &&& s.xdg_data@ == env.xdg_data@
    &&& s.xdg_config@ == env.xdg_config@
}

impl Substitutions {
    /// The substitutions under `root` (interpreted) for `install` on this machine.
    pub fn native(root: &str, store: Store, install: &str, env: &TemplateEnv) -> (r: Self)
        ensures
            native_substitutions(root@, store, install@, *env, r),
    {
        let base = match store {
            Store::Steam => join3(root, "/steamapps/common/", install),
            Store::Other => join3(root, "/", install),
        };
        Substitutions {
            root: root.to_owned(),
            game: install.to_owned(),
            base,
            home: env.home.clone(),
            store_user_id: match store {
                Store::Steam => "[0-9]*".to_owned(),
                Store::Other => "*".to_owned(),
            },
            os_user_name: env.os_user_name.clone(),
            win_app_data: env.win_app_data.clone(),
            win_local_app_data: env.win_local_app_data.clone(),
            win_documents: env.win_documents.clone(),
            win_public: env.win_public.clone(),
            win_program_data: env.win_program_data.clone(),
            win_dir: env.win_dir.clone(),
            xdg_data: env.xdg_data.clone(),
            xdg_config: env.xdg_config.clone(),
        }
    }

    /// The substitutions inside the compatibility prefix of the Steam title
    /// `steam_id` under `root` (interpreted) for `install`.
    pub fn proton(root: &str, install: &str, steam_id: u32, env: &TemplateEnv) -> (r: Self)
        ensures
            proton_substitutions(root@, install@, decimal(steam_id as nat), *env, r),
    {
        let idv = decimal_of(steam_id);
        let id = string_of(idv.as_slice());
        let head = join3(root, "/steamapps/compatdata/", id.as_str());
        let prefix = join3(head.as_str(), "/pfx/drive_c", "");
        let steamuser = join3(prefix.as_str(), "/users/steamuser", "");
        let app_data = join3(prefix.as_str(), "/users/steamuser/Application Data", "");
        let local_app_data = join3(prefix.as_str(), "/users/steamuser/Application Data", "");
        proof {
            reveal_strlit("");
            assert(prefix@ =~= proton_prefix(root@, id@));
            assert(steamuser@ =~= prefix@ + "/users/steamuser"@);
            assert(app_data@ =~= prefix@ + "/users/steamuser/Application Data"@);
            assert(local_app_data@ =~= prefix@ + "/users/steamuser/Application Data"@);
        }
        let documents = join3(prefix.as_str(), "/users/steamuser/My Documents", "");
        let public = join3(prefix.as_str(), "/users/Public", "");
        let program_data = join3(prefix.as_str(), "/ProgramData", "");
        let windows = join3(prefix.as_str(), "/windows", "");
        assert(documents@ =~= prefix@ + "/users/steamuser/My Documents"@);
        assert(public@ =~= prefix@ + "/users/Public"@);
        assert(program_data@ =~= prefix@ + "/ProgramData"@);
        assert(windows@ =~= prefix@ + "/windows"@);
        Substitutions {
            root: root.to_owned(),
            game: install.to_owned(),
            base: join3(root, "/steamapps/common/", install),
            home: steamuser,
            store_user_id: "*".to_owned(),
            os_user_name: "steamuser".to_owned(),
            win_app_data: app_data,
            win_local_app_data: local_app_data,
            win_documents: documents,
            win_public: public,
            win_program_data: program_data,
            win_dir: windows,
            xdg_data: env.xdg_data.clone(),
            xdg_config: env.xdg_config.clone(),
        }
    }
}


/// Whether `c` is a candidate path for template `t` under `root`
/// (interpreted) and install folder `install`: the template as this machine
/// reads it, or, for a Steam title on Linux, as its compatibility prefix reads it.
pub open spec fn template_candidate(
    t: Seq<char>,
    root: Seq<char>,
    store: Store,
    install: Seq<char>,
    os: Os,
    steam_id: Option<u32>,
    env: TemplateEnv,
    c: Seq<char>,
) -> bool {
    (exists|s: Substitutions| #[trigger] native_substitutions(root, store, install, env, s) && c == substituted(t, s))
    || (os == Os::Linux && store == Store::Steam && steam_id is Some && exists|s: Substitutions|
        #[trigger] proton_substitutions(root, install, decimal(steam_id->0 as nat), env, s) && c
            == substituted(t, s))
}

/// Strings seen as character sequences.
pub open spec fn text_views(v: Seq<String>) -> Seq<Seq<char>> {
    Seq::new(v.len(), |i: int| v[i]@)
}

/// No two texts of `s` are equal.
pub open spec fn distinct_texts(s: Seq<Seq<char>>) -> bool {
    forall|i: int, j: int| 0 <= i < j < s.len() ==> #[trigger] s[i] != #[trigger] s[j]
}

/// Adds `t` unless an equal text is there already.
pub fn push_unique(v: &mut Vec<String>, t: String)
    requires
        distinct_texts(text_views(old(v)@)),
    ensures
        distinct_texts(text_views(final(v)@)),
        text_views(final(v)@).contains(t@),
        forall|x: Seq<char>| #[trigger] text_views(old(v)@).contains(x) ==> text_views(final(v)@).contains(x),
        forall|x: Seq<char>| #[trigger] text_views(final(v)@).contains(x) ==> text_views(old(v)@).contains(x) || x == t@,
{
    let ghost before = text_views(v@);
    let mut i: usize = 0;
    while i < v.len()
        invariant
            distinct_texts(text_views(v@)),
            text_views(v@) == before,
            i <= v@.len(),
            forall|j: int| 0 <= j < i ==> v@[j]@ != t@,
        decreases v@.len() - i,
    {
        if same_text(v[i].as_str(), t.as_str()) {
            assert(text_views(v@)[i as int] == t@);
            return;
        }
        i = i + 1;
    }
    v.push(t);
    assert(text_views(v@) =~= before.push(t@));
    assert forall|a: int, b: int| 0 <= a < b < text_views(v@).len() implies #[trigger] text_views(v@)[a] != #[trigger] text_views(v@)[b] by {
        if b == before.len() {
            assert(text_views(v@)[a] == before[a]);
            assert(v@[a]@ != t@);
        } else {
            assert(text_views(v@)[a] == before[a] && text_views(v@)[b] == before[b]);
        }
    }
    assert(text_views(v@)[before.len() as int] == t@);
    assert forall|x: Seq<char>| #[trigger] before.contains(x) implies text_views(v@).contains(x) by {
        let k = choose|k: int| 0 <= k < before.len() && before[k] == x;
        assert(text_views(v@)[k] == x);
    }
    assert forall|x: Seq<char>| #[trigger] text_views(v@).contains(x) implies before.contains(x) || x == t@ by {
        let k = choose|k: int| 0 <= k < text_views(v@).len() && text_views(v@)[k] == x;
        if k < before.len() {
            assert(before[k] == x);
        }
    }
}

fn add_candidates(
    texts: &mut Vec<String>,
    path: &str,
    root_text: &str,
    store: Store,
    install: &str,
    os: Os,
    steam_id: &Option<u32>,
    env: &TemplateEnv,
)
    requires
        distinct_texts(text_views(old(texts)@)),
    ensures
        distinct_texts(text_views(final(texts)@)),
        required_present(path@, root_text@, store, install@, os, *steam_id, *env, text_views(final(texts)@)),
        forall|x: Seq<char>| #[trigger] text_views(old(texts)@).contains(x) ==> text_views(final(texts)@).contains(x),
        forall|x: Seq<char>| #[trigger] text_views(final(texts)@).contains(x) ==> text_views(old(texts)@).contains(x) || template_candidate(path@, root_text@, store, install@, os, *steam_id, *env, x),
{
    let s = Substitutions::native(root_text, store, install, env);
    let c = substitute(path, &s);
    let ghost cv = c@;
    push_unique(texts, c);
    assert(template_candidate(path@, root_text@, store, install@, os, *steam_id, *env, cv));
    if os == Os::Linux && store == Store::Steam {
        match steam_id {
            Some(id) => {
                let ghost t1 = text_views(texts@);
                let p = Substitutions::proton(root_text, install, *id, env);
                let c2 = substitute(path, &p);
                assert(template_candidate(path@, root_text@, store, install@, os, *steam_id, *env, c2@));
                push_unique(texts, c2);
                assert(t1.contains(cv));
                assert(text_views(texts@).contains(substituted(path@, p)));
            },
            None => {},
        }
    }
}

/// Whether `r` holds the candidate paths for template `t` under `root` for each
/// install folder, each read against the interpreted manifest folder `b`:
/// every one is a candidate, and the native candidate of every folder is there.
pub open spec fn candidates_of(
    t: Seq<char>,
    root: Seq<char>,
    store: Store,
    installs: Seq<Seq<char>>,
    os: Os,
    steam_id: Option<u32>,
    env: TemplateEnv,
    b: Seq<char>,
    r: Seq<StrictPath>,
) -> bool {
    &&& forall|k: int| 0 <= k < r.len() ==> (#[trigger] r[k]).basis_view() == Some(b)
    &&& forall|k: int| 0 <= k < r.len() ==> #[trigger] candidate_for_some(t, root, store, installs, os, steam_id, env, r[k].raw_view())
    &&& forall|j: int| 0 <= j < installs.len() ==> #[trigger] native_listed(t, root, store, installs[j], env, r)
    &&& (os == Os::Linux && store == Store::Steam && steam_id is Some) ==> forall|j: int|
        0 <= j < installs.len() ==> #[trigger] proton_listed(t, root, installs[j], steam_id->0, env, r)
}

/// Whether `texts` holds candidates for the first `n` install folders only,
/// and the native candidate of each of them.
#[verifier::opaque]
pub open spec fn gathered(
    t: Seq<char>,
    root: Seq<char>,
    store: Store,
    installs: Seq<Seq<char>>,
    n: int,
    os: Os,
    steam_id: Option<u32>,
    env: TemplateEnv,
    texts: Seq<Seq<char>>,
) -> bool {
    &&& forall|x: Seq<char>| #[trigger] texts.contains(x) ==> exists|j: int| 0 <= j < n && template_candidate(t, root, store, #[trigger] installs[j], os, steam_id, env, x)
    &&& forall|j: int| 0 <= j < n ==> #[trigger] required_present(t, root, store, installs[j], os, steam_id, env, texts)
}

/// Whether `c` is a candidate for one of the install folders.
pub open spec fn candidate_for_some(
    t: Seq<char>,
    root: Seq<char>,
    store: Store,
    installs: Seq<Seq<char>>,
    os: Os,
    steam_id: Option<u32>,
    env: TemplateEnv,
    c: Seq<char>,
) -> bool {
    exists|j: int| 0 <= j < installs.len() && template_candidate(t, root, store, #[trigger] installs[j], os, steam_id, env, c)
}

/// Whether `texts` holds the native candidate of `install`.
pub open spec fn native_present(
    t: Seq<char>,
    root: Seq<char>,
    store: Store,
    install: Seq<char>,
    env: TemplateEnv,
    texts: Seq<Seq<char>>,
) -> bool {
    exists|s: Substitutions| #[trigger] native_substitutions(root, store, install, env, s) && texts.contains(substituted(t, s))
}

/// Whether `texts` holds every candidate that `install` must give: the native
/// one, and for a Steam title on Linux the one of its compatibility prefix.
pub open spec fn required_present(
    t: Seq<char>,
    root: Seq<char>,
    store: Store,
    install: Seq<char>,
    os: Os,
    steam_id: Option<u32>,
    env: TemplateEnv,
    texts: Seq<Seq<char>>,
) -> bool {
    &&& native_present(t, root, store, install, env, texts)
    &&& (os == Os::Linux && store == Store::Steam && steam_id is Some) ==> exists|s: Substitutions|
        #[trigger] proton_substitutions(root, install, decimal(steam_id->0 as nat), env, s)
            && texts.contains(substituted(t, s))
}

/// Whether some path of `r` has the candidate of `install` inside its Steam
/// compatibility prefix as its text.
pub open spec fn proton_listed(
    t: Seq<char>,
    root: Seq<char>,
    install: Seq<char>,
    id: u32,
    env: TemplateEnv,
    r: Seq<StrictPath>,
) -> bool {
    exists|s: Substitutions| #[trigger] proton_substitutions(root, install, decimal(id as nat), env, s) && exists|k: int| 0 <= k < r.len() && #[trigger] r[k].raw_view() == substituted(t, s)
}

/// Whether some path of `r` has the native candidate of `install` as its text.
pub open spec fn native_listed(
    t: Seq<char>,
    root: Seq<char>,
    store: Store,
    install: Seq<char>,
    env: TemplateEnv,
    r: Seq<StrictPath>,
) -> bool {
    exists|s: Substitutions| #[trigger] native_substitutions(root, store, install, env, s) && exists|k: int| 0 <= k < r.len() && #[trigger] r[k].raw_view() == substituted(t, s)
}

proof fn lemma_gathered_start(
    t: Seq<char>,
    root: Seq<char>,
    store: Store,
    installs: Seq<Seq<char>>,
    os: Os,
    steam_id: Option<u32>,
    env: TemplateEnv,
)
    ensures
        gathered(t, root, store, installs, 0, os, steam_id, env, Seq::empty()),
{
    reveal(gathered);
}

proof fn lemma_gathered_step(
    t: Seq<char>,
    root: Seq<char>,
    store: Store,
    installs: Seq<Seq<char>>,
    n: int,
    os: Os,
    steam_id: Option<u32>,
    env: TemplateEnv,
    t0: Seq<Seq<char>>,
    t1: Seq<Seq<char>>,
)
    requires
        0 <= n < installs.len(),
        gathered(t, root, store, installs, n, os, steam_id, env, t0),
        required_present(t, root, store, installs[n], os, steam_id, env, t1),
        forall|x: Seq<char>| #[trigger] t0.contains(x) ==> t1.contains(x),
        forall|x: Seq<char>| #[trigger] t1.contains(x) ==> t0.contains(x) || template_candidate(t, root, store, installs[n], os, steam_id, env, x),
    ensures
        gathered(t, root, store, installs, n + 1, os, steam_id, env, t1),
{
    reveal(gathered);
    assert forall|x: Seq<char>| #[trigger] t1.contains(x) implies exists|j: int| 0 <= j < n + 1 && template_candidate(t, root, store, #[trigger] installs[j], os, steam_id, env, x) by {
        if !t0.contains(x) {
            assert(template_candidate(t, root, store, installs[n], os, steam_id, env, x));
        }
    }
    assert forall|j: int| 0 <= j < n + 1 implies #[trigger] required_present(t, root, store, installs[j], os, steam_id, env, t1) by {
        if j < n {
            assert(required_present(t, root, store, installs[j], os, steam_id, env, t0));
            let s = choose|s: Substitutions| #[trigger] native_substitutions(root, store, installs[j], env, s) && t0.contains(substituted(t, s));
            assert(t1.contains(substituted(t, s)));
            if os == Os::Linux && store == Store::Steam && steam_id is Some {
                let p = choose|p: Substitutions| #[trigger] proton_substitutions(root, installs[j], decimal(steam_id->0 as nat), env, p) && t0.contains(substituted(t, p));
                assert(t1.contains(substituted(t, p)));
            }
        }
    }
}

proof fn lemma_gathered_paths(
    t: Seq<char>,
    root: Seq<char>,
    store: Store,
    installs: Seq<Seq<char>>,
    os: Os,
    steam_id: Option<u32>,
    env: TemplateEnv,
    texts: Seq<Seq<char>>,
    b: Seq<char>,
    r: Seq<StrictPath>,
)
    requires
        gathered(t, root, store, installs, installs.len() as int, os, steam_id, env, texts),
        r.len() == texts.len(),
        forall|m: int| 0 <= m < r.len() ==> (#[trigger] r[m]).basis_view() == Some(b) && r[m].raw_view() == texts[m],
    ensures
        candidates_of(t, root, store, installs, os, steam_id, env, b, r),
{
    reveal(gathered);
    assert forall|m: int| 0 <= m < r.len() implies #[trigger] candidate_for_some(t, root, store, installs, os, steam_id, env, r[m].raw_view()) by {
        assert(texts.contains(texts[m]));
    }
    assert forall|j: int| 0 <= j < installs.len() implies #[trigger] native_listed(t, root, store, installs[j], env, r) by {
        assert(required_present(t, root, store, installs[j], os, steam_id, env, texts));
        let s = choose|s: Substitutions| #[trigger] native_substitutions(root, store, installs[j], env, s) && texts.contains(substituted(t, s));
        let m = choose|m: int| 0 <= m < texts.len() && texts[m] == substituted(t, s);
        assert(r[m].raw_view() == substituted(t, s));
    }
    if os == Os::Linux && store == Store::Steam && steam_id is Some {
        assert forall|j: int| 0 <= j < installs.len() implies #[trigger] proton_listed(t, root, installs[j], steam_id->0, env, r) by {
            assert(required_present(t, root, store, installs[j], os, steam_id, env, texts));
            let p = choose|p: Substitutions| #[trigger] proton_substitutions(root, installs[j], decimal(steam_id->0 as nat), env, p) && texts.contains(substituted(t, p));
            let m = choose|m: int| 0 <= m < texts.len() && texts[m] == substituted(t, p);
            assert(r[m].raw_view() == substituted(t, p));
        }
    }
}

/// The candidate paths for a path template under a root, one or two per
/// install folder, read against the manifest folder.
pub fn parse_paths(
    path: &str,
    root: &RootsConfig,
    install_dirs: &Vec<String>,
    steam_id: &Option<u32>,
    manifest_dir: &StrictPath,
) -> (r: Vec<StrictPath>)
    ensures
        exists|os: Os| #[trigger] parse_paths_result(path@, *root, install_dirs@, *steam_id, *manifest_dir, os, r@),
{
    let os = get_os();
    parse_paths_on(path, root, install_dirs, steam_id, manifest_dir, os)
}

/// Whether `r` holds the candidate paths on `os` for template `t` under `root`
/// for the install folders `installs`, read against `manifest_dir`: with the
/// user's folders of `os`, the root and manifest folder interpreted on `os`,
/// every path a candidate, every required candidate present, none twice.
pub open spec fn parse_paths_result(
    t: Seq<char>,
    root: RootsConfig,
    installs: Seq<String>,
    steam_id: Option<u32>,
    manifest_dir: StrictPath,
    os: Os,
    r: Seq<StrictPath>,
) -> bool {
    &&& exists|env: TemplateEnv, root_text: Seq<char>, b: Seq<char>|
        env_for(os, env) && interpretation_on(root.path.raw_view(), root.path.basis_view(), os, root_text) && interpretation_on(
            manifest_dir.raw_view(),
            manifest_dir.basis_view(),
            os,
            b,
        ) && #[trigger] candidates_of(t, root_text, root.store, text_views(installs), os, steam_id, env, b, r)
    &&& forall|a: int, b: int| 0 <= a < b < r.len() ==> #[trigger] r[a].raw_view() != #[trigger] r[b].raw_view()
}

/// The candidate paths on `os` (see `parse_paths_result`).
pub fn parse_paths_on(
    path: &str,
    root: &RootsConfig,
    install_dirs: &Vec<String>,
    steam_id: &Option<u32>,
    manifest_dir: &StrictPath,
    os: Os,
) -> (r: Vec<StrictPath>)
    ensures
        parse_paths_result(path@, *root, install_dirs@, *steam_id, *manifest_dir, os, r@),
{
    let env = TemplateEnv::current(os);
    let root_text = root.path.interpret_on(os);
    let ghost installs = text_views(install_dirs@);
    let mut texts: Vec<String> = Vec::new();
    proof {
        lemma_gathered_start(path@, root_text@, root.store, installs, os, *steam_id, env);
        assert(text_views(texts@) =~= Seq::<Seq<char>>::empty());
    }
    let mut i: usize = 0;
    while i < install_dirs.len()
        invariant
            i <= install_dirs@.len(),
            installs == text_views(install_dirs@),
            gathered(path@, root_text@, root.store, installs, i as int, os, *steam_id, env, text_views(texts@)),
            distinct_texts(text_views(texts@)),
        decreases install_dirs@.len() - i,
    {
        let ghost t0 = text_views(texts@);
        add_candidates(&mut texts, path, root_text.as_str(), root.store, install_dirs[i].as_str(), os, steam_id, &env);
        proof {
            assert(installs[i as int] == install_dirs@[i as int]@);
            lemma_gathered_step(path@, root_text@, root.store, installs, i as int, os, *steam_id, env, t0, text_views(texts@));
        }
        i = i + 1;
    }
    let basis = manifest_dir.interpret_on(os);
    let mut r: Vec<StrictPath> = Vec::new();
    let mut k: usize = 0;
    while k < texts.len()
        invariant
            k <= texts@.len(),
            r@.len() == k,
            forall|m: int| 0 <= m < k ==> (#[trigger] r@[m]).basis_view() == Some(basis@) && r@[m].raw_view() == text_views(texts@)[m],
            distinct_texts(text_views(texts@)),
        decreases texts@.len() - k,
    {
        r.push(StrictPath::relative(texts[k].clone(), Some(basis.clone())));
        k = k + 1;
    }
    proof {
        lemma_gathered_paths(path@, root_text@, root.store, installs, os, *steam_id, env, text_views(texts@), basis@, r@);
        assert forall|a: int, b: int| 0 <= a < b < r@.len() implies #[trigger] r@[a].raw_view() != #[trigger] r@[b].raw_view() by {
            assert(text_views(texts@)[a] != text_views(texts@)[b]);
        }
    }
    r
}


/// Whether `c` is Unicode white space (the `White_Space` property).
pub open spec fn is_white_space(c: char) -> bool {
    ('\u{9}' <= c <= '\u{d}') || c == ' ' || c == '\u{85}' || c == '\u{a0}' || c == '\u{1680}'
        || ('\u{2000}' <= c <= '\u{200a}') || c == '\u{2028}' || c == '\u{2029}' || c
        == '\u{202f}' || c == '\u{205f}' || c == '\u{3000}'
}

/// Whether a text counts as blank: nothing but white space.
pub open spec fn blank_text(s: Seq<char>) -> bool {
    forall|i: int| 0 <= i < s.len() ==> is_white_space(#[trigger] s[i])
}

/// Whether a text is blank: empty once white space is trimmed from it.
pub fn is_blank(s: &str) -> (r: bool)
    ensures
        r == blank_text(s@),
{
    let v = chars_of(s);
    let mut i: usize = 0;
    while i < v.len()
        invariant
            v@ == s@,
            i <= v@.len(),
            forall|j: int| 0 <= j < i ==> is_white_space(#[trigger] v@[j]),
        decreases v@.len() - i,
    {
        let c = v[i];
        let white = ('\u{9}' <= c && c <= '\u{d}') || c == ' ' || c == '\u{85}' || c == '\u{a0}'
            || c == '\u{1680}' || ('\u{2000}' <= c && c <= '\u{200a}') || c == '\u{2028}' || c
            == '\u{2029}' || c == '\u{202f}' || c == '\u{205f}' || c == '\u{3000}';
        if !white {
            assert(!is_white_space(v@[i as int]));
            return false;
        }
        i = i + 1;
    }
    true
}

/// Relies on glob::glob_with: the readable paths that match a pattern under
/// the given matching options; `None` when the pattern is not valid.
#[verifier::external_body]
fn glob_matches(
    pattern: &str,
    case_sensitive: bool,
    require_literal_separator: bool,
    require_literal_leading_dot: bool,
) -> Option<Vec<String>> {
    let options = glob::MatchOptions {
        case_sensitive,
        require_literal_separator,
        require_literal_leading_dot,
    };
    glob::glob_with(pattern, options).ok().map(
        |paths| paths.filter_map(|e| e.ok()).map(|p| p.to_string_lossy().into_owned()).collect(),
    )
}

/// Relies on std::path::Path::metadata: the length of a file, zero when its
/// metadata cannot be read.
#[verifier::external_body]
fn file_len(path: &str) -> u64 {
    std::path::Path::new(path).metadata().map(|m| m.len()).unwrap_or(0)
}

/// Whether the skip marker occurs in `s`.
pub open spec fn holds_skip(s: Seq<char>) -> bool {
    exists|i: int| 0 <= i && i + skip_marker().len() <= s.len() && #[trigger] s.subrange(i, i + skip_marker().len()) == skip_marker()
}

fn contains_skip(s: &str) -> (r: bool)
    ensures
        r == holds_skip(s@),
{
    let v = chars_of(s);
    let m = chars_of("<skip>");
    let mut i: usize = 0;
    while i < v.len()
        invariant
            v@ == s@,
            m@ == skip_marker(),
            i <= v@.len(),
            forall|j: int| 0 <= j < i && j + m@.len() <= v@.len() ==> #[trigger] v@.subrange(j, j + m@.len()) != m@,
        decreases v@.len() - i,
    {
        if occurs_at(v.as_slice(), i, m.as_slice()) {
            return true;
        }
        i = i + 1;
    }
    assert forall|j: int| 0 <= j && j + m@.len() <= v@.len() implies #[trigger] v@.subrange(j, j + m@.len()) != m@ by {
        reveal_strlit("<skip>");
        assert(j < v@.len());
    }
    false
}

/// A path with its backslashes turned into slashes.
pub fn reslashed(path: &str) -> (r: String)
    ensures
        r@ == swap_char(path@, '\\', '/'),
{
    let v = chars_of(path);
    let w = swap_chars(v.as_slice(), '\\', '/');
    string_of(w.as_slice())
}

/// No two files of `s` hold the same paths and size.
pub open spec fn distinct_files(s: Seq<ScannedFile>) -> bool {
    forall|i: int, j: int| 0 <= i < j < s.len() ==> file_view(#[trigger] s[i]) != file_view(#[trigger] s[j])
}

/// Whether each file of `s` is where a scan found it: no original path.
pub open spec fn all_found_in_place(s: Seq<ScannedFile>) -> bool {
    forall|i: int| 0 <= i < s.len() ==> (#[trigger] s[i]).original_path is None
}

fn same_file(a: &ScannedFile, b: &ScannedFile) -> (r: bool)
    ensures
        r == (file_view(*a) == file_view(*b)),
{
    let originals = match (&a.original_path, &b.original_path) {
        (Some(x), Some(y)) => x.same_as(y),
        (None, None) => true,
        _ => false,
    };
    a.path.same_as(&b.path) && a.size == b.size && originals
}

/// `s` with `v` added at the end unless it is there already.
pub open spec fn add_unique(s: Seq<FileView>, v: FileView) -> Seq<FileView> {
    if s.contains(v) { s } else { s.push(v) }
}

fn add_found(found: &mut Vec<ScannedFile>, f: ScannedFile)
    requires
        distinct_files(old(found)@),
        all_found_in_place(old(found)@),
        f.original_path is None,
    ensures
        distinct_files(final(found)@),
        all_found_in_place(final(found)@),
        file_views(final(found)@) == add_unique(file_views(old(found)@), file_view(f)),
{
    let ghost fv0 = file_views(found@);
    let mut i: usize = 0;
    let mut present = false;
    while i < found.len() && !present
        invariant
            i <= found@.len(),
            present ==> i < found@.len() && file_view(found@[i as int]) == file_view(f),
            !present ==> forall|j: int| 0 <= j < i ==> file_view(found@[j]) != file_view(f),
        decreases found@.len() - i + if present { 0int } else { 1int },
    {
        if same_file(&found[i], &f) {
            present = true;
        } else {
            i = i + 1;
        }
    }
    if !present {
        let ghost before = found@;
        assert(!fv0.contains(file_view(f))) by {
            if fv0.contains(file_view(f)) {
                let j = choose|j: int| 0 <= j < fv0.len() && fv0[j] == file_view(f);
                assert(file_view(before[j]) != file_view(f));
            }
        }
        found.push(f);
        assert(file_views(found@) =~= fv0.push(file_view(f)));
        assert forall|x: int, y: int| 0 <= x < y < found@.len() implies file_view(#[trigger] found@[x])
            != file_view(#[trigger] found@[y]) by {
            if y < before.len() {
                assert(found@[x] == before[x] && found@[y] == before[y]);
            } else {
                assert(found@[x] == before[x]);
            }
        }
        assert forall|x: int| 0 <= x < found@.len() implies (#[trigger] found@[x]).original_path is None by {
            if x < before.len() {
                assert(found@[x] == before[x]);
            }
        }
    } else {
        assert(fv0[i as int] == file_view(f));
        assert(fv0.contains(file_view(f)));
    }
}

fn add_path(paths: &mut Vec<StrictPath>, p: StrictPath)
    ensures
        final(paths)@ == old(paths)@ || final(paths)@ == old(paths)@.push(p),
{
    let mut i: usize = 0;
    let mut present = false;
    while i < paths.len() && !present
        decreases paths@.len() - i + if present { 0int } else { 1int },
    {
        if paths[i].same_as(&p) {
            present = true;
        } else {
            i = i + 1;
        }
    }
    if !present {
        paths.push(p);
    }
}

fn copy_texts(v: &Vec<String>) -> (r: Vec<String>)
    ensures
        text_views(r@) == text_views(v@),
{
    let mut r: Vec<String> = Vec::new();
    let mut i: usize = 0;
    while i < v.len()
        invariant
            i <= v@.len(),
            text_views(r@) == text_views(v@).subrange(0, i as int),
        decreases v@.len() - i,
    {
        let t = v[i].clone();
        assert(t@ == v@[i as int]@);
        let ghost before = r@;
        r.push(t);
        assert(text_views(r@) =~= text_views(before).push(t@));
        assert(text_views(r@) =~= text_views(v@).subrange(0, i + 1));
        i = i + 1;
    }
    assert(text_views(v@).subrange(0, i as int) =~= text_views(v@));
    r
}

/// A path that a glob pattern matched: whether it is a regular file or a
/// directory, its length, and for a directory the entries walked below it.
pub struct GlobMatch {
    pub path: String,
    pub is_file: bool,
    pub is_dir: bool,
    pub size: u64,
    pub children: Vec<WalkEntry>,
}

/// A file found by a scan at `path` with `size` bytes, with slashes only.
pub open spec fn found_view(path: Seq<char>, size: u64) -> FileView {
    ((swap_char(path, '\\', '/'), None), size, None)
}

/// `acc` with the regular files among walked `entries` added.
pub open spec fn children_found(acc: Seq<FileView>, entries: Seq<WalkEntry>) -> Seq<FileView>
    decreases entries.len(),
{
    if entries.len() == 0 {
        acc
    } else {
        let prev = children_found(acc, entries.drop_last());
        let e = entries.last();
        if e.is_file {
            add_unique(prev, found_view(e.path@, e.size))
        } else {
            prev
        }
    }
}

/// The files found from glob matches, in order and without repeats: a matched
/// regular file, or the regular files walked below a matched directory.
pub open spec fn found_listing(ms: Seq<GlobMatch>) -> Seq<FileView>
    decreases ms.len(),
{
    if ms.len() == 0 {
        seq![]
    } else {
        let prev = found_listing(ms.drop_last());
        let m = ms.last();
        if m.is_file {
            add_unique(prev, found_view(m.path@, m.size))
        } else if m.is_dir {
            children_found(prev, m.children@)
        } else {
            prev
        }
    }
}

/// The files found from glob matches (see `found_listing`).
pub fn found_from_matches(matches: &Vec<GlobMatch>) -> (r: Vec<ScannedFile>)
    ensures
        file_views(r@) == found_listing(matches@),
        distinct_files(r@),
        all_found_in_place(r@),
{
    let mut found: Vec<ScannedFile> = Vec::new();
    assert(file_views(found@) =~= Seq::<FileView>::empty());
    let mut i: usize = 0;
    while i < matches.len()
        invariant
            i <= matches@.len(),
            distinct_files(found@),
            all_found_in_place(found@),
            file_views(found@) == found_listing(matches@.subrange(0, i as int)),
        decreases matches@.len() - i,
    {
        assert(matches@.subrange(0, i + 1).drop_last() =~= matches@.subrange(0, i as int));
        let m = &matches[i];
        if m.is_file {
            let f = ScannedFile { path: StrictPath::new(reslashed(m.path.as_str())), size: m.size, original_path: None };
            add_found(&mut found, f);
        } else if m.is_dir {
            let ghost acc = file_views(found@);
            let mut c: usize = 0;
            while c < m.children.len()
                invariant
                    c <= m.children@.len(),
                    distinct_files(found@),
                    all_found_in_place(found@),
                    file_views(found@) == children_found(acc, m.children@.subrange(0, c as int)),
                decreases m.children@.len() - c,
            {
                assert(m.children@.subrange(0, c + 1).drop_last() =~= m.children@.subrange(0, c as int));
                if m.children[c].is_file {
                    let f = ScannedFile {
                        path: StrictPath::new(reslashed(m.children[c].path.as_str())),
                        size: m.children[c].size,
                        original_path: None,
                    };
                    add_found(&mut found, f);
                }
                c = c + 1;
            }
            assert(m.children@.subrange(0, c as int) =~= m.children@);
        }
        i = i + 1;
    }
    assert(matches@.subrange(0, i as int) =~= matches@);
    found
}

/// Whether `c` can be a glob pattern of a game without a Steam title whose
/// path templates are `files`: it holds no skip marker and is a candidate on
/// `os` of one of the non-blank templates, with the user's folders of `os`.
pub open spec fn pattern_sound(files: Seq<String>, os: Os, c: Seq<char>) -> bool {
    &&& !holds_skip(c)
    &&& exists|b: int, root: Seq<char>, store: Store, install: Seq<char>, env: TemplateEnv|
        0 <= b < files.len() && !blank_text(files[b]@) && env_for(os, env)
            && #[trigger] template_candidate(files[b]@, root, store, install, os, None, env, c)
}

/// Whether `r` can be the glob patterns on `os` of `game`: without a Steam
/// title each is a candidate of one of its templates without the skip marker,
/// and a game without templates has none.
pub open spec fn backup_patterns_result(game: Game, steam_id: Option<u32>, os: Os, r: Seq<StrictPath>) -> bool {
    &&& steam_id is None ==> forall|k: int|
        0 <= k < r.len() ==> (game.files matches Some(f) && pattern_sound(f@, os, #[trigger] r[k].raw_view()))
    &&& (game.files is None && steam_id is None) ==> r.len() == 0
}

proof fn lemma_candidate_sound(
    files: Seq<String>,
    bi: int,
    root: RootsConfig,
    installs: Seq<String>,
    manifest_dir: StrictPath,
    os: Os,
    r: Seq<StrictPath>,
    k: int,
)
    requires
        0 <= bi < files.len(),
        !blank_text(files[bi]@),
        parse_paths_result(files[bi]@, root, installs, None, manifest_dir, os, r),
        0 <= k < r.len(),
        !holds_skip(r[k].raw_view()),
    ensures
        pattern_sound(files, os, r[k].raw_view()),
{
    let t = files[bi]@;
    let (env, rt, mb) = choose|env: TemplateEnv, rt: Seq<char>, mb: Seq<char>|
        env_for(os, env) && interpretation_on(root.path.raw_view(), root.path.basis_view(), os, rt)
            && interpretation_on(manifest_dir.raw_view(), manifest_dir.basis_view(), os, mb)
            && #[trigger] candidates_of(t, rt, root.store, text_views(installs), os, None, env, mb, r);
    assert(candidate_for_some(t, rt, root.store, text_views(installs), os, None, env, r[k].raw_view()));
    let j = choose|j: int| 0 <= j < text_views(installs).len() && template_candidate(t, rt, root.store, #[trigger] text_views(installs)[j], os, None, env, r[k].raw_view());
    assert(template_candidate(files[bi]@, rt, root.store, text_views(installs)[j], os, None, env, r[k].raw_view()));
}

/// The glob patterns to scan for a game: each candidate of each non-blank path
/// template under each non-blank root (and under no root at all) that holds no
/// skip marker, plus Steam's cloud saves, screenshots and registry exports of
/// the title.
pub fn backup_patterns(
    game: &Game,
    name: &str,
    roots: &Vec<RootsConfig>,
    manifest_dir: &StrictPath,
    steam_id: &Option<u32>,
) -> (r: Vec<StrictPath>)
    ensures
        exists|os: Os| #[trigger] backup_patterns_result(*game, *steam_id, os, r@),
{
    let os = get_os();
    backup_patterns_on(game, name, roots, manifest_dir, steam_id, os)
}

/// The glob patterns to scan for a game on `os` (see `backup_patterns`).
pub fn backup_patterns_on(
    game: &Game,
    name: &str,
    roots: &Vec<RootsConfig>,
    manifest_dir: &StrictPath,
    steam_id: &Option<u32>,
    os: Os,
) -> (r: Vec<StrictPath>)
    ensures
        backup_patterns_result(*game, *steam_id, os, r@),
{
    let mut roots_to_check: Vec<RootsConfig> = Vec::new();
    roots_to_check.push(RootsConfig { path: StrictPath::new(skip_text()), store: Store::Other });
    let mut n: usize = 0;
    while n < roots.len()
        decreases roots@.len() - n,
    {
        roots_to_check.push(RootsConfig { path: roots[n].path.copied(), store: roots[n].store });
        n = n + 1;
    }
    let manifest_text = manifest_dir.interpret_on(os);
    let mut paths_to_check: Vec<StrictPath> = Vec::new();
    let mut a: usize = 0;
    while a < roots_to_check.len()
        invariant
            backup_patterns_result(*game, *steam_id, os, paths_to_check@),
        decreases roots_to_check@.len() - a,
    {
        let root = &roots_to_check[a];
        let root_raw = root.path.raw();
        if !is_blank(root_raw.as_str()) {
            match &game.files {
                Some(files) => {
                    let install_dirs = match &game.install_dir {
                        Some(x) => copy_texts(x),
                        None => vec![name.to_owned()],
                    };
                    let mut b: usize = 0;
                    while b < files.len()
                        invariant
                            game.files == Some(*files),
                            backup_patterns_result(*game, *steam_id, os, paths_to_check@),
                        decreases files@.len() - b,
                    {
                        if !is_blank(files[b].as_str()) {
                            let candidates = parse_paths_on(files[b].as_str(), root, &install_dirs, steam_id, manifest_dir, os);
                            let mut c: usize = 0;
                            while c < candidates.len()
                                invariant
                                    game.files == Some(*files),
                                    b < files@.len(),
                                    !blank_text(files@[b as int]@),
                                    parse_paths_result(files@[b as int]@, *root, install_dirs@, *steam_id, *manifest_dir, os, candidates@),
                                    backup_patterns_result(*game, *steam_id, os, paths_to_check@),
                                decreases candidates@.len() - c,
                            {
                                let raw = candidates[c].raw();
                                if !contains_skip(raw.as_str()) {
                                    let cand = candidates[c].copied();
                                    let ghost before = paths_to_check@;
                                    proof {
                                        if steam_id is None {
                                            lemma_candidate_sound(files@, b as int, *root, install_dirs@, *manifest_dir, os, candidates@, c as int);
                                        }
                                    }
                                    add_path(&mut paths_to_check, cand);
                                    assert forall|k: int| 0 <= k < paths_to_check@.len() && steam_id is None implies (game.files matches Some(f) && pattern_sound(f@, os, #[trigger] paths_to_check@[k].raw_view())) by {
                                        if k < before.len() {
                                            assert(paths_to_check@[k] == before[k]);
                                        }
                                    }
                                }
                                c = c + 1;
                            }
                        }
                        b = b + 1;
                    }
                },
                None => {},
            }
            match steam_id {
                Some(id) => {
                    if root.store == Store::Steam {
                        let root_text = root.path.interpret_on(os);
                        let idv = decimal_of(*id);
                        let id_text = string_of(idv.as_slice());
                        let cloud = join3(root_text.as_str(), "/userdata/*/", id_text.as_str());
                        let cloud = join3(cloud.as_str(), "/remote/", "");
                        add_path(&mut paths_to_check, StrictPath::relative(cloud, Some(manifest_text.clone())));
                        let shots = join3(root_text.as_str(), "/userdata/*/760/remote/", id_text.as_str());
                        let shots = join3(shots.as_str(), "/screenshots/*.*", "");
                        add_path(&mut paths_to_check, StrictPath::relative(shots, Some(manifest_text.clone())));
                        if game.registry.is_some() {
                            let reg = join3(root_text.as_str(), "/steamapps/compatdata/", id_text.as_str());
                            let reg = join3(reg.as_str(), "/pfx", "/*.reg");
                            add_path(&mut paths_to_check, StrictPath::relative(reg, Some(manifest_text.clone())));
                        }
                    }
                },
                None => {},
            }
        }
        a = a + 1;
    }
    paths_to_check
}

/// The matches of all patterns, one pattern's after another's.
pub open spec fn flatten(parts: Seq<Seq<GlobMatch>>) -> Seq<GlobMatch>
    decreases parts.len(),
{
    if parts.len() == 0 {
        seq![]
    } else {
        flatten(parts.drop_last()) + parts.last()
    }
}

/// Whether `r` is what a backup scan of `game` on `os` can find: the game's
/// name, no registry data, distinct files where they were found, and exactly
/// the files that some glob matches of the game's patterns give, one list of
/// matches per pattern.
pub open spec fn backup_scan_result(game: Game, name: Seq<char>, steam_id: Option<u32>, os: Os, r: ScanInfo) -> bool {
    &&& r.game_name@ == name
    &&& r.found_registry_keys@.len() == 0
    &&& r.registry_file is None
    &&& distinct_files(r.found_files@)
    &&& all_found_in_place(r.found_files@)
    &&& exists|pats: Seq<StrictPath>, parts: Seq<Seq<GlobMatch>>|
        #![trigger backup_patterns_result(game, steam_id, os, pats), flatten(parts)]
        backup_patterns_result(game, steam_id, os, pats) && parts.len() == pats.len()
            && found_listing(flatten(parts)) == file_views(r.found_files@)
}

/// Scans for the files of a game to back up: the patterns of `backup_patterns`
/// matched against the file system, with directories walked 100 levels deep.
pub fn scan_game_for_backup(
    game: &Game,
    name: &str,
    roots: &Vec<RootsConfig>,
    manifest_dir: &StrictPath,
    steam_id: &Option<u32>,
) -> (r: ScanInfo)
    ensures
        exists|os: Os| #[trigger] backup_scan_result(*game, name@, *steam_id, os, r),
{
    let os = get_os();
    scan_game_for_backup_on(game, name, roots, manifest_dir, steam_id, os)
}

/// Scans for the files of a game to back up on `os` (see `backup_scan_result`).
pub fn scan_game_for_backup_on(
    game: &Game,
    name: &str,
    roots: &Vec<RootsConfig>,
    manifest_dir: &StrictPath,
    steam_id: &Option<u32>,
    os: Os,
) -> (r: ScanInfo)
    ensures
        backup_scan_result(*game, name@, *steam_id, os, r),
{
    let paths_to_check = backup_patterns_on(game, name, roots, manifest_dir, steam_id, os);
    let case_sensitive = !(os == Os::Windows || os == Os::Mac);
    let mut matches: Vec<GlobMatch> = Vec::new();
    let ghost mut parts: Seq<Seq<GlobMatch>> = Seq::empty();
    let mut p: usize = 0;
    while p < paths_to_check.len()
        invariant
            p <= paths_to_check@.len(),
            parts.len() == p,
            matches@ == flatten(parts),
        decreases paths_to_check@.len() - p,
    {
        let ghost before = matches@;
        let pattern = paths_to_check[p].render_on(os);
        match glob_matches(pattern.as_str(), case_sensitive, true, false) {
            None => {},
            Some(entries) => {
                let mut e: usize = 0;
                while e < entries.len()
                    invariant
                        before.len() <= matches@.len(),
                        matches@.subrange(0, before.len() as int) == before,
                    decreases entries@.len() - e,
                {
                    let plain = entries[e].as_str();
                    let is_file = path_is_file(plain);
                    let is_dir = !is_file && path_is_dir(plain);
                    let ghost m0 = matches@;
                    matches.push(GlobMatch {
                        path: entries[e].clone(),
                        is_file,
                        is_dir,
                        size: if is_file { file_len(plain) } else { 0 },
                        children: if is_dir { walk(plain, 100, true) } else { Vec::new() },
                    });
                    assert(matches@.subrange(0, before.len() as int) =~= m0.subrange(0, before.len() as int));
                    e = e + 1;
                }
            },
        }
        proof {
            let cur = matches@.subrange(before.len() as int, matches@.len() as int);
            assert(parts.push(cur).drop_last() =~= parts);
            assert(before + cur =~= matches@);
            parts = parts.push(cur);
        }
        p = p + 1;
    }
    let found = found_from_matches(&matches);
    ScanInfo { game_name: name.to_owned(), found_files: found, found_registry_keys: Vec::new(), registry_file: None }
}

/// Scans a game's backup for the files to restore, each with where it came from.
pub fn scan_game_for_restoration(name: &str, layout: &BackupLayout) -> (r: ScanInfo)
    ensures
        r.game_name@ == name@,
        r.found_registry_keys@.len() == 0,
        r.registry_file is None,
        exists|dirs: Seq<WalkEntry>, contents: Seq<Vec<WalkEntry>>|
            dirs.len() == contents.len() && #[trigger] restorable_listing(
                layout.mapping,
                name@,
                dirs,
                contents,
            ) == file_views(r.found_files@),
{
    let target_game = layout.game_folder(name);
    let found_files = if target_game.is_dir() {
        layout.restorable_files(name, &target_game)
    } else {
        let none: Vec<ScannedFile> = Vec::new();
        assert(restorable_listing(layout.mapping, name@, Seq::empty(), Seq::empty()) =~= file_views(none@));
        none
    };
    ScanInfo { game_name: name.to_owned(), found_files, found_registry_keys: Vec::new(), registry_file: None }
}

} // verus!
