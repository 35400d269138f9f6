//! The backup layout: per-game drive tokens, game folders and archive placement.
use vstd::prelude::*;
use crate::path::{
    drive_split_of, drive_split_on, get_os, interpretation, interpretation_on, joined_of, Os,
    StrictPath,
};
use crate::prelude::{file_view, file_views, ScannedFile};
use crate::text::{chars_of, has_prefix, push_all, same_text, starts_with, string_of};

verus! {

/// The decimal digit for `d` (below ten).
pub open spec fn digit_char(d: nat) -> char {
    seq!['0', '1', '2', '3', '4', '5', '6', '7', '8', '9'][d as int]
}

/// The decimal notation of `n`, without leading zeros.
pub open spec fn decimal(n: nat) -> Seq<char>
    decreases n,
{
    if n < 10 {
        seq![digit_char(n)]
    } else {
        decimal(n / 10).push(digit_char(n % 10))
    }
}

/// The drive token with number `n`: `drive-<n>`.
pub open spec fn token(n: nat) -> Seq<char> {
    seq!['d', 'r', 'i', 'v', 'e', '-'] + decimal(n)
}

/// The highest token number that is ever allocated.
pub open spec fn last_allocated() -> nat {
    4294967294
}

fn digit(d: u32) -> (r: char)
    requires
        d < 10,
    ensures
        r == digit_char(d as nat),
{
    let t = vec!['0', '1', '2', '3', '4', '5', '6', '7', '8', '9'];
    assert(t@ =~= seq!['0', '1', '2', '3', '4', '5', '6', '7', '8', '9']);
    t[d as usize]
}

/// The decimal notation of `n`.
pub fn decimal_of(n: u32) -> (r: Vec<char>)
    ensures
        r@ == decimal(n as nat),
    decreases n,
{
    if n < 10 {
        let r = vec![digit(n)];
        assert(r@ =~= seq![digit_char(n as nat)]);
        r
    } else {
        let mut r = decimal_of(n / 10);
        r.push(digit(n % 10));
        r
    }
}

fn token_of(n: u32) -> (r: String)
    ensures
        r@ == token(n as nat),
{
    let mut v = chars_of("drive-");
    proof {
        reveal_strlit("drive-");
    }
    let d = decimal_of(n);
    push_all(&mut v, d.as_slice());
    assert(v@ =~= token(n as nat));
    string_of(v.as_slice())
}

/// Token/drive pairs as character sequences.
pub open spec fn pair_views(v: Seq<(String, String)>) -> Seq<(Seq<char>, Seq<char>)> {
    Seq::new(v.len(), |i: int| (v[i].0@, v[i].1@))
}

/// Whether `k` is a token of `e`.
pub open spec fn has_token(e: Seq<(Seq<char>, Seq<char>)>, k: Seq<char>) -> bool {
    exists|i: int| 0 <= i < e.len() && #[trigger] e[i].0 == k
}

/// No token appears twice in `e`.
pub open spec fn tokens_unique(e: Seq<(Seq<char>, Seq<char>)>) -> bool {
    forall|i: int, j: int| 0 <= i < j < e.len() ==> #[trigger] e[i].0 != #[trigger] e[j].0
}

/// Whether entry `i` is the first whose drive is `d`.
pub open spec fn first_with_drive(e: Seq<(Seq<char>, Seq<char>)>, d: Seq<char>, i: int) -> bool {
    0 <= i < e.len() && e[i].1 == d && forall|j: int| 0 <= j < i ==> #[trigger] e[j].1 != d
}

/// Whether `k` is the first token of `e` found for key `k`: entry `i` is the
/// first whose token is `k`.
pub open spec fn first_with_token(e: Seq<(Seq<char>, Seq<char>)>, k: Seq<char>, i: int) -> bool {
    0 <= i < e.len() && e[i].0 == k && forall|j: int| 0 <= j < i ==> #[trigger] e[j].0 != k
}

/// Whether `n` is the lowest token number that `e` does not use yet.
pub open spec fn lowest_free(e: Seq<(Seq<char>, Seq<char>)>, n: nat) -> bool {
    1 <= n <= last_allocated() && !has_token(e, token(n)) && forall|m: nat|
        1 <= m < n ==> has_token(e, #[trigger] token(m))
}

/// Whether every token number up to the last one is in use.
pub open spec fn exhausted(e: Seq<(Seq<char>, Seq<char>)>) -> bool {
    forall|n: nat| 1 <= n <= last_allocated() ==> has_token(e, #[trigger] token(n))
}

/// What asking for the token of drive `d` does: the entries go from `e` to `e2`
/// and the token `t` comes back. A known drive keeps its first token; a new
/// drive takes the lowest free token number; with none left (which takes more
/// than four billion drives), `drive-4294967295` comes back and nothing is
/// recorded.
pub open spec fn drive_token_step(
    e: Seq<(Seq<char>, Seq<char>)>,
    d: Seq<char>,
    t: Seq<char>,
    e2: Seq<(Seq<char>, Seq<char>)>,
) -> bool {
    if exists|i: int| first_with_drive(e, d, i) {
        let i = choose|i: int| first_with_drive(e, d, i);
        t == e[i].0 && e2 == e
    } else if exhausted(e) {
        t == token(last_allocated() + 1) && e2 == e
    } else {
        let n = choose|n: nat| lowest_free(e, n);
        t == token(n) && e2 == e.push((token(n), d))
    }
}

/// The drives of one game's backup, under portable tokens.
#[derive(Clone, Debug, Default)]
pub struct IndividualMapping {
    pub name: String,
    /// Token/drive pairs, in the order the tokens were given out.
    pub drives: Vec<(String, String)>,
}

impl IndividualMapping {
    /// Token/drive pairs as character sequences.
    pub open spec fn entries(&self) -> Seq<(Seq<char>, Seq<char>)> {
        pair_views(self.drives@)
    }

    /// No token appears twice.
    pub open spec fn wf(&self) -> bool {
        tokens_unique(self.entries())
    }

    pub fn new(name: String) -> (r: Self)
        ensures
            r.name@ == name@,
            r.entries() == Seq::<(Seq<char>, Seq<char>)>::empty(),
            r.wf(),
    {
        let r = IndividualMapping { name, drives: Vec::new() };
        assert(r.entries() =~= Seq::<(Seq<char>, Seq<char>)>::empty());
        r
    }

    fn find_drive(&self, drive: &str) -> (r: Option<usize>)
        ensures
            match r {
                Some(i) => first_with_drive(self.entries(), drive@, i as int),
                None => forall|i: int| 0 <= i < self.entries().len() ==> self.entries()[i].1 != drive@,
            },
    {
        let mut i: usize = 0;
        while i < self.drives.len()
            invariant
                i <= self.drives@.len(),
                forall|j: int| 0 <= j < i ==> #[trigger] self.entries()[j].1 != drive@,
            decreases self.drives@.len() - i,
        {
            if same_text(self.drives[i].1.as_str(), drive) {
                return Some(i);
            }
            i = i + 1;
        }
        None
    }

    fn find_token(&self, key: &str) -> (r: bool)
        ensures
            r == has_token(self.entries(), key@),
    {
        let mut i: usize = 0;
        while i < self.drives.len()
            invariant
                i <= self.drives@.len(),
                forall|j: int| 0 <= j < i ==> #[trigger] self.entries()[j].0 != key@,
            decreases self.drives@.len() - i,
        {
            if same_text(self.drives[i].0.as_str(), key) {
                assert(self.entries()[i as int].0 == key@);
                return true;
            }
            i = i + 1;
        }
        false
    }

    /// The token for a drive: its existing one, or the lowest free `drive-<n>`,
    /// which is then recorded.
    pub fn drive_folder_name(&mut self, drive: &str) -> (r: String)
        requires
            old(self).wf(),
        ensures
            final(self).wf(),
            final(self).name == old(self).name,
            drive_token_step(old(self).entries(), drive@, r@, final(self).entries()),
    {
        let ghost e = self.entries();
        let ghost name0 = self.name;
        match self.find_drive(drive) {
            Some(i) => {
                proof {
                    let k = choose|k: int| first_with_drive(e, drive@, k);
                    if k < i {
                        assert(e[k].1 != drive@);
                    } else if i < k {
                        assert(e[i as int].1 != drive@);
                    }
                }
                return self.drives[i].0.clone();
            },
            None => {},
        }
        let mut n: u32 = 1;
        let mut free = false;
        while !free && n <= 4294967294
            invariant
                1 <= n <= 4294967295,
                free ==> n <= 4294967294 && !has_token(e, token(n as nat)),
                !free ==> forall|m: nat| 1 <= m < n ==> has_token(e, #[trigger] token(m)),
                self.entries() == e,
                forall|m: nat| 1 <= m < n ==> has_token(e, #[trigger] token(m)),
            decreases 4294967295 - n + if free { 0int } else { 1int },
        {
            let key = token_of(n);
            if !self.find_token(key.as_str()) {
                free = true;
            } else {
                n = n + 1;
            }
        }
        if !free {
            assert(exhausted(e));
            return token_of(4294967295);
        }
        let key = token_of(n);
        self.drives.push((key.clone(), drive.to_owned()));
        proof {
            assert(lowest_free(e, n as nat));
            assert(!exhausted(e)) by {
                assert(!has_token(e, token(n as nat)));
            }
            let c = choose|c: nat| lowest_free(e, c);
            if c < n {
                assert(has_token(e, token(c)));
            } else if n < c {
                assert(has_token(e, token(n as nat)));
            }
            assert(self.entries() =~= e.push((token(n as nat), drive@)));
            assert forall|i: int, j: int|
                0 <= i < j < self.entries().len() implies #[trigger] self.entries()[i].0
                != #[trigger] self.entries()[j].0 by {
                if j == e.len() {
                    assert(e[i].0 == self.entries()[i].0);
                }
            }
        }
        key
    }
}

/// A game known from an earlier backup: its drive tokens and its folder.
#[derive(Clone, Debug, Default)]
pub struct OverallMappingGame {
    pub drives: Vec<(String, String)>,
    pub base: StrictPath,
}

/// The games found in a backup folder, each under the name it was backed up as.
#[derive(Clone, Debug, Default)]
pub struct OverallMapping {
    pub games: Vec<(String, OverallMappingGame)>,
}

/// Whether entry `i` of `names` is the first equal to `n`.
pub open spec fn first_named(names: Seq<Seq<char>>, n: Seq<char>, i: int) -> bool {
    0 <= i < names.len() && names[i] == n && forall|j: int| 0 <= j < i ==> #[trigger] names[j] != n
}

impl OverallMapping {
    /// The game names, in order.
    pub open spec fn names(&self) -> Seq<Seq<char>> {
        Seq::new(self.games@.len(), |i: int| self.games@[i].0@)
    }

    pub fn new() -> (r: Self)
        ensures
            r.names() == Seq::<Seq<char>>::empty(),
    {
        let r = OverallMapping { games: Vec::new() };
        assert(r.names() =~= Seq::<Seq<char>>::empty());
        r
    }

    /// The position of the first game with this name.
    pub fn find(&self, name: &str) -> (r: Option<usize>)
        ensures
            match r {
                Some(i) => first_named(self.names(), name@, i as int),
                None => !self.names().contains(name@),
            },
    {
        let mut i: usize = 0;
        while i < self.games.len()
            invariant
                i <= self.games@.len(),
                forall|j: int| 0 <= j < i ==> #[trigger] self.names()[j] != name@,
            decreases self.games@.len() - i,
        {
            if same_text(self.games[i].0.as_str(), name) {
                return Some(i);
            }
            i = i + 1;
        }
        assert(!self.names().contains(name@)) by {
            if self.names().contains(name@) {
                let k = choose|k: int| 0 <= k < self.names().len() && self.names()[k] == name@;
                assert(self.names()[k] != name@);
            }
        }
        None
    }

    /// Records a game read from its own mapping, found in the folder `base`.
    /// A later game of the same name takes the place of an earlier one.
    pub fn add(&mut self, mapping: IndividualMapping, base: StrictPath)
        ensures
            final(self).names().contains(mapping.name@),
            forall|n: Seq<char>| #[trigger] old(self).names().contains(n) ==> final(self).names().contains(n),
            forall|n: Seq<char>|
                #[trigger] final(self).names().contains(n) ==> old(self).names().contains(n) || n
                    == mapping.name@,
            forall|i: int|
                first_named(final(self).names(), mapping.name@, i) ==> (#[trigger] final(self).games@[i]).1.base
                    == base && final(self).games@[i].1.drives@ == mapping.drives@,
    {
        let ghost names0 = self.names();
        let name = mapping.name;
        let game = OverallMappingGame { drives: mapping.drives, base };
        match self.find(name.as_str()) {
            Some(i) => {
                self.games.set(i, (name, game));
                assert(self.names() =~= names0);
                assert forall|k: int| first_named(self.names(), name@, k) implies k == i by {
                    if k < i {
                        assert(names0[k] != name@);
                    } else if i < k {
                        assert(self.names()[i as int] != name@);
                    }
                }
            },
            None => {
                self.games.push((name, game));
                assert(self.names() =~= names0.push(name@));
                assert(self.names()[names0.len() as int] == name@);
                assert forall|k: int| first_named(self.names(), name@, k) implies k == names0.len() by {
                    if k < names0.len() {
                        assert(names0[k] == name@);
                        assert(names0.contains(name@));
                    }
                }
                assert forall|n: Seq<char>| #[trigger] names0.contains(n) implies self.names().contains(n) by {
                    let k = choose|k: int| 0 <= k < names0.len() && names0[k] == n;
                    assert(self.names()[k] == n);
                }
                assert forall|n: Seq<char>| #[trigger] self.names().contains(n) implies names0.contains(n) || n == name@ by {
                    let k = choose|k: int| 0 <= k < self.names().len() && self.names()[k] == n;
                    if k < names0.len() {
                        assert(names0[k] == n);
                    }
                }
            },
        }
    }
}

} // verus!

verus! {

/// Relies on rand::random: a value from the thread-local generator; nothing
/// is promised of it.
pub assume_specification<T>[ rand::random::<T> ]() -> (r: T)
    where
        rand::distributions::Standard: rand::distributions::Distribution<T>,
;

/// An entry met while walking a directory tree.
pub struct WalkEntry {
    pub path: String,
    pub name: String,
    pub is_file: bool,
    pub size: u64,
}

/// Relies on walkdir::WalkDir: the readable entries under `dir` (the directory
/// itself first) down to `max_depth` levels, with their path, file name, whether
/// each is a regular file, and its length (zero when unknown).
#[verifier::external_body]
pub(crate) fn walk(dir: &str, max_depth: usize, follow_links: bool) -> Vec<WalkEntry> {
    walkdir::WalkDir::new(dir).max_depth(max_depth).follow_links(follow_links).into_iter().filter_map(
        |e| e.ok(),
    ).map(
        |e| WalkEntry {
            path: e.path().display().to_string(),
            name: e.file_name().to_string_lossy().into_owned(),
            is_file: e.file_type().is_file(),
            size: e.metadata().map(|m| m.len()).unwrap_or(0),
        },
    ).collect()
}

/// The characters that no folder name may hold.
pub open spec fn is_unsafe_char(c: char) -> bool {
    c == '\\' || c == '/' || c == ':' || c == '*' || c == '?' || c == '"' || c == '<' || c == '>'
        || c == '|' || c == '\0'
}

/// A game name made safe as a folder name: `.` and `..` have their dots
/// replaced, any other name its unsafe characters, each by `_`.
pub open spec fn escaped_folder_name(name: Seq<char>) -> Seq<char> {
    if name == seq!['.'] || name == seq!['.', '.'] {
        Seq::new(name.len(), |i: int| '_')
    } else {
        Seq::new(name.len(), |i: int| if is_unsafe_char(name[i]) { '_' } else { name[i] })
    }
}

/// Whether nothing of a name is left but `_` after escaping.
pub open spec fn unreadable(s: Seq<char>) -> bool {
    forall|i: int| 0 <= i < s.len() ==> s[i] == '_'
}

/// The head of a made-up folder name.
pub open spec fn rename_prefix() -> Seq<char> {
    seq!['l', 'u', 'd', 'u', 's', 'a', 'v', 'i', '-', 'r', 'e', 'n', 'a', 'm', 'e', 'd', '-']
}

/// The made-up folder name with number `n`.
pub open spec fn renamed(n: nat) -> Seq<char> {
    rename_prefix() + decimal(n)
}

/// The made-up folder name of last resort.
pub open spec fn rename_collision() -> Seq<char> {
    rename_prefix() + seq!['c', 'o', 'l', 'l', 'i', 's', 'i', 'o', 'n']
}

/// Whether `f` is a folder name that a new game called `name` may get: its
/// escaped name when that is readable, else the name kept from a valid run of
/// made-up names and their existence answers.
pub open spec fn folder_name_choice(name: Seq<char>, f: Seq<char>) -> bool {
    if !unreadable(escaped_folder_name(name)) {
        f == escaped_folder_name(name)
    } else {
        exists|d: Seq<(Seq<char>, bool)>| valid_draws(d) && #[trigger] kept_name(d) == f
    }
}

/// The most made-up names checked against the disk before the fixed name of
/// last resort is taken.
pub open spec fn max_draws() -> int {
    1001
}

/// Whether `d` is a run of made-up names, each with whether something already
/// exists under it: every name drawn at random, every name but the last taken,
/// and the last free unless the run reached its limit.
pub open spec fn valid_draws(d: Seq<(Seq<char>, bool)>) -> bool {
    &&& 1 <= d.len() <= max_draws()
    &&& forall|i: int| 0 <= i < d.len() ==> #[trigger] drawn_at_random(d[i].0)
    &&& forall|i: int| 0 <= i < d.len() - 1 ==> #[trigger] d[i].1
    &&& d.len() < max_draws() ==> !d[d.len() - 1].1
}

/// Whether `x` is a made-up name with a random number below 65536.
pub open spec fn drawn_at_random(x: Seq<char>) -> bool {
    exists|n: nat| n < 0x10000 && #[trigger] renamed(n) == x
}

/// The name kept from a run of made-up names: the first that is free, else the
/// fixed name of last resort.
pub open spec fn kept_name(d: Seq<(Seq<char>, bool)>) -> Seq<char>
    decreases d.len(),
{
    if d.len() == 0 {
        rename_collision()
    } else if !d[0].1 {
        d[0].0
    } else {
        kept_name(d.subrange(1, d.len() as int))
    }
}

/// Name/answer pairs as character sequences.
pub open spec fn draw_views(v: Seq<(String, bool)>) -> Seq<(Seq<char>, bool)> {
    Seq::new(v.len(), |i: int| (v[i].0@, v[i].1))
}

/// Where an archived file at `file` under the drive folder `dir` came from,
/// the drive folder standing for `drive`.
pub open spec fn restored_text(file: Seq<char>, dir: Seq<char>, drive: Seq<char>) -> Seq<char> {
    if has_prefix(file, dir) {
        drive + file.subrange(dir.len() as int, file.len() as int)
    } else {
        file
    }
}

/// Whether `placed` is where a file at `raw` (read against `basis`) goes inside
/// a game folder, the game's tokens going from `e0` to `e1`: its drive's
/// token, a slash, and the rest of its path.
pub open spec fn archive_placement(
    raw: Seq<char>,
    basis: Option<Seq<char>>,
    e0: Seq<(Seq<char>, Seq<char>)>,
    e1: Seq<(Seq<char>, Seq<char>)>,
    placed: Seq<char>,
) -> bool {
    exists|d: Seq<char>, p: Seq<char>, t: Seq<char>|
        #![trigger drive_split_of(raw, basis, d, p), drive_token_step(e0, d, t, e1)]
        drive_split_of(raw, basis, d, p) && drive_token_step(e0, d, t, e1) && placed == t + seq![
            '/',
        ] + p
}

/// Whether `placed` is where a file at `raw` (read against `basis`) goes inside
/// a game folder on `os`, the game's tokens going from `e0` to `e1`: the token
/// of its drive on `os`, a slash, and the rest of its path.
pub open spec fn archive_placement_on(
    raw: Seq<char>,
    basis: Option<Seq<char>>,
    os: Os,
    e0: Seq<(Seq<char>, Seq<char>)>,
    e1: Seq<(Seq<char>, Seq<char>)>,
    placed: Seq<char>,
) -> bool {
    exists|d: Seq<char>, p: Seq<char>, t: Seq<char>|
        #![trigger drive_split_on(raw, basis, os, d, p), drive_token_step(e0, d, t, e1)]
        drive_split_on(raw, basis, os, d, p) && drive_token_step(e0, d, t, e1) && placed == t + seq![
            '/',
        ] + p
}

/// What a restored file holds, in the form of `file_view`.
pub type FileView = ((Seq<char>, Option<Seq<char>>), u64, Option<(Seq<char>, Option<Seq<char>>)>);

/// The restorable files among walked entries of the drive folder `dir` standing
/// for `drive`: each regular file, with its path and size as walked, coming
/// from `restored_text` of its path.
pub open spec fn drive_folder_files(dir: Seq<char>, drive: Seq<char>, entries: Seq<WalkEntry>) -> Seq<FileView>
    decreases entries.len(),
{
    if entries.len() == 0 {
        seq![]
    } else {
        let prev = drive_folder_files(dir, drive, entries.drop_last());
        let e = entries.last();
        if e.is_file {
            prev.push(((e.path@, None), e.size, Some((restored_text(e.path@, dir, drive), None))))
        } else {
            prev
        }
    }
}

/// The drive recorded under token `folder` for game `game`, if any.
pub open spec fn recorded_drive(mapping: OverallMapping, game: Seq<char>, folder: Seq<char>) -> Option<Seq<char>> {
    if exists|d: Seq<char>| drive_recorded(mapping, game, folder, d) {
        Some(choose|d: Seq<char>| drive_recorded(mapping, game, folder, d))
    } else {
        None
    }
}

/// The restorable files of a game among walked folders: for each folder of
/// `dirs` whose name is a recorded token, the files of its walked `contents`.
pub open spec fn restorable_listing(
    mapping: OverallMapping,
    game: Seq<char>,
    dirs: Seq<WalkEntry>,
    contents: Seq<Vec<WalkEntry>>,
) -> Seq<FileView>
    decreases dirs.len(),
{
    if dirs.len() == 0 || contents.len() == 0 {
        seq![]
    } else {
        let prev = restorable_listing(mapping, game, dirs.drop_last(), contents.drop_last());
        match recorded_drive(mapping, game, dirs.last().name@) {
            Some(drive) => prev + drive_folder_files(dirs.last().path@, drive, contents.last()@),
            None => prev,
        }
    }
}

proof fn lemma_recorded_drive(mapping: OverallMapping, game: Seq<char>, folder: Seq<char>, d: Seq<char>)
    requires
        drive_recorded(mapping, game, folder, d),
    ensures
        recorded_drive(mapping, game, folder) == Some(d),
{
    let c = choose|c: Seq<char>| drive_recorded(mapping, game, folder, c);
    let names = mapping.names();
    let (i1, j1) = choose|i: int, j: int| first_named(names, game, i) && first_with_token(pair_views(mapping.games@[i].1.drives@), folder, j) && d == pair_views(mapping.games@[i].1.drives@)[j].1;
    let (i2, j2) = choose|i: int, j: int| first_named(names, game, i) && first_with_token(pair_views(mapping.games@[i].1.drives@), folder, j) && c == pair_views(mapping.games@[i].1.drives@)[j].1;
    if i1 < i2 {
        assert(names[i1] != game);
    } else if i2 < i1 {
        assert(names[i2] != game);
    }
    let e = pair_views(mapping.games@[i1].1.drives@);
    if j1 < j2 {
        assert(e[j1].0 != folder);
    } else if j2 < j1 {
        assert(e[j2].0 != folder);
    }
}

/// The layout of a backup folder: where it is, and the games already in it.
#[derive(Clone, Debug, Default)]
pub struct BackupLayout {
    pub base: StrictPath,
    pub mapping: OverallMapping,
}

/// Whether `drive` is recorded under token `folder` for the game `game` of
/// `mapping` (the first game and the first token of those names).
pub open spec fn drive_recorded(
    mapping: OverallMapping,
    game: Seq<char>,
    folder: Seq<char>,
    drive: Seq<char>,
) -> bool {
    exists|i: int, j: int|
        #![trigger first_named(mapping.names(), game, i), first_with_token(pair_views(mapping.games@[i].1.drives@), folder, j)]
        first_named(mapping.names(), game, i) && first_with_token(
            pair_views(mapping.games@[i].1.drives@),
            folder,
            j,
        ) && drive == pair_views(mapping.games@[i].1.drives@)[j].1
}

/// Whether `r` is a folder that the game `name` may have in `layout`: the
/// folder it was backed up in before, else the layout's base joined with a
/// folder name that a new game of that name may get.
pub open spec fn game_folder_of(layout: BackupLayout, name: Seq<char>, r: StrictPath) -> bool {
    &&& forall|i: int|
        first_named(layout.mapping.names(), name, i) ==> r.raw_view()
            == (#[trigger] layout.mapping.games@[i]).1.base.raw_view() && r.basis_view()
            == layout.mapping.games@[i].1.base.basis_view()
    &&& !layout.mapping.names().contains(name) ==> exists|f: Seq<char>|
        folder_name_choice(name, f) && #[trigger] joined_of(layout.base, f, r)
}

/// Whether a file found in a game's backup is described as restoring to its
/// recorded drive: its original path is its own path with the drive folder
/// swapped for the drive.
pub open spec fn restorable(mapping: OverallMapping, game: Seq<char>, f: ScannedFile) -> bool {
    match f.original_path {
        Some(o) => o.basis_view() == None::<Seq<char>> && exists|dir: Seq<char>, folder: Seq<char>, drive: Seq<char>|
            #[trigger] drive_recorded(mapping, game, folder, drive) && o.raw_view() == #[trigger] restored_text(f.path.raw_view(), dir, drive),
        None => false,
    }
}

impl BackupLayout {
    pub fn new(base: StrictPath, mapping: OverallMapping) -> (r: Self)
        ensures
            r.base == base,
            r.mapping == mapping,
    {
        BackupLayout { base, mapping }
    }

    /// A game name made safe as a folder name (see `escaped_folder_name`).
    pub fn escape_folder_name(name: &str) -> (r: String)
        ensures
            r@ == escaped_folder_name(name@),
    {
        let v = chars_of(name);
        let dots = (v.len() == 1 && v[0] == '.') || (v.len() == 2 && v[0] == '.' && v[1] == '.');
        assert(dots == (v@ == seq!['.'] || v@ == seq!['.', '.'])) by {
            if v@.len() == 1 && v@[0] == '.' {
                assert(v@ =~= seq!['.']);
            }
            if v@.len() == 2 && v@[0] == '.' && v@[1] == '.' {
                assert(v@ =~= seq!['.', '.']);
            }
        }
        let mut r: Vec<char> = Vec::new();
        let mut i: usize = 0;
        while i < v.len()
            invariant
                v@ == name@,
                i <= v@.len(),
                dots == (v@ == seq!['.'] || v@ == seq!['.', '.']),
                r@ == escaped_folder_name(name@).subrange(0, i as int),
            decreases v@.len() - i,
        {
            let c = v[i];
            let unsafe_char = c == '\\' || c == '/' || c == ':' || c == '*' || c == '?' || c == '"'
                || c == '<' || c == '>' || c == '|' || c == '\0';
            if dots || unsafe_char {
                r.push('_');
            } else {
                r.push(c);
            }
            proof {
                assert(escaped_folder_name(name@).subrange(0, i + 1) =~= escaped_folder_name(
                    name@,
                ).subrange(0, i as int).push(escaped_folder_name(name@)[i as int]));
            }
            i = i + 1;
        }
        assert(escaped_folder_name(name@).subrange(0, v@.len() as int) =~= escaped_folder_name(
            name@,
        ));
        string_of(r.as_slice())
    }

    fn is_unreadable(s: &str) -> (r: bool)
        ensures
            r == unreadable(s@),
    {
        let v = chars_of(s);
        let mut i: usize = 0;
        while i < v.len()
            invariant
                v@ == s@,
                i <= v@.len(),
                forall|j: int| 0 <= j < i ==> v@[j] == '_',
            decreases v@.len() - i,
        {
            if v[i] != '_' {
                return false;
            }
            i = i + 1;
        }
        true
    }

    fn total_rename() -> (r: String)
        ensures
            exists|n: nat| n < 0x10000 && #[trigger] renamed(n) == r@,
    {
        let n: u16 = rand::random::<u16>();
        let mut v = chars_of("ludusavi-renamed-");
        proof {
            reveal_strlit("ludusavi-renamed-");
            assert(v@ =~= rename_prefix());
        }
        let d = decimal_of(n as u32);
        push_all(&mut v, d.as_slice());
        assert(renamed(n as nat) == v@);
        string_of(v.as_slice())
    }

    /// The name kept from made-up names checked in order, each with whether
    /// something already exists under it (see `kept_name`).
    pub fn keep_drawn(draws: &Vec<(String, bool)>) -> (r: String)
        ensures
            r@ == kept_name(draw_views(draws@)),
    {
        let ghost d = draw_views(draws@);
        let mut i: usize = 0;
        assert(d.subrange(0, d.len() as int) =~= d);
        while i < draws.len()
            invariant
                i <= draws@.len(),
                d == draw_views(draws@),
                kept_name(d) == kept_name(d.subrange(i as int, d.len() as int)),
            decreases draws@.len() - i,
        {
            let ghost sub = d.subrange(i as int, d.len() as int);
            assert(sub[0] == d[i as int]);
            if !draws[i].1 {
                return draws[i].0.clone();
            }
            assert(sub.subrange(1, sub.len() as int) =~= d.subrange(i + 1, d.len() as int));
            i = i + 1;
        }
        let v = chars_of("ludusavi-renamed-collision");
        proof {
            reveal_strlit("ludusavi-renamed-collision");
            assert(v@ =~= rename_collision());
            assert(d.subrange(i as int, d.len() as int) =~= Seq::<(Seq<char>, bool)>::empty());
        }
        string_of(v.as_slice())
    }

    /// The folder of a game: the one it was backed up in before, else one
    /// named after it (escaped), else a made-up name that is not taken yet.
    pub fn game_folder(&self, game_name: &str) -> (r: StrictPath)
        ensures
            game_folder_of(*self, game_name@, r),
    {
        match self.mapping.find(game_name) {
            Some(i) => {
                proof {
                    assert forall|k: int| first_named(self.mapping.names(), game_name@, k) implies k
                        == i by {
                        if k < i {
                            assert(self.mapping.names()[k] != game_name@);
                        } else if i < k {
                            assert(self.mapping.names()[i as int] != game_name@);
                        }
                    }
                }
                self.mapping.games[i].1.base.copied()
            },
            None => {
                let mut safe_name = Self::escape_folder_name(game_name);
                if Self::is_unreadable(safe_name.as_str()) {
                    let mut draws: Vec<(String, bool)> = Vec::new();
                    let mut done = false;
                    while !done && draws.len() < 1001
                        invariant
                            draws@.len() <= 1001,
                            done ==> draws@.len() >= 1 && !draws@[draws@.len() - 1].1,
                            forall|i: int| 0 <= i < draws@.len() ==> #[trigger] drawn_at_random(draws@[i].0@),
                            forall|i: int| 0 <= i < draws@.len() && (i < draws@.len() - 1 || !done) ==> #[trigger] draws@[i].1,
                        decreases 1001 - draws@.len(),
                    {
                        let name = Self::total_rename();
                        let taken = self.base.joined(name.as_str()).path_exists();
                        let ghost before = draws@;
                        assert(drawn_at_random(name@));
                        draws.push((name, taken));
                        assert forall|i: int| 0 <= i < draws@.len() implies #[trigger] drawn_at_random(draws@[i].0@) by {
                            if i < before.len() {
                                assert(draws@[i] == before[i]);
                            }
                        }
                        if !taken {
                            done = true;
                        }
                    }
                    proof {
                        let d = draw_views(draws@);
                        assert forall|i: int| 0 <= i < d.len() implies #[trigger] drawn_at_random(d[i].0) by {
                            assert(d[i].0 == draws@[i].0@);
                        }
                        assert forall|i: int| 0 <= i < d.len() - 1 implies #[trigger] d[i].1 by {
                            assert(d[i].1 == draws@[i].1);
                        }
                        assert(valid_draws(d));
                    }
                    safe_name = Self::keep_drawn(&draws);
                }
                let r = self.base.joined(safe_name.as_str());
                assert(folder_name_choice(game_name@, safe_name@));
                r
            },
        }
    }

    /// Where a file goes inside a game folder: under the token of its drive,
    /// then the rest of its path. A new drive gets a token in `mapping`.
    pub fn game_file(
        &self,
        game_folder: &StrictPath,
        original_file: &StrictPath,
        mapping: &mut IndividualMapping,
    ) -> (r: StrictPath)
        requires
            old(mapping).wf(),
        ensures
            final(mapping).wf(),
            final(mapping).name == old(mapping).name,
            archive_placement(
                original_file.raw_view(),
                original_file.basis_view(),
                old(mapping).entries(),
                final(mapping).entries(),
                r.raw_view(),
            ),
            exists|x: Seq<char>|
                #[trigger] interpretation(game_folder.raw_view(), game_folder.basis_view(), x)
                    && r.basis_view() == Some(x),
    {
        let ghost e0 = mapping.entries();
        let os = get_os();
        let r = self.game_file_on(game_folder, original_file, mapping, os);
        proof {
            let (d, p, t) = choose|d: Seq<char>, p: Seq<char>, t: Seq<char>|
                #![trigger drive_split_on(original_file.raw_view(), original_file.basis_view(), os, d, p), drive_token_step(e0, d, t, mapping.entries())]
                drive_split_on(original_file.raw_view(), original_file.basis_view(), os, d, p)
                    && drive_token_step(e0, d, t, mapping.entries()) && r.raw_view() == t + seq!['/'] + p;
            assert(drive_split_of(original_file.raw_view(), original_file.basis_view(), d, p));
            let x = choose|x: Seq<char>| #[trigger] interpretation_on(game_folder.raw_view(), game_folder.basis_view(), os, x) && r.basis_view() == Some(x);
            assert(interpretation(game_folder.raw_view(), game_folder.basis_view(), x));
        }
        r
    }

    /// Where a file goes inside a game folder on `os`: under the token of its
    /// drive, then the rest of its path, read against the interpreted folder.
    pub fn game_file_on(
        &self,
        game_folder: &StrictPath,
        original_file: &StrictPath,
        mapping: &mut IndividualMapping,
        os: Os,
    ) -> (r: StrictPath)
        requires
            old(mapping).wf(),
        ensures
            final(mapping).wf(),
            final(mapping).name == old(mapping).name,
            archive_placement_on(
                original_file.raw_view(),
                original_file.basis_view(),
                os,
                old(mapping).entries(),
                final(mapping).entries(),
                r.raw_view(),
            ),
            exists|x: Seq<char>|
                #[trigger] interpretation_on(game_folder.raw_view(), game_folder.basis_view(), os, x)
                    && r.basis_view() == Some(x),
    {
        let ghost e0 = mapping.entries();
        let (drive, plain) = original_file.split_drive_on(os);
        let token = mapping.drive_folder_name(drive.as_str());
        let mut v = chars_of(token.as_str());
        v.push('/');
        let pv = chars_of(plain.as_str());
        push_all(&mut v, pv.as_slice());
        let folder = game_folder.interpret_on(os);
        let r = StrictPath::relative(string_of(v.as_slice()), Some(folder));
        assert(drive_split_on(original_file.raw_view(), original_file.basis_view(), os, drive@, plain@));
        assert(drive_token_step(e0, drive@, token@, mapping.entries()));
        assert(r.raw_view() == token@ + seq!['/'] + plain@);
        r
    }

    pub fn game_mapping_file(&self, game_folder: &StrictPath) -> (r: StrictPath)
        ensures
            joined_of(*game_folder, seq!['m', 'a', 'p', 'p', 'i', 'n', 'g', '.', 'y', 'a', 'm', 'l'], r),
    {
        proof {
            reveal_strlit("mapping.yaml");
        }
        let r = game_folder.joined("mapping.yaml");
        assert("mapping.yaml"@ =~= seq!['m', 'a', 'p', 'p', 'i', 'n', 'g', '.', 'y', 'a', 'm', 'l']);
        r
    }

    pub fn game_registry_file(&self, game_folder: &StrictPath) -> (r: StrictPath)
        ensures
            joined_of(
                *game_folder,
                seq!['r', 'e', 'g', 'i', 's', 't', 'r', 'y', '.', 'y', 'a', 'm', 'l'],
                r,
            ),
    {
        proof {
            reveal_strlit("registry.yaml");
        }
        let r = game_folder.joined("registry.yaml");
        assert("registry.yaml"@ =~= seq!['r', 'e', 'g', 'i', 's', 't', 'r', 'y', '.', 'y', 'a', 'm', 'l']);
        r
    }

    /// The drive recorded under the token `folder` for the game `game_name`.
    pub fn drive_of_folder(&self, game_name: &str, folder: &str) -> (r: Option<String>)
        ensures
            match r {
                Some(d) => drive_recorded(self.mapping, game_name@, folder@, d@),
                None => forall|d: Seq<char>| !drive_recorded(self.mapping, game_name@, folder@, d),
            },
    {
        match self.mapping.find(game_name) {
            None => {
                proof {
                    assert forall|d: Seq<char>| !drive_recorded(self.mapping, game_name@, folder@, d) by {
                        assert forall|i: int| !first_named(self.mapping.names(), game_name@, i) by {
                            if first_named(self.mapping.names(), game_name@, i) {
                                assert(self.mapping.names()[i] == game_name@);
                            }
                        }
                    }
                }
                None
            },
            Some(i) => {
                let drives = &self.mapping.games[i].1.drives;
                let ghost e = pair_views(drives@);
                let ghost first = i as int;
                proof {
                    assert forall|k: int| first_named(self.mapping.names(), game_name@, k) implies k
                        == i by {
                        if k < i {
                            assert(self.mapping.names()[k] != game_name@);
                        } else if i < k {
                            assert(self.mapping.names()[i as int] != game_name@);
                        }
                    }
                }
                let mut j: usize = 0;
                while j < drives.len()
                    invariant
                        j <= drives@.len(),
                        e == pair_views(drives@),
                        drives@ == self.mapping.games@[first].1.drives@,
                        first_named(self.mapping.names(), game_name@, first),
                        forall|k: int| 0 <= k < j ==> #[trigger] e[k].0 != folder@,
                    decreases drives@.len() - j,
                {
                    if same_text(drives[j].0.as_str(), folder) {
                        let d = drives[j].1.clone();
                        proof {
                            assert(first_with_token(e, folder@, j as int));
                            assert(first_named(self.mapping.names(), game_name@, first));
                            assert(pair_views(self.mapping.games@[first].1.drives@) == e);
                            assert(d@ == e[j as int].1);
                            assert(drive_recorded(self.mapping, game_name@, folder@, d@));
                        }
                        return Some(d);
                    }
                    j = j + 1;
                }
                proof {
                    assert forall|d: Seq<char>| !drive_recorded(self.mapping, game_name@, folder@, d) by {
                        assert forall|a: int, b: int|
                            first_named(self.mapping.names(), game_name@, a) implies !first_with_token(
                            pair_views(self.mapping.games@[a].1.drives@),
                            folder@,
                            b,
                        ) by {
                            if first_with_token(pair_views(self.mapping.games@[a].1.drives@), folder@, b) {
                                assert(e[b].0 == folder@);
                            }
                        }
                    }
                }
                None
            },
        }
    }

    /// Where an archived file at `raw_file`, under the drive folder
    /// `raw_drive_dir` that stands for `drive`, came from.
    pub fn original_path_of(raw_file: &str, raw_drive_dir: &str, drive: &str) -> (r: StrictPath)
        ensures
            r.raw_view() == restored_text(raw_file@, raw_drive_dir@, drive@),
            r.basis_view() == None::<Seq<char>>,
    {
        let f = chars_of(raw_file);
        let dd = chars_of(raw_drive_dir);
        if starts_with(f.as_slice(), dd.as_slice()) {
            let mut v = chars_of(drive);
            let mut i = dd.len();
            while i < f.len()
                invariant
                    dd@.len() <= i <= f@.len(),
                    v@ == drive@ + f@.subrange(dd@.len() as int, i as int),
                decreases f@.len() - i,
            {
                v.push(f[i]);
                i = i + 1;
            }
            StrictPath::new(string_of(v.as_slice()))
        } else {
            StrictPath::new(raw_file.to_owned())
        }
    }

    /// The restorable files found in walked drive folders: for each folder of
    /// `drive_dirs` named by a recorded token of the game, one file per regular
    /// file among its entries in `contents`, with its path and size as walked
    /// and the path it came from.
    pub fn restorable_from_entries(
        &self,
        game_name: &str,
        drive_dirs: &Vec<WalkEntry>,
        contents: &Vec<Vec<WalkEntry>>,
    ) -> (r: Vec<ScannedFile>)
        requires
            contents@.len() == drive_dirs@.len(),
        ensures
            file_views(r@) == restorable_listing(self.mapping, game_name@, drive_dirs@, contents@),
    {
        let mut files: Vec<ScannedFile> = Vec::new();
        let mut a: usize = 0;
        while a < drive_dirs.len()
            invariant
                a <= drive_dirs@.len(),
                contents@.len() == drive_dirs@.len(),
                file_views(files@) == restorable_listing(
                    self.mapping,
                    game_name@,
                    drive_dirs@.subrange(0, a as int),
                    contents@.subrange(0, a as int),
                ),
            decreases drive_dirs@.len() - a,
        {
            let ghost before = file_views(files@);
            let dir = &drive_dirs[a];
            proof {
                assert(drive_dirs@.subrange(0, a + 1).drop_last() =~= drive_dirs@.subrange(0, a as int));
                assert(contents@.subrange(0, a + 1).drop_last() =~= contents@.subrange(0, a as int));
                assert(drive_dirs@.subrange(0, a + 1).last() == drive_dirs@[a as int]);
                assert(contents@.subrange(0, a + 1).last() == contents@[a as int]);
            }
            match self.drive_of_folder(game_name, dir.name.as_str()) {
                None => {},
                Some(drive) => {
                    proof {
                        lemma_recorded_drive(self.mapping, game_name@, dir.name@, drive@);
                    }
                    let found = &contents[a];
                    let mut b: usize = 0;
                    while b < found.len()
                        invariant
                            b <= found@.len(),
                            file_views(files@) == before + drive_folder_files(
                                dir.path@,
                                drive@,
                                found@.subrange(0, b as int),
                            ),
                            found@ == contents@[a as int]@,
                        decreases found@.len() - b,
                    {
                        assert(found@.subrange(0, b + 1).drop_last() =~= found@.subrange(0, b as int));
                        let entry = &found[b];
                        if entry.is_file {
                            let original = Self::original_path_of(
                                entry.path.as_str(),
                                dir.path.as_str(),
                                drive.as_str(),
                            );
                            let f = ScannedFile {
                                path: StrictPath::new(entry.path.clone()),
                                size: entry.size,
                                original_path: Some(original),
                            };
                            let ghost fs0 = files@;
                            files.push(f);
                            assert(file_views(files@) =~= file_views(fs0).push(file_view(f)));
                        }
                        b = b + 1;
                    }
                    assert(found@.subrange(0, b as int) =~= found@);
                },
            }
            a = a + 1;
        }
        assert(drive_dirs@.subrange(0, a as int) =~= drive_dirs@);
        assert(contents@.subrange(0, a as int) =~= contents@);
        files
    }

    /// The files in a game's backup folder that can be restored: those under a
    /// folder that is a recorded drive token of the game (walked 100 levels deep,
    /// without following links), each with the path it came from.
    pub fn restorable_files(&self, game_name: &str, game_folder: &StrictPath) -> (r: Vec<
        ScannedFile,
    >)
        ensures
            exists|dirs: Seq<WalkEntry>, contents: Seq<Vec<WalkEntry>>|
                dirs.len() == contents.len() && #[trigger] restorable_listing(
                    self.mapping,
                    game_name@,
                    dirs,
                    contents,
                ) == file_views(r@),
    {
        let folder = game_folder.interpret();
        let drive_dirs = walk(folder.as_str(), 1, false);
        let mut contents: Vec<Vec<WalkEntry>> = Vec::new();
        let mut a: usize = 0;
        while a < drive_dirs.len()
            invariant
                a <= drive_dirs@.len(),
                contents@.len() == a,
            decreases drive_dirs@.len() - a,
        {
            match self.drive_of_folder(game_name, drive_dirs[a].name.as_str()) {
                None => contents.push(Vec::new()),
                Some(_) => contents.push(walk(drive_dirs[a].path.as_str(), 100, false)),
            }
            a = a + 1;
        }
        self.restorable_from_entries(game_name, &drive_dirs, &contents)
    }
}

} // verus!
