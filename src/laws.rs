//! Properties that relate several operations of the library.
use vstd::prelude::*;
use crate::layout::{
    decimal, drive_token_step, last_allocated, escaped_folder_name, exhausted, first_with_drive, first_with_token,
    folder_name_choice, game_folder_of, has_token, BackupLayout, is_unsafe_char, lowest_free, rename_collision, rename_prefix,
    renamed, restored_text, token, tokens_unique, unreadable,
};
use crate::path::{
    components, interprets_with, is_sep, posix_drive_split, resolve, split_state, Os,
};
use crate::prelude::{
    apply_redirects, failed_of, file_view, file_views, holds_skip, skip_marker, substituted,
    ScannedFile, Substitutions,
};
use crate::text::{has_prefix, replace_all};

verus! {

proof fn lemma_first_drive_unique(e: Seq<(Seq<char>, Seq<char>)>, d: Seq<char>, i: int, k: int)
    requires
        first_with_drive(e, d, i),
        first_with_drive(e, d, k),
    ensures
        i == k,
{
    if i < k {
        assert(e[i].1 != d);
    } else if k < i {
        assert(e[k].1 != d);
    }
}

/// After a drive has been given a token (while tokens remain), the entries
/// still have unique tokens and record that token for that drive first.
pub proof fn lemma_drive_token_recorded(
    e0: Seq<(Seq<char>, Seq<char>)>,
    d: Seq<char>,
    t: Seq<char>,
    e1: Seq<(Seq<char>, Seq<char>)>,
)
    requires
        tokens_unique(e0),
        !exhausted(e0),
        drive_token_step(e0, d, t, e1),
    ensures
        tokens_unique(e1),
        exists|k: int| first_with_token(e1, t, k) && #[trigger] first_with_drive(e1, d, k),
{
    if exists|i: int| first_with_drive(e0, d, i) {
        let i = choose|i: int| first_with_drive(e0, d, i);
        assert(first_with_token(e1, t, i)) by {
            assert forall|j: int| 0 <= j < i implies #[trigger] e1[j].0 != t by {
                assert(e0[j].0 != e0[i].0);
            }
        }
        assert(first_with_drive(e1, d, i));
    } else {
        let n = choose|n: nat| lowest_free(e0, n);
        assert(exists|n: nat| lowest_free(e0, n)) by {
            let m = choose|m: nat| 1 <= m <= last_allocated() && !has_token(e0, #[trigger] token(m));
            lemma_least_free(e0, m);
        }
        let k = e0.len() as int;
        assert(e1[k] == (token(n), d));
        assert forall|j: int| 0 <= j < k implies #[trigger] e1[j].0 != t by {
            assert(e1[j] == e0[j]);
            if e0[j].0 == token(n) {
                assert(has_token(e0, token(n)));
            }
        }
        assert forall|j: int| 0 <= j < k implies #[trigger] e1[j].1 != d by {
            assert(e1[j] == e0[j]);
            if e0[j].1 == d {
                lemma_first_drive_exists(e0, d, j);
            }
        }
        assert(first_with_token(e1, t, k));
        assert(first_with_drive(e1, d, k));
        assert forall|a: int, b: int| 0 <= a < b < e1.len() implies #[trigger] e1[a].0 != #[trigger] e1[b].0 by {
            if b == k {
                assert(e1[a].0 != t);
            } else {
                assert(e1[a] == e0[a] && e1[b] == e0[b]);
            }
        }
    }
}

proof fn lemma_first_drive_exists(e: Seq<(Seq<char>, Seq<char>)>, d: Seq<char>, j: int)
    requires
        0 <= j < e.len(),
        e[j].1 == d,
    ensures
        exists|f: int| first_with_drive(e, d, f),
    decreases j,
{
    if forall|g: int| 0 <= g < j ==> #[trigger] e[g].1 != d {
        assert(first_with_drive(e, d, j));
    } else {
        let g = choose|g: int| 0 <= g < j && #[trigger] e[g].1 == d;
        lemma_first_drive_exists(e, d, g);
    }
}

proof fn lemma_least_free(e: Seq<(Seq<char>, Seq<char>)>, m: nat)
    requires
        1 <= m <= last_allocated(),
        !has_token(e, token(m)),
    ensures
        exists|n: nat| lowest_free(e, n),
    decreases m,
{
    if forall|k: nat| 1 <= k < m ==> has_token(e, #[trigger] token(k)) {
        assert(lowest_free(e, m));
    } else {
        let k = choose|k: nat| 1 <= k < m && !has_token(e, #[trigger] token(k));
        lemma_least_free(e, k);
    }
}

/// Asking twice for the token of the same drive gives the same token, and the
/// second request records nothing new.
pub proof fn lemma_drive_token_idempotent(
    e0: Seq<(Seq<char>, Seq<char>)>,
    d: Seq<char>,
    t1: Seq<char>,
    e1: Seq<(Seq<char>, Seq<char>)>,
    t2: Seq<char>,
    e2: Seq<(Seq<char>, Seq<char>)>,
)
    requires
        tokens_unique(e0),
        drive_token_step(e0, d, t1, e1),
        drive_token_step(e1, d, t2, e2),
    ensures
        t1 == t2,
        e2 == e1,
{
    if exhausted(e0) && !exists|i: int| first_with_drive(e0, d, i) {
    } else {
        if !exhausted(e0) {
            lemma_drive_token_recorded(e0, d, t1, e1);
            let k = choose|k: int| first_with_token(e1, t1, k) && #[trigger] first_with_drive(e1, d, k);
            let k2 = choose|i: int| first_with_drive(e1, d, i);
            lemma_first_drive_unique(e1, d, k, k2);
        }
    }
}

/// While tokens remain, two different drives asked for one after the other
/// get different tokens.
pub proof fn lemma_drive_tokens_distinct(
    e0: Seq<(Seq<char>, Seq<char>)>,
    d1: Seq<char>,
    t1: Seq<char>,
    e1: Seq<(Seq<char>, Seq<char>)>,
    d2: Seq<char>,
    t2: Seq<char>,
    e2: Seq<(Seq<char>, Seq<char>)>,
)
    requires
        tokens_unique(e0),
        !exhausted(e0),
        !exhausted(e1),
        d1 != d2,
        drive_token_step(e0, d1, t1, e1),
        drive_token_step(e1, d2, t2, e2),
    ensures
        t1 != t2,
{
    lemma_drive_token_recorded(e0, d1, t1, e1);
    let p = choose|k: int| first_with_token(e1, t1, k) && #[trigger] first_with_drive(e1, d1, k);
    if exists|i: int| first_with_drive(e1, d2, i) {
        let q = choose|i: int| first_with_drive(e1, d2, i);
        assert(q != p);
        assert(t2 == e1[q].0);
    } else {
        let n = choose|n: nat| lowest_free(e1, n);
        assert(exists|n: nat| lowest_free(e1, n)) by {
            let m = choose|m: nat| 1 <= m <= last_allocated() && !has_token(e1, #[trigger] token(m));
            lemma_least_free(e1, m);
        }
        assert(has_token(e1, e1[p].0));
    }
}

/// A name made only of unsafe characters never ends up in a folder whose name
/// is all replacement characters.
pub proof fn lemma_unsafe_names_get_readable_folders(name: Seq<char>, f: Seq<char>)
    requires
        forall|i: int| 0 <= i < name.len() ==> is_unsafe_char(#[trigger] name[i]),
        folder_name_choice(name, f),
    ensures
        !unreadable(f),
{
    if name == seq!['.'] || name == seq!['.', '.'] {
        assert(is_unsafe_char(name[0]));
    }
    assert(unreadable(escaped_folder_name(name)));
    let d = choose|d: Seq<(Seq<char>, bool)>| crate::layout::valid_draws(d) && #[trigger] crate::layout::kept_name(d) == f;
    lemma_kept_name_drawn(d);
    if f == rename_collision() {
        assert(f[0] == 'l');
    } else {
        let i = choose|i: int| 0 <= i < d.len() && d[i].0 == f;
        assert(crate::layout::drawn_at_random(d[i].0));
        let n = choose|n: nat| n < 0x10000 && #[trigger] renamed(n) == d[i].0;
        assert(f[0] == rename_prefix()[0]);
    }
}

proof fn lemma_kept_name_drawn(d: Seq<(Seq<char>, bool)>)
    ensures
        crate::layout::kept_name(d) == rename_collision() || exists|i: int| 0 <= i < d.len() && d[i].0 == crate::layout::kept_name(d),
    decreases d.len(),
{
    if d.len() > 0 && d[0].1 {
        let rest = d.subrange(1, d.len() as int);
        lemma_kept_name_drawn(rest);
        if crate::layout::kept_name(rest) != rename_collision() {
            let i = choose|i: int| 0 <= i < rest.len() && rest[i].0 == crate::layout::kept_name(rest);
            assert(d[i + 1] == rest[i]);
        }
    }
}

/// A game that the layout knows keeps its folder: every call gives the same path.
pub proof fn lemma_known_game_folder_stable(
    layout: BackupLayout,
    name: Seq<char>,
    r1: crate::path::StrictPath,
    r2: crate::path::StrictPath,
)
    requires
        layout.mapping.names().contains(name),
        game_folder_of(layout, name, r1),
        game_folder_of(layout, name, r2),
    ensures
        r1.raw_view() == r2.raw_view(),
        r1.basis_view() == r2.basis_view(),
{
    let names = layout.mapping.names();
    let j = choose|j: int| 0 <= j < names.len() && names[j] == name;
    lemma_first_name_exists(names, name, j);
    let i = choose|i: int| crate::layout::first_named(names, name, i);
    assert(r1.raw_view() == layout.mapping.games@[i].1.base.raw_view());
}

proof fn lemma_first_name_exists(names: Seq<Seq<char>>, name: Seq<char>, j: int)
    requires
        0 <= j < names.len(),
        names[j] == name,
    ensures
        exists|i: int| crate::layout::first_named(names, name, i),
    decreases j,
{
    if forall|g: int| 0 <= g < j ==> #[trigger] names[g] != name {
        assert(crate::layout::first_named(names, name, j));
    } else {
        let g = choose|g: int| 0 <= g < j && #[trigger] names[g] == name;
        lemma_first_name_exists(names, name, g);
    }
}

/// An archived file `<folder>/<token>/<rest>` restored with `<folder>/<token>`
/// standing for the drive `d` comes back to `d/<rest>`.
pub proof fn lemma_restored_text(folder: Seq<char>, t: Seq<char>, rest: Seq<char>, d: Seq<char>)
    ensures
        restored_text(folder + seq!['/'] + t + seq!['/'] + rest, folder + seq!['/'] + t, d) == d
            + seq!['/'] + rest,
{
    let dir = folder + seq!['/'] + t;
    let file = folder + seq!['/'] + t + seq!['/'] + rest;
    assert(file =~= dir + (seq!['/'] + rest));
    assert(file.subrange(0, dir.len() as int) =~= dir);
    assert(file.subrange(dir.len() as int, file.len() as int) =~= seq!['/'] + rest);
}

/// Outside Windows, a file backed up from an absolute path and restored
/// through the token its drive got comes back to that same path.
pub proof fn lemma_backup_restore_round_trip(
    raw: Seq<char>,
    folder: Seq<char>,
    e0: Seq<(Seq<char>, Seq<char>)>,
    t: Seq<char>,
    e1: Seq<(Seq<char>, Seq<char>)>,
)
    requires
        raw.len() > 0,
        raw[0] == '/',
        tokens_unique(e0),
        !exhausted(e0),
        drive_token_step(e0, posix_drive_split(raw).0, t, e1),
    ensures
        exists|k: int| first_with_token(e1, t, k) && e1[k].1 == posix_drive_split(raw).0,
        restored_text(
            folder + seq!['/'] + t + seq!['/'] + posix_drive_split(raw).1,
            folder + seq!['/'] + t,
            posix_drive_split(raw).0,
        ) == raw,
{
    let d = posix_drive_split(raw).0;
    let rest = posix_drive_split(raw).1;
    lemma_drive_token_recorded(e0, d, t, e1);
    let k = choose|k: int| first_with_token(e1, t, k) && #[trigger] first_with_drive(e1, d, k);
    assert(first_with_token(e1, t, k) && e1[k].1 == d);
    lemma_restored_text(folder, t, rest, d);
    assert(d + seq!['/'] + rest =~= raw);
}

/// A path that no redirect source begins stays as it is.
pub proof fn lemma_unmatched_path_not_redirected(t: Seq<char>, rs: Seq<(Seq<char>, Seq<char>)>)
    requires
        forall|k: int| 0 <= k < rs.len() ==> !has_prefix(t, #[trigger] rs[k].0),
    ensures
        apply_redirects(t, rs) == t,
    decreases rs.len(),
{
    if rs.len() > 0 {
        lemma_unmatched_path_not_redirected(t, rs.drop_last());
        assert(!has_prefix(t, rs[rs.len() - 1].0));
    }
}

/// A redirect from `/old` to `/new` sends `/old/save.dat` to `/new/save.dat`.
pub proof fn lemma_redirect_example()
    ensures
        apply_redirects(
            seq!['/', 'o', 'l', 'd', '/', 's', 'a', 'v', 'e', '.', 'd', 'a', 't'],
            seq![(seq!['/', 'o', 'l', 'd'], seq!['/', 'n', 'e', 'w'])],
        ) == seq!['/', 'n', 'e', 'w', '/', 's', 'a', 'v', 'e', '.', 'd', 'a', 't'],
{
    let t = seq!['/', 'o', 'l', 'd', '/', 's', 'a', 'v', 'e', '.', 'd', 'a', 't'];
    let rs = seq![(seq!['/', 'o', 'l', 'd'], seq!['/', 'n', 'e', 'w'])];
    assert(rs.drop_last() =~= Seq::<(Seq<char>, Seq<char>)>::empty());
    assert(apply_redirects(t, rs.drop_last()) == t);
    assert(t.subrange(0, 4) =~= seq!['/', 'o', 'l', 'd']);
    assert(seq!['/', 'n', 'e', 'w'] + t.subrange(4, 13) =~= seq![
        '/',
        'n',
        'e',
        'w',
        '/',
        's',
        'a',
        'v',
        'e',
        '.',
        'd',
        'a',
        't',
    ]);
}

/// Backing up two files into a prepared folder where only the first copy
/// succeeds fails exactly the second.
pub proof fn lemma_one_failed_copy(found: Seq<ScannedFile>)
    requires
        found.len() == 2,
    ensures
        failed_of(file_views(found), true, seq![true, false]) == seq![file_view(found[1])],
{
    let fv = file_views(found);
    let c = seq![true, false];
    assert(fv.drop_last().drop_last() =~= Seq::empty());
    assert(c.subrange(0, 1).subrange(0, 0) =~= Seq::<bool>::empty());
    assert(c.subrange(0, 1) =~= seq![true]);
    assert(failed_of(fv.drop_last().drop_last(), true, Seq::<bool>::empty()) =~= Seq::empty());
    assert(failed_of(fv.drop_last(), true, seq![true]) =~= Seq::empty());
    assert(failed_of(fv, true, c) =~= seq![file_view(found[1])]);
}


proof fn lemma_split_without_separator(s: Seq<char>, os: Os)
    requires
        forall|i: int| 0 <= i < s.len() ==> !is_sep(#[trigger] s[i], os),
    ensures
        split_state(s, os) == (Seq::<Seq<char>>::empty(), s),
    decreases s.len(),
{
    if s.len() > 0 {
        lemma_split_without_separator(s.drop_last(), os);
        assert(s.drop_last().push(s.last()) =~= s);
    } else {
        assert(s =~= Seq::<char>::empty());
    }
}

proof fn lemma_split_after_separator(x: Seq<char>, y: Seq<char>, os: Os)
    requires
        is_sep('/', os),
    ensures
        split_state(x + seq!['/'] + y, os) == (components(x, os) + split_state(y, os).0, split_state(y, os).1),
    decreases y.len(),
{
    let s = x + seq!['/'] + y;
    if y.len() == 0 {
        assert(s.drop_last() =~= x);
        assert(components(x, os) + Seq::<Seq<char>>::empty() =~= components(x, os));
    } else {
        lemma_split_after_separator(x, y.drop_last(), os);
        assert(s.drop_last() =~= x + seq!['/'] + y.drop_last());
        assert(s.last() == y.last());
        let p = split_state(y.drop_last(), os);
        assert((components(x, os) + p.0).push(p.1) =~= components(x, os) + p.0.push(p.1));
    }
}

proof fn lemma_components_after_separator(x: Seq<char>, y: Seq<char>, os: Os)
    requires
        is_sep('/', os),
    ensures
        components(x + seq!['/'] + y, os) == components(x, os) + components(y, os),
{
    lemma_split_after_separator(x, y, os);
    let c = components(x, os);
    let p = split_state(y, os);
    assert((c + p.0).push(p.1) =~= c + p.0.push(p.1));
}

proof fn lemma_resolve_push(s: Seq<Seq<char>>, z: Seq<char>)
    ensures
        resolve(s.push(z)) == crate::path::resolve_step(resolve(s), z),
{
    assert(s.push(z).drop_last() =~= s);
}

/// Outside Windows, with an absolute home directory `h`, `~/a/../b` comes to
/// the same form as `h/b` when the file system resolves neither of them.
pub proof fn lemma_tilde_and_dots_resolve_alike(
    h: Seq<char>,
    abs1: Seq<char>,
    r1: Seq<char>,
    abs2: Seq<char>,
    r2: Seq<char>,
)
    requires
        h.len() > 0,
        h[0] == '/',
        interprets_with(seq!['~', '/', 'a', '/', '.', '.', '/', 'b'], None, Os::Linux, Some(h), abs1, None, r1),
        interprets_with(h + seq!['/', 'b'], None, Os::Linux, Some(h), abs2, None, r2),
    ensures
        r1 == r2,
{
    let os = Os::Linux;
    let t = seq!['~', '/', 'a', '/', '.', '.', '/', 'b'];
    let hs = crate::text::swap_char(h, '\\', '/');
    assert(crate::path::expand_home(t, Some(h)) =~= h + seq!['/', 'a', '/', '.', '.', '/', 'b']);
    assert(crate::path::normalized(t, os, Some(h)) =~= hs + seq!['/', 'a', '/', '.', '.', '/', 'b']);
    assert(crate::path::normalized(h + seq!['/', 'b'], os, Some(h)) =~= hs + seq!['/', 'b']);
    let x = hs.subrange(1, hs.len() as int);
    let n1 = hs + seq!['/', 'a', '/', '.', '.', '/', 'b'];
    let n2 = hs + seq!['/', 'b'];
    assert(n1.subrange(1, n1.len() as int) =~= x + seq!['/'] + seq!['a', '/', '.', '.', '/', 'b']);
    assert(n2.subrange(1, n2.len() as int) =~= x + seq!['/'] + seq!['b']);
    assert(n1.subrange(0, 1) =~= n2.subrange(0, 1));
    lemma_components_after_separator(x, seq!['a', '/', '.', '.', '/', 'b'], os);
    lemma_components_after_separator(x, seq!['b'], os);
    assert(seq!['a', '/', '.', '.', '/', 'b'] =~= seq!['a'] + seq!['/'] + seq!['.', '.', '/', 'b']);
    lemma_components_after_separator(seq!['a'], seq!['.', '.', '/', 'b'], os);
    assert(seq!['.', '.', '/', 'b'] =~= seq!['.', '.'] + seq!['/'] + seq!['b']);
    lemma_components_after_separator(seq!['.', '.'], seq!['b'], os);
    lemma_split_without_separator(seq!['a'], os);
    lemma_split_without_separator(seq!['.', '.'], os);
    lemma_split_without_separator(seq!['b'], os);
    let c = components(x, os);
    let ca = seq![seq!['a']];
    let cd = seq![seq!['.', '.']];
    let cb = seq![seq!['b']];
    assert(components(seq!['a'], os) =~= ca);
    assert(components(seq!['.', '.'], os) =~= cd);
    assert(components(seq!['b'], os) =~= cb);
    let long = c + (ca + (cd + cb));
    assert(long =~= c.push(seq!['a']).push(seq!['.', '.']).push(seq!['b']));
    assert(c + cb =~= c.push(seq!['b']));
    lemma_resolve_push(c, seq!['a']);
    lemma_resolve_push(c.push(seq!['a']), seq!['.', '.']);
    lemma_resolve_push(c.push(seq!['a']).push(seq!['.', '.']), seq!['b']);
    lemma_resolve_push(c, seq!['b']);
    assert(resolve(c).push(seq!['a']).drop_last() =~= resolve(c));
    assert(resolve(long) == resolve(c + cb));
}

/// Outside Windows, `./x` read against `/tmp` comes to `/tmp/x` when the file
/// system does not resolve it.
pub proof fn lemma_dot_against_basis(home: Option<Seq<char>>, abs: Seq<char>, r: Seq<char>)
    requires
        interprets_with(seq!['.', '/', 'x'], Some(seq!['/', 't', 'm', 'p']), Os::Linux, home, abs, None, r),
    ensures
        r == seq!['/', 't', 'm', 'p', '/', 'x'],
{
    let os = Os::Linux;
    let t = seq!['.', '/', 'x'];
    assert(crate::path::expand_home(t, home) =~= t);
    assert(crate::path::normalized(t, os, home) =~= t);
    assert(abs =~= seq!['/', 't', 'm', 'p', '/', '.', '/', 'x']);
    let rest = abs.subrange(1, abs.len() as int);
    assert(rest =~= seq!['t', 'm', 'p'] + seq!['/'] + (seq!['.'] + seq!['/'] + seq!['x']));
    lemma_components_after_separator(seq!['t', 'm', 'p'], seq!['.'] + seq!['/'] + seq!['x'], os);
    lemma_components_after_separator(seq!['.'], seq!['x'], os);
    lemma_split_without_separator(seq!['t', 'm', 'p'], os);
    lemma_split_without_separator(seq!['.'], os);
    lemma_split_without_separator(seq!['x'], os);
    let cs = seq![seq!['t', 'm', 'p'], seq!['.'], seq!['x']];
    assert(components(rest, os) =~= cs);
    let e = Seq::<Seq<char>>::empty();
    assert(cs =~= e.push(seq!['t', 'm', 'p']).push(seq!['.']).push(seq!['x']));
    lemma_resolve_push(e, seq!['t', 'm', 'p']);
    lemma_resolve_push(e.push(seq!['t', 'm', 'p']), seq!['.']);
    lemma_resolve_push(e.push(seq!['t', 'm', 'p']).push(seq!['.']), seq!['x']);
    assert(resolve(e) =~= e);
    let res = seq![seq!['t', 'm', 'p'], seq!['x']];
    assert(resolve(cs) =~= res);
    assert(res.drop_last() =~= seq![seq!['t', 'm', 'p']]);
    assert(seq![seq!['t', 'm', 'p']].len() == 1);
    assert(crate::path::join_segments(seq![seq!['t', 'm', 'p']], '/') == seq!['t', 'm', 'p']);
    assert(res.last() == seq!['x']);
    assert(crate::path::join_segments(res, '/') == crate::path::join_segments(res.drop_last(), '/') + seq!['/'] + res.last());
    assert(crate::path::join_segments(res, '/') =~= seq!['t', 'm', 'p', '/', 'x']);
    assert(abs.subrange(0, 1) =~= seq!['/']);
    assert(crate::path::dedotted(abs, os) =~= seq!['/', 't', 'm', 'p', '/', 'x']);
    assert(r =~= seq!['/', 't', 'm', 'p', '/', 'x']);
}


/// Whether no character of `s` is `c`.
pub open spec fn lacks(s: Seq<char>, c: char) -> bool {
    forall|i: int| 0 <= i < s.len() ==> #[trigger] s[i] != c
}

proof fn lemma_replace_absent(s: Seq<char>, from: Seq<char>, to: Seq<char>)
    requires
        from.len() > 0,
        lacks(s, from[0]),
    ensures
        replace_all(s, from, to) == s,
    decreases s.len(),
{
    if s.len() >= from.len() {
        assert(s.subrange(0, from.len() as int)[0] != from[0]);
        lemma_replace_absent(s.subrange(1, s.len() as int), from, to);
        assert(seq![s[0]] + s.subrange(1, s.len() as int) =~= s);
    }
}

proof fn lemma_replace_head(from: Seq<char>, rest: Seq<char>, to: Seq<char>)
    requires
        from.len() > 0,
    ensures
        replace_all(from + rest, from, to) == to + replace_all(rest, from, to),
{
    let s = from + rest;
    assert(s.subrange(0, from.len() as int) =~= from);
    assert(s.subrange(from.len() as int, s.len() as int) =~= rest);
}

proof fn lemma_replace_keep_head(a: Seq<char>, rest: Seq<char>, from: Seq<char>, to: Seq<char>)
    requires
        from.len() > 0,
        lacks(a, from[0]),
    ensures
        replace_all(a + rest, from, to) == a + replace_all(rest, from, to),
    decreases a.len(),
{
    let s = a + rest;
    if a.len() == 0 {
        assert(s =~= rest);
        assert(a + replace_all(rest, from, to) =~= replace_all(rest, from, to));
    } else if s.len() < from.len() {
        assert(rest.len() < from.len());
    } else {
        assert(s.subrange(0, from.len() as int)[0] != from[0]);
        let a1 = a.subrange(1, a.len() as int);
        assert(s.subrange(1, s.len() as int) =~= a1 + rest);
        lemma_replace_keep_head(a1, rest, from, to);
        assert(seq![a[0]] + (a1 + replace_all(rest, from, to)) =~= a + replace_all(rest, from, to));
    }
}

proof fn lemma_replace_mismatch(s: Seq<char>, from: Seq<char>, to: Seq<char>, k: int)
    requires
        from.len() > 0,
        0 <= k < from.len(),
        k < s.len(),
        s[k] != from[k],
        lacks(s.subrange(1, s.len() as int), from[0]),
    ensures
        replace_all(s, from, to) == s,
{
    if s.len() >= from.len() {
        assert(s.subrange(0, from.len() as int)[k] != from[k]);
        lemma_replace_absent(s.subrange(1, s.len() as int), from, to);
        assert(seq![s[0]] + s.subrange(1, s.len() as int) =~= s);
    }
}

proof fn lemma_replace_all_placeholders_absent(a: Seq<char>, s: Substitutions)
    requires
        lacks(a, '<'),
    ensures
        replace_all(a, "<base>"@, s.base@) == a,
        replace_all(a, "<home>"@, s.home@) == a,
        replace_all(a, "<storeUserId>"@, s.store_user_id@) == a,
        replace_all(a, "<osUserName>"@, s.os_user_name@) == a,
        replace_all(a, "<winAppData>"@, s.win_app_data@) == a,
        replace_all(a, "<winLocalAppData>"@, s.win_local_app_data@) == a,
        replace_all(a, "<winDocuments>"@, s.win_documents@) == a,
        replace_all(a, "<winPublic>"@, s.win_public@) == a,
        replace_all(a, "<winProgramData>"@, s.win_program_data@) == a,
        replace_all(a, "<winDir>"@, s.win_dir@) == a,
        replace_all(a, "<xdgData>"@, s.xdg_data@) == a,
        replace_all(a, "<xdgConfig>"@, s.xdg_config@) == a,
        replace_all(a, "<regHkcu>"@, skip_marker()) == a,
        replace_all(a, "<regHklm>"@, skip_marker()) == a,
{
    reveal_strlit("<base>");
    reveal_strlit("<home>");
    reveal_strlit("<storeUserId>");
    reveal_strlit("<osUserName>");
    reveal_strlit("<winAppData>");
    reveal_strlit("<winLocalAppData>");
    reveal_strlit("<winDocuments>");
    reveal_strlit("<winPublic>");
    reveal_strlit("<winProgramData>");
    reveal_strlit("<winDir>");
    reveal_strlit("<xdgData>");
    reveal_strlit("<xdgConfig>");
    reveal_strlit("<regHkcu>");
    reveal_strlit("<regHklm>");
    lemma_replace_absent(a, "<base>"@, s.base@);
    lemma_replace_absent(a, "<home>"@, s.home@);
    lemma_replace_absent(a, "<storeUserId>"@, s.store_user_id@);
    lemma_replace_absent(a, "<osUserName>"@, s.os_user_name@);
    lemma_replace_absent(a, "<winAppData>"@, s.win_app_data@);
    lemma_replace_absent(a, "<winLocalAppData>"@, s.win_local_app_data@);
    lemma_replace_absent(a, "<winDocuments>"@, s.win_documents@);
    lemma_replace_absent(a, "<winPublic>"@, s.win_public@);
    lemma_replace_absent(a, "<winProgramData>"@, s.win_program_data@);
    lemma_replace_absent(a, "<winDir>"@, s.win_dir@);
    lemma_replace_absent(a, "<xdgData>"@, s.xdg_data@);
    lemma_replace_absent(a, "<xdgConfig>"@, s.xdg_config@);
    lemma_replace_absent(a, "<regHkcu>"@, skip_marker());
    lemma_replace_absent(a, "<regHklm>"@, skip_marker());
}

/// With a root and an install folder that hold no `<`, the template
/// `<root>/<game>/save.dat` resolves to exactly `<root value>/<game value>/save.dat`.
pub proof fn lemma_template_root_and_game(s: Substitutions)
    requires
        lacks(s.root@, '<'),
        lacks(s.game@, '<'),
    ensures
        substituted("<root>/<game>/save.dat"@, s) == s.root@ + "/"@ + s.game@ + "/save.dat"@,
{
    reveal(substituted);
    reveal_strlit("<root>/<game>/save.dat");
    reveal_strlit("<root>");
    reveal_strlit("<game>");
    reveal_strlit("/");
    reveal_strlit("/save.dat");
    let r = s.root@;
    let g = s.game@;
    let pr = "<root>"@;
    let pg = "<game>"@;
    let tail = "/save.dat"@;
    let t = "<root>/<game>/save.dat"@;
    assert(t =~= pr + ("/"@ + (pg + tail)));
    lemma_replace_head(pr, "/"@ + (pg + tail), r);
    lemma_replace_keep_head("/"@, pg + tail, pr, r);
    assert((pg + tail)[1] != pr[1]);
    assert((pg + tail).subrange(1, (pg + tail).len() as int) =~= seq!['g', 'a', 'm', 'e', '>', '/', 's', 'a', 'v', 'e', '.', 'd', 'a', 't']);
    lemma_replace_mismatch(pg + tail, pr, r, 1);
    let a1 = r + ("/"@ + (pg + tail));
    assert(replace_all(t, pr, r) == a1);
    assert(a1 =~= (r + "/"@) + (pg + tail));
    assert(lacks(r + "/"@, '<'));
    lemma_replace_keep_head(r + "/"@, pg + tail, pg, g);
    lemma_replace_head(pg, tail, g);
    lemma_replace_absent(tail, pg, g);
    let a2 = (r + "/"@) + (g + tail);
    assert(replace_all(a1, pg, g) == a2);
    assert(a2 =~= r + "/"@ + g + "/save.dat"@);
    assert(lacks(a2, '<')) by {
        assert forall|i: int| 0 <= i < a2.len() implies #[trigger] a2[i] != '<' by {
            if i < r.len() {
                assert(a2[i] == r[i]);
            } else if i == r.len() {
            } else if i < r.len() + 1 + g.len() {
                assert(a2[i] == g[i - r.len() - 1]);
            }
        }
    }
    lemma_replace_all_placeholders_absent(a2, s);
}


/// A template made only of the Windows application-data placeholder resolves
/// to the skip marker where that folder does not apply, so it is never scanned.
pub proof fn lemma_windows_placeholder_skipped(s: Substitutions)
    requires
        s.win_app_data@ == skip_marker(),
    ensures
        holds_skip(substituted("<winAppData>"@, s)),
{
    reveal(substituted);
    reveal_strlit("<root>");
    reveal_strlit("<game>");
    reveal_strlit("<base>");
    reveal_strlit("<home>");
    reveal_strlit("<storeUserId>");
    reveal_strlit("<osUserName>");
    reveal_strlit("<winAppData>");
    reveal_strlit("<winLocalAppData>");
    reveal_strlit("<winDocuments>");
    reveal_strlit("<winPublic>");
    reveal_strlit("<winProgramData>");
    reveal_strlit("<winDir>");
    reveal_strlit("<xdgData>");
    reveal_strlit("<xdgConfig>");
    reveal_strlit("<regHkcu>");
    reveal_strlit("<regHklm>");
    reveal_strlit("<skip>");
    let w = "<winAppData>"@;
    assert(lacks(w.subrange(1, w.len() as int), '<')) by {
        assert(w.subrange(1, w.len() as int) =~= seq!['w', 'i', 'n', 'A', 'p', 'p', 'D', 'a', 't', 'a', '>']);
    }
    lemma_replace_mismatch(w, "<root>"@, s.root@, 1);
    lemma_replace_mismatch(w, "<game>"@, s.game@, 1);
    lemma_replace_mismatch(w, "<base>"@, s.base@, 1);
    lemma_replace_mismatch(w, "<home>"@, s.home@, 1);
    assert(replace_all(w, "<storeUserId>"@, s.store_user_id@) == w);
    lemma_replace_mismatch(w, "<osUserName>"@, s.os_user_name@, 1);
    assert(w =~= w + Seq::<char>::empty());
    lemma_replace_head(w, Seq::<char>::empty(), s.win_app_data@);
    let k = skip_marker();
    assert(replace_all(w, w, s.win_app_data@) =~= k);
    assert(replace_all(k, "<winLocalAppData>"@, s.win_local_app_data@) == k);
    assert(replace_all(k, "<winDocuments>"@, s.win_documents@) == k);
    assert(replace_all(k, "<winPublic>"@, s.win_public@) == k);
    assert(replace_all(k, "<winProgramData>"@, s.win_program_data@) == k);
    assert(replace_all(k, "<winDir>"@, s.win_dir@) == k);
    assert(replace_all(k, "<xdgData>"@, s.xdg_data@) == k);
    assert(replace_all(k, "<xdgConfig>"@, s.xdg_config@) == k);
    assert(replace_all(k, "<regHkcu>"@, k) == k);
    assert(replace_all(k, "<regHklm>"@, k) == k);
    assert(substituted(w, s) == k);
    let z: int = 0;
    assert(k.subrange(z, z + skip_marker().len()) =~= skip_marker());
}


/// A regular file walked at `<folder>/<token>/<rest>` inside the drive folder
/// `<folder>/<token>` standing for `drive` is listed as restorable, with its
/// path and size as walked, coming from `<drive>/<rest>`.
pub proof fn lemma_walked_file_restores(
    folder: Seq<char>,
    t: Seq<char>,
    rest: Seq<char>,
    drive: Seq<char>,
    e: crate::layout::WalkEntry,
)
    requires
        e.is_file,
        e.path@ == folder + seq!['/'] + t + seq!['/'] + rest,
    ensures
        crate::layout::drive_folder_files(folder + seq!['/'] + t, drive, seq![e]) == seq![
            ((e.path@, None::<Seq<char>>), e.size, Some((drive + seq!['/'] + rest, None::<Seq<char>>))),
        ],
{
    lemma_restored_text(folder, t, rest, drive);
    let dir = folder + seq!['/'] + t;
    assert(seq![e].drop_last() =~= Seq::<crate::layout::WalkEntry>::empty());
    assert(seq![e].last() == e);
    assert(crate::layout::drive_folder_files(dir, drive, Seq::<crate::layout::WalkEntry>::empty())
        == Seq::<crate::layout::FileView>::empty());
    assert(restored_text(e.path@, dir, drive) == drive + seq!['/'] + rest);
    assert(Seq::<crate::layout::FileView>::empty().push(
        ((e.path@, None::<Seq<char>>), e.size, Some((drive + seq!['/'] + rest, None::<Seq<char>>))),
    ) =~= seq![((e.path@, None::<Seq<char>>), e.size, Some((drive + seq!['/'] + rest, None::<Seq<char>>)))]);
}



} // verus!

verus! {

/// Whether `w` has the shape of a placeholder: `<`, then neither `<` nor `>`,
/// then `>`.
pub open spec fn bracketed(w: Seq<char>) -> bool {
    &&& w.len() >= 2
    &&& w[0] == '<'
    &&& w[w.len() - 1] == '>'
    &&& forall|k: int| 1 <= k < w.len() - 1 ==> #[trigger] w[k] != '<' && w[k] != '>'
}

/// Whether `w` occurs in `s`.
pub open spec fn occurs(s: Seq<char>, w: Seq<char>) -> bool {
    exists|i: int| 0 <= i && i + w.len() <= s.len() && #[trigger] s.subrange(i, i + w.len()) == w
}

proof fn lemma_occurs_shift(x: Seq<char>, y: Seq<char>, w: Seq<char>)
    requires
        occurs(y, w),
    ensures
        occurs(x + y, w),
{
    let j = choose|j: int| 0 <= j && j + w.len() <= y.len() && #[trigger] y.subrange(j, j + w.len()) == w;
    assert((x + y).subrange(x.len() + j, x.len() + j + w.len()) =~= y.subrange(j, j + w.len()));
}

/// Replacing one placeholder keeps every occurrence of another.
proof fn lemma_replace_keeps(s: Seq<char>, from: Seq<char>, to: Seq<char>, w: Seq<char>)
    requires
        bracketed(w),
        bracketed(from),
        w != from,
        occurs(s, w),
    ensures
        occurs(replace_all(s, from, to), w),
    decreases s.len(),
{
    let i = choose|i: int| 0 <= i && i + w.len() <= s.len() && #[trigger] s.subrange(i, i + w.len()) == w;
    let fl = from.len() as int;
    let wl = w.len() as int;
    assert(s[i] == s.subrange(i, i + wl)[0]);
    if s.len() < fl {
    } else if s.subrange(0, fl) == from {
        if i >= fl {
            let s2 = s.subrange(fl, s.len() as int);
            assert(s2.subrange(i - fl, i - fl + wl) =~= s.subrange(i, i + wl));
            lemma_replace_keeps(s2, from, to, w);
            lemma_occurs_shift(to, replace_all(s2, from, to), w);
        } else if i == 0 {
            if wl < fl {
                assert(from[wl - 1] == s.subrange(0, fl)[wl - 1]);
                assert(w[wl - 1] == s.subrange(0, wl)[wl - 1]);
            } else if fl < wl {
                assert(from[fl - 1] == s.subrange(0, fl)[fl - 1]);
                assert(w[fl - 1] == s.subrange(0, wl)[fl - 1]);
            } else {
                assert(w == from);
            }
        } else {
            assert(from[i] == s.subrange(0, fl)[i]);
        }
    } else {
        let s1 = s.subrange(1, s.len() as int);
        if i >= 1 {
            assert(s1.subrange(i - 1, i - 1 + wl) =~= s.subrange(i, i + wl));
            lemma_replace_keeps(s1, from, to, w);
            lemma_occurs_shift(seq![s[0]], replace_all(s1, from, to), w);
        } else {
            let a = w.subrange(1, wl);
            let rest = s.subrange(wl, s.len() as int);
            assert(s1 =~= a + rest) by {
                assert forall|k: int| 0 <= k < a.len() implies s1[k] == a[k] by {
                    assert(s.subrange(0, wl)[k + 1] == s[k + 1]);
                }
            }
            assert(lacks(a, from[0])) by {
                assert forall|k: int| 0 <= k < a.len() implies #[trigger] a[k] != from[0] by {
                    assert(a[k] == w[k + 1]);
                }
            }
            lemma_replace_keep_head(a, rest, from, to);
            let r = seq![s[0]] + (a + replace_all(rest, from, to));
            assert(r.subrange(0, wl) =~= w) by {
                assert(s[0] == w[0]);
            }
        }
    }
}

/// Replacing a placeholder that occurs puts its value in.
proof fn lemma_replace_creates(s: Seq<char>, from: Seq<char>, to: Seq<char>)
    requires
        from.len() > 0,
        occurs(s, from),
    ensures
        occurs(replace_all(s, from, to), to),
    decreases s.len(),
{
    let i = choose|i: int| 0 <= i && i + from.len() <= s.len() && #[trigger] s.subrange(i, i + from.len()) == from;
    let fl = from.len() as int;
    if s.subrange(0, fl) == from {
        let r = to + replace_all(s.subrange(fl, s.len() as int), from, to);
        assert(replace_all(s, from, to) == r);
        let z: int = 0;
        assert(r.subrange(z, z + to.len()) =~= to);
    } else {
        let s1 = s.subrange(1, s.len() as int);
        assert(i >= 1);
        assert(s1.subrange(i - 1, i - 1 + fl) =~= s.subrange(i, i + fl));
        lemma_replace_creates(s1, from, to);
        lemma_occurs_shift(seq![s[0]], replace_all(s1, from, to), to);
    }
}

/// The text after replacing, in order, each placeholder of `steps` by its value.
pub open spec fn apply_steps(t: Seq<char>, steps: Seq<(Seq<char>, Seq<char>)>) -> Seq<char>
    decreases steps.len(),
{
    if steps.len() == 0 {
        t
    } else {
        replace_all(apply_steps(t, steps.drop_last()), steps.last().0, steps.last().1)
    }
}

proof fn lemma_steps_keep(t: Seq<char>, steps: Seq<(Seq<char>, Seq<char>)>, w: Seq<char>)
    requires
        bracketed(w),
        forall|i: int| 0 <= i < steps.len() ==> bracketed(#[trigger] steps[i].0) && steps[i].0 != w,
        occurs(t, w),
    ensures
        occurs(apply_steps(t, steps), w),
    decreases steps.len(),
{
    if steps.len() > 0 {
        lemma_steps_keep(t, steps.drop_last(), w);
        assert(bracketed(steps[steps.len() - 1].0));
        lemma_replace_keeps(apply_steps(t, steps.drop_last()), steps.last().0, steps.last().1, w);
    }
}

proof fn lemma_steps_skip(t: Seq<char>, steps: Seq<(Seq<char>, Seq<char>)>, k: int)
    requires
        0 <= k < steps.len(),
        bracketed(skip_marker()),
        forall|i: int| 0 <= i < steps.len() ==> bracketed(#[trigger] steps[i].0) && steps[i].0 != skip_marker(),
        forall|i: int| 0 <= i < k ==> #[trigger] steps[i].0 != steps[k].0,
        steps[k].1 == skip_marker(),
        occurs(t, steps[k].0),
    ensures
        occurs(apply_steps(t, steps), skip_marker()),
    decreases steps.len(),
{
    let front = steps.drop_last();
    if k == steps.len() - 1 {
        assert forall|i: int| 0 <= i < front.len() implies bracketed(#[trigger] front[i].0) && front[i].0 != steps[k].0 by {
            assert(front[i] == steps[i]);
        }
        lemma_steps_keep(t, front, steps[k].0);
        lemma_replace_creates(apply_steps(t, front), steps[k].0, steps[k].1);
    } else {
        assert forall|i: int| 0 <= i < front.len() implies bracketed(#[trigger] front[i].0) && front[i].0 != skip_marker() by {
            assert(front[i] == steps[i]);
        }
        assert(front[k] == steps[k]);
        assert forall|i: int| 0 <= i < k implies #[trigger] front[i].0 != front[k].0 by {
            assert(front[i] == steps[i]);
        }
        lemma_steps_skip(t, front, k);
        assert(bracketed(steps[steps.len() - 1].0));
        lemma_replace_keeps(apply_steps(t, front), steps.last().0, steps.last().1, skip_marker());
    }
}

} // verus!

verus! {

/// The placeholders of a path template, in the order they are replaced, each
/// with its value in `s`.
pub open spec fn placeholder_steps(s: Substitutions) -> Seq<(Seq<char>, Seq<char>)> {
    seq![
        ("<root>"@, s.root@),
        ("<game>"@, s.game@),
        ("<base>"@, s.base@),
        ("<home>"@, s.home@),
        ("<storeUserId>"@, s.store_user_id@),
        ("<osUserName>"@, s.os_user_name@),
        ("<winAppData>"@, s.win_app_data@),
        ("<winLocalAppData>"@, s.win_local_app_data@),
        ("<winDocuments>"@, s.win_documents@),
        ("<winPublic>"@, s.win_public@),
        ("<winProgramData>"@, s.win_program_data@),
        ("<winDir>"@, s.win_dir@),
        ("<xdgData>"@, s.xdg_data@),
        ("<xdgConfig>"@, s.xdg_config@),
        ("<regHkcu>"@, skip_marker()),
        ("<regHklm>"@, skip_marker()),
    ]
}

proof fn lemma_substituted_steps(t: Seq<char>, s: Substitutions)
    ensures
        substituted(t, s) == apply_steps(t, placeholder_steps(s)),
{
    reveal(substituted);
    let st = placeholder_steps(s);
    assert(st.subrange(0, 0) =~= Seq::<(Seq<char>, Seq<char>)>::empty());
    assert forall|m: int| 0 < m <= 16 implies #[trigger] st.subrange(0, m).drop_last() == st.subrange(0, m - 1) && st.subrange(0, m).last() == st[m - 1] by {
        assert(st.subrange(0, m).drop_last() =~= st.subrange(0, m - 1));
    }
    assert(st.subrange(0, 16) =~= st);
    assert(apply_steps(t, st.subrange(0, 0)) == t);
    assert(apply_steps(t, st.subrange(0, 1)) == replace_all(t, "<root>"@, s.root@));
    assert(apply_steps(t, st.subrange(0, 2)) == replace_all(apply_steps(t, st.subrange(0, 1)), "<game>"@, s.game@));
    assert(apply_steps(t, st.subrange(0, 3)) == replace_all(apply_steps(t, st.subrange(0, 2)), "<base>"@, s.base@));
    assert(apply_steps(t, st.subrange(0, 4)) == replace_all(apply_steps(t, st.subrange(0, 3)), "<home>"@, s.home@));
    assert(apply_steps(t, st.subrange(0, 5)) == replace_all(apply_steps(t, st.subrange(0, 4)), "<storeUserId>"@, s.store_user_id@));
    assert(apply_steps(t, st.subrange(0, 6)) == replace_all(apply_steps(t, st.subrange(0, 5)), "<osUserName>"@, s.os_user_name@));
    assert(apply_steps(t, st.subrange(0, 7)) == replace_all(apply_steps(t, st.subrange(0, 6)), "<winAppData>"@, s.win_app_data@));
    assert(apply_steps(t, st.subrange(0, 8)) == replace_all(apply_steps(t, st.subrange(0, 7)), "<winLocalAppData>"@, s.win_local_app_data@));
    assert(apply_steps(t, st.subrange(0, 9)) == replace_all(apply_steps(t, st.subrange(0, 8)), "<winDocuments>"@, s.win_documents@));
    assert(apply_steps(t, st.subrange(0, 10)) == replace_all(apply_steps(t, st.subrange(0, 9)), "<winPublic>"@, s.win_public@));
    assert(apply_steps(t, st.subrange(0, 11)) == replace_all(apply_steps(t, st.subrange(0, 10)), "<winProgramData>"@, s.win_program_data@));
    assert(apply_steps(t, st.subrange(0, 12)) == replace_all(apply_steps(t, st.subrange(0, 11)), "<winDir>"@, s.win_dir@));
    assert(apply_steps(t, st.subrange(0, 13)) == replace_all(apply_steps(t, st.subrange(0, 12)), "<xdgData>"@, s.xdg_data@));
    assert(apply_steps(t, st.subrange(0, 14)) == replace_all(apply_steps(t, st.subrange(0, 13)), "<xdgConfig>"@, s.xdg_config@));
    assert(apply_steps(t, st.subrange(0, 15)) == replace_all(apply_steps(t, st.subrange(0, 14)), "<regHkcu>"@, skip_marker()));
    assert(apply_steps(t, st.subrange(0, 16)) == replace_all(apply_steps(t, st.subrange(0, 15)), "<regHklm>"@, skip_marker()));
}

proof fn lemma_placeholder_shapes(s: Substitutions)
    ensures
        bracketed(skip_marker()),
        forall|i: int| 0 <= i < 16 ==> bracketed(#[trigger] placeholder_steps(s)[i].0) && placeholder_steps(s)[i].0 != skip_marker(),
{
    reveal_strlit("<root>");
    reveal_strlit("<game>");
    reveal_strlit("<base>");
    reveal_strlit("<home>");
    reveal_strlit("<storeUserId>");
    reveal_strlit("<osUserName>");
    reveal_strlit("<winAppData>");
    reveal_strlit("<winLocalAppData>");
    reveal_strlit("<winDocuments>");
    reveal_strlit("<winPublic>");
    reveal_strlit("<winProgramData>");
    reveal_strlit("<winDir>");
    reveal_strlit("<xdgData>");
    reveal_strlit("<xdgConfig>");
    reveal_strlit("<regHkcu>");
    reveal_strlit("<regHklm>");
    reveal_strlit("<skip>");
    let st = placeholder_steps(s);
    assert forall|i: int| 0 <= i < 16 implies bracketed(#[trigger] st[i].0) && st[i].0 != skip_marker() by {
        let w = st[i].0;
        assert forall|k: int| 1 <= k < w.len() - 1 implies #[trigger] w[k] != '<' && w[k] != '>' by {}
        if w.len() == skip_marker().len() {
            assert(w[1] != skip_marker()[1]);
        }
    }
}


/// The placeholders that mean nothing off Windows: the Windows folders and the
/// registry hives.
pub open spec fn windows_only(k: int) -> bool {
    6 <= k <= 11 || k == 14 || k == 15
}

proof fn lemma_placeholders_distinct(s: Substitutions, k: int)
    requires
        0 <= k < 16,
    ensures
        forall|i: int| 0 <= i < k ==> #[trigger] placeholder_steps(s)[i].0 != placeholder_steps(s)[k].0,
{
    reveal_strlit("<root>");
    reveal_strlit("<game>");
    reveal_strlit("<base>");
    reveal_strlit("<home>");
    reveal_strlit("<storeUserId>");
    reveal_strlit("<osUserName>");
    reveal_strlit("<winAppData>");
    reveal_strlit("<winLocalAppData>");
    reveal_strlit("<winDocuments>");
    reveal_strlit("<winPublic>");
    reveal_strlit("<winProgramData>");
    reveal_strlit("<winDir>");
    reveal_strlit("<xdgData>");
    reveal_strlit("<xdgConfig>");
    reveal_strlit("<regHkcu>");
    reveal_strlit("<regHklm>");
    let st = placeholder_steps(s);
    assert forall|i: int| 0 <= i < k implies #[trigger] st[i].0 != st[k].0 by {
        let a = st[i].0;
        let b = st[k].0;
        if a.len() == b.len() {
            if a[1] == b[1] {
                if a[2] == b[2] {
                    if a[3] == b[3] {
                        if a[4] == b[4] {
                            assert(a[5] != b[5] || a[6] != b[6] || a[7] != b[7]);
                        }
                    }
                }
            }
        }
    }
}

/// Off Windows, a template holding any Windows folder or registry placeholder
/// resolves to a text holding the skip marker, so none of its candidates is
/// ever scanned.
pub proof fn lemma_windows_templates_skipped(t: Seq<char>, s: Substitutions, k: int)
    requires
        windows_only(k),
        occurs(t, placeholder_steps(s)[k].0),
        s.win_app_data@ == skip_marker(),
        s.win_local_app_data@ == skip_marker(),
        s.win_documents@ == skip_marker(),
        s.win_public@ == skip_marker(),
        s.win_program_data@ == skip_marker(),
        s.win_dir@ == skip_marker(),
    ensures
        holds_skip(substituted(t, s)),
{
    lemma_substituted_steps(t, s);
    lemma_placeholder_shapes(s);
    lemma_placeholders_distinct(s, k);
    let st = placeholder_steps(s);
    assert(st.len() == 16);
    assert(st[k].1 == skip_marker());
    lemma_steps_skip(t, st, k);
}


/// The text of the placeholder replaced at step `k` (see `placeholder_steps`).
pub open spec fn placeholder_name(k: int) -> Seq<char> {
    seq![
        "<root>"@,
        "<game>"@,
        "<base>"@,
        "<home>"@,
        "<storeUserId>"@,
        "<osUserName>"@,
        "<winAppData>"@,
        "<winLocalAppData>"@,
        "<winDocuments>"@,
        "<winPublic>"@,
        "<winProgramData>"@,
        "<winDir>"@,
        "<xdgData>"@,
        "<xdgConfig>"@,
        "<regHkcu>"@,
        "<regHklm>"@,
    ][k]
}

proof fn lemma_placeholder_name(s: Substitutions, k: int)
    requires
        0 <= k < 16,
    ensures
        placeholder_steps(s)[k].0 == placeholder_name(k),
{
}

/// Off Windows and without a Steam title, a backup scan of a game whose every
/// non-blank path template holds a Windows folder or registry placeholder
/// finds nothing: every candidate holds the skip marker and is dropped.
pub proof fn lemma_windows_only_game_finds_nothing(
    game: crate::prelude::Game,
    name: Seq<char>,
    os: Os,
    r: crate::prelude::ScanInfo,
)
    requires
        os != Os::Windows,
        crate::prelude::backup_scan_result(game, name, None, os, r),
        game.files matches Some(f) ==> forall|b: int|
            0 <= b < f@.len() ==> crate::prelude::blank_text(#[trigger] f@[b]@) || exists|k: int|
                windows_only(k) && occurs(f@[b]@, placeholder_name(k)),
    ensures
        r.found_files@.len() == 0,
{
    let (pats, parts) = choose|pats: Seq<crate::path::StrictPath>, parts: Seq<Seq<crate::prelude::GlobMatch>>|
        #![trigger crate::prelude::backup_patterns_result(game, None, os, pats), crate::prelude::flatten(parts)]
        crate::prelude::backup_patterns_result(game, None, os, pats) && parts.len() == pats.len()
            && crate::prelude::found_listing(crate::prelude::flatten(parts)) == file_views(r.found_files@);
    if pats.len() > 0 {
        let c = pats[0].raw_view();
        let f = game.files->0;
        assert(crate::prelude::pattern_sound(f@, os, c));
        let (b, root, store, install, env) = choose|b: int, root: Seq<char>, store: crate::prelude::Store, install: Seq<char>, env: crate::prelude::TemplateEnv|
            0 <= b < f@.len() && !crate::prelude::blank_text(f@[b]@) && crate::prelude::env_for(os, env)
                && #[trigger] crate::prelude::template_candidate(f@[b]@, root, store, install, os, None, env, c);
        let k = choose|k: int| windows_only(k) && occurs(f@[b]@, placeholder_name(k));
        let s = choose|s: Substitutions|
            #[trigger] crate::prelude::native_substitutions(root, store, install, env, s) && c == substituted(f@[b]@, s);
        lemma_placeholder_name(s, k);
        lemma_windows_templates_skipped(f@[b]@, s, k);
        assert(false);
    }
    assert(parts =~= Seq::<Seq<crate::prelude::GlobMatch>>::empty());
    assert(crate::prelude::flatten(parts) =~= Seq::<crate::prelude::GlobMatch>::empty());
    assert(file_views(r.found_files@).len() == r.found_files@.len());
}

} // verus!

verus! {

proof fn lemma_decimal_len(n: nat)
    ensures
        decimal(n).len() >= 1,
        n >= 10 ==> decimal(n).len() >= 2,
    decreases n,
{
    if n >= 10 {
        lemma_decimal_len(n / 10);
    }
}

proof fn lemma_decimal_injective(n: nat, m: nat)
    requires
        decimal(n) == decimal(m),
    ensures
        n == m,
    decreases n,
{
    lemma_decimal_len(n);
    lemma_decimal_len(m);
    let digits = seq!['0', '1', '2', '3', '4', '5', '6', '7', '8', '9'];
    if n < 10 && m < 10 {
        assert(decimal(n)[0] == digits[n as int]);
        assert(decimal(m)[0] == digits[m as int]);
    } else if n >= 10 && m >= 10 {
        let dn = decimal(n);
        assert(dn.drop_last() == decimal(n / 10));
        assert(decimal(m).drop_last() == decimal(m / 10));
        lemma_decimal_injective(n / 10, m / 10);
        assert(dn.last() == digits[(n % 10) as int]);
        assert(decimal(m).last() == digits[(m % 10) as int]);
    }
}

proof fn lemma_token_injective(n: nat, m: nat)
    requires
        token(n) == token(m),
    ensures
        n == m,
{
    let head = seq!['d', 'r', 'i', 'v', 'e', '-'];
    assert(token(n).subrange(6, token(n).len() as int) =~= decimal(n));
    assert(token(m).subrange(6, token(m).len() as int) =~= decimal(m));
    lemma_decimal_injective(n, m);
}

/// Entries with fewer tokens than the highest token number leave a token free.
pub proof fn lemma_not_exhausted(e: Seq<(Seq<char>, Seq<char>)>)
    requires
        e.len() < last_allocated(),
    ensures
        !exhausted(e),
{
    if exhausted(e) {
        let top = last_allocated() as int;
        let x = vstd::set_lib::set_int_range(1, top + 1);
        let f = |n: int| choose|i: int| 0 <= i < e.len() && #[trigger] e[i].0 == token(n as nat);
        vstd::set_lib::lemma_int_range(1, top + 1);
        assert forall|n: int| #[trigger] x.contains(n) implies 0 <= f(n) < e.len() && e[f(n)].0 == token(n as nat) by {
            assert(has_token(e, token(n as nat)));
        }
        assert(vstd::relations::injective_on(f, x)) by {
            assert forall|a: int, b: int| x.contains(a) && x.contains(b) && #[trigger] f(a) == #[trigger] f(b) implies a == b by {
                lemma_token_injective(a as nat, b as nat);
            }
        }
        let y = x.map(f);
        vstd::set_lib::lemma_map_size(x, y, f);
        let idx = vstd::set_lib::set_int_range(0, e.len() as int);
        vstd::set_lib::lemma_int_range(0, e.len() as int);
        assert(y.subset_of(idx)) by {
            assert forall|i: int| #[trigger] y.contains(i) implies idx.contains(i) by {
                let n = choose|n: int| x.contains(n) && f(n) == i;
            }
        }
        vstd::set_lib::lemma_len_subset(y, idx);
    }
}

/// While a mapping holds fewer tokens than the highest token number less
/// one, two different drives asked for one after the other get different
/// tokens.
pub proof fn lemma_drive_tokens_distinct_below_limit(
    e0: Seq<(Seq<char>, Seq<char>)>,
    d1: Seq<char>,
    t1: Seq<char>,
    e1: Seq<(Seq<char>, Seq<char>)>,
    d2: Seq<char>,
    t2: Seq<char>,
    e2: Seq<(Seq<char>, Seq<char>)>,
)
    requires
        tokens_unique(e0),
        e0.len() + 1 < last_allocated(),
        d1 != d2,
        drive_token_step(e0, d1, t1, e1),
        drive_token_step(e1, d2, t2, e2),
    ensures
        t1 != t2,
{
    lemma_not_exhausted(e0);
    assert(e1.len() <= e0.len() + 1);
    lemma_not_exhausted(e1);
    lemma_drive_tokens_distinct(e0, d1, t1, e1, d2, t2, e2);
}


/// Off Windows, for a root outside Steam or a game without a Steam title,
/// every candidate path of a template that holds a Windows folder or registry
/// placeholder holds the skip marker, so it is never scanned.
pub proof fn lemma_windows_placeholder_candidates_skipped(
    t: Seq<char>,
    root: Seq<char>,
    store: crate::prelude::Store,
    install: Seq<char>,
    os: Os,
    steam_id: Option<u32>,
    env: crate::prelude::TemplateEnv,
    c: Seq<char>,
    k: int,
)
    requires
        os != Os::Windows,
        crate::prelude::env_for(os, env),
        windows_only(k),
        occurs(t, placeholder_name(k)),
        store == crate::prelude::Store::Other || steam_id is None,
        crate::prelude::template_candidate(t, root, store, install, os, steam_id, env, c),
    ensures
        holds_skip(c),
{
    let s = choose|s: Substitutions|
        #[trigger] crate::prelude::native_substitutions(root, store, install, env, s) && c == substituted(t, s);
    lemma_placeholder_name(s, k);
    lemma_windows_templates_skipped(t, s, k);
}

} // verus!
