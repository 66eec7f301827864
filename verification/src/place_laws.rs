//! What holds of places: how paths are put together, where DSH keeps its data, and where an
//! installation is looked for.

use crate::locate::{
    first_probes, holds_dsh, home_of, newest_dsh, npx_roots, profile_names, said, said_setting,
    with_root, NpxEntry, Places, ProbeView, ProfileEntry,
};
use crate::path::{
    body_start, cut_last, has_drive, is_sep, joined, last_part, next_sep, prefix_len, tidy_end, up,
};
use crate::text::{is_space, lower_of, Strip};
use crate::text_laws::{all_stripped, law_strip_takes_off_what_stands_round};
use crate::util::beside;
use vstd::prelude::*;

verus! {

proof fn lemma_next_sep(p: Seq<char>, i: int, n: int)
    requires
        0 <= i <= n <= p.len(),
        forall|j: int| i <= j < n ==> !is_sep(#[trigger] p[j]),
        n < p.len() ==> is_sep(p[n]),
    ensures
        next_sep(p, i) == n,
    decreases n - i,
{
    if i < n {
        lemma_next_sep(p, i + 1, n);
    }
}

/// The prefix of a path is a letter with a colon, or two separators with the names of a server and of
/// a share; a path that starts otherwise has none.
pub proof fn law_prefix_of_a_path(
    letter: char,
    rest: Seq<char>,
    sep: Seq<char>,
    server: Seq<char>,
    share: Seq<char>,
)
    requires
        sep.len() == 3,
        is_sep(sep[0]) && is_sep(sep[1]) && is_sep(sep[2]),
        server.len() > 0,
        share.len() > 0,
        forall|i: int| 0 <= i < server.len() ==> !is_sep(#[trigger] server[i]),
        forall|i: int| 0 <= i < share.len() ==> !is_sep(#[trigger] share[i]),
        server.len() > 0 && server[0] != ':',
    ensures
        'a' <= letter <= 'z' || 'A' <= letter <= 'Z' ==> prefix_len(seq![letter, ':'] + rest) == 2,
        rest.len() > 0 && is_sep(rest[0]) || rest.len() == 0 ==> prefix_len(
            sep.take(2) + server + sep.skip(2) + share + rest,
        ) == 2 + server.len() + 1 + share.len(),
        rest.len() > 0 && !is_sep(rest[0]) && (rest.len() > 1 ==> rest[1] != ':') ==> prefix_len(rest)
            == 0,
        rest.len() > 1 && is_sep(rest[0]) && !is_sep(rest[1]) && rest[1] != ':' ==> prefix_len(rest)
            == 0,
{
    let p = sep.take(2) + server + sep.skip(2) + share + rest;
    if rest.len() > 0 && is_sep(rest[0]) || rest.len() == 0 {
        let a = (2 + server.len()) as int;
        let b = (a + 1 + share.len()) as int;
        assert(p[0] == sep[0] && p[1] == sep[1]);
        assert forall|j: int| 2 <= j < a implies !is_sep(#[trigger] p[j]) by {
            assert(p[j] == server[j - 2]);
        }
        assert(p[a] == sep[2]);
        lemma_next_sep(p, 2, a);
        assert forall|j: int| a + 1 <= j < b implies !is_sep(#[trigger] p[j]) by {
            assert(p[j] == share[j - a - 1]);
        }
        if rest.len() > 0 {
            assert(p[b] == rest[0]);
        }
        lemma_next_sep(p, a + 1, b);
    }
}

/// A name below a directory is parted from it by one backslash, unless the directory is empty, ends
/// with a separator or is a bare drive. A name with a prefix stands for itself, and one that starts
/// with a separator keeps nothing of the directory but its prefix.
pub proof fn law_paths_are_put_together(dir: Seq<char>, name: Seq<char>)
    ensures
        prefix_len(name) > 0 ==> joined(dir, name) == name,
        prefix_len(name) == 0 && name.len() > 0 && is_sep(name[0]) ==> joined(dir, name) == dir.take(
            prefix_len(dir),
        ) + name,
        name.len() > 0 && !is_sep(name[0]) && !has_drive(name) ==> {
            &&& dir.len() == 0 ==> joined(dir, name) == name
            &&& dir.len() > 0 && is_sep(dir.last()) ==> joined(dir, name) == dir + name
            &&& dir.len() == 2 && has_drive(dir) ==> joined(dir, name) == dir + name
            &&& dir.len() > 0 && !is_sep(dir.last()) && !(dir.len() == 2 && has_drive(dir)) ==> joined(
                dir,
                name,
            ) == dir + "\\"@ + name
        },
{
    if dir.len() == 0 {
        assert(dir + name =~= name);
    }
}

/// An answer is what stands in it without the white space round it; an empty one is none, and where
/// a setting is asked for the word `undefined` is none either.
pub proof fn law_answers_are_what_they_say(a: Seq<char>, w: Seq<char>, b: Seq<char>)
    requires
        all_stripped(a, Strip::Space),
        all_stripped(b, Strip::Space),
        w.len() > 0 ==> !is_space(w[0]) && !is_space(w.last()),
    ensures
        w.len() == 0 ==> said(a + w + b) is None && said_setting(a + w + b) is None,
        w.len() > 0 ==> said(a + w + b) == Some(w),
        w.len() > 0 && w != "undefined"@ ==> said_setting(a + w + b) == Some(w),
        w == "undefined"@ ==> said_setting(a + w + b) is None,
{
    law_strip_takes_off_what_stands_round(a, w, b, Strip::Space);
}

/// The data lie where the environment says, without the white space round it; where it says nothing,
/// in `.dsh` below the directory of the user.
pub proof fn law_where_the_data_of_dsh_lie(
    dsh_home: Option<String>,
    user_profile: Option<String>,
    a: Seq<char>,
    w: Seq<char>,
    b: Seq<char>,
)
    requires
        all_stripped(a, Strip::Space),
        all_stripped(b, Strip::Space),
        w.len() > 0 ==> !is_space(w[0]) && !is_space(w.last()),
        dsh_home is Some ==> dsh_home->0@ == a + w + b,
    ensures
        dsh_home is Some && w.len() > 0 ==> home_of(dsh_home, user_profile) == w,
        (dsh_home is None || w.len() == 0) && user_profile is Some ==> home_of(dsh_home, user_profile)
            == joined(user_profile->0@, ".dsh"@),
        (dsh_home is None || w.len() == 0) && user_profile is None ==> home_of(dsh_home, user_profile)
            == ".dsh"@,
{
    law_strip_takes_off_what_stands_round(a, w, b, Strip::Space);
}

/// Whether `roots` holds `base`, in whatever case.
pub open spec fn holds_root(roots: Seq<Seq<char>>, base: Seq<char>) -> bool {
    exists|i: int| 0 <= i < roots.len() && lower_of(#[trigger] roots[i]) == lower_of(base)
}

proof fn lemma_with_root(roots: Seq<Seq<char>>, base: Seq<char>)
    ensures
        roots.is_prefix_of(with_root(roots, base)),
        base.len() > 0 ==> holds_root(with_root(roots, base), base),
        forall|x: Seq<char>| #[trigger] holds_root(roots, x) ==> holds_root(with_root(roots, base), x),
        with_root(roots, base).len() <= roots.len() + 1,
        with_root(roots, base).len() == roots.len() + 1 ==> with_root(roots, base).last() == base
            && !holds_root(roots, base),
{
    let r = with_root(roots, base);
    assert(r.subrange(0, roots.len() as int) =~= roots);
    if base.len() > 0 && r.len() > roots.len() {
        assert(r[roots.len() as int] == base);
    }
    assert forall|x: Seq<char>| #[trigger] holds_root(roots, x) implies holds_root(r, x) by {
        let i = choose|i: int| 0 <= i < roots.len() && lower_of(#[trigger] roots[i]) == lower_of(x);
        assert(r[i] == roots[i]);
    }
}

/// Caches are searched in this order: that which npm tells, that in the local application data, and
/// the two directories of the settings. None that is known is left out, and a directory of the
/// settings is added only where it is no other one in another case.
pub proof fn law_every_cache_is_searched(p: Places, cache: Option<Seq<char>>)
    ensures
        ({
            let r = npx_roots(p, cache);
            &&& cache is Some ==> r.len() > 0 && r[0] == cache->0
            &&& cache is Some && p.local_app_data is Some ==> r.len() > 1 && r[1]
                == p.local_app_data->0@ + "\\npm-cache"@
            &&& cache is None && p.local_app_data is Some ==> r.len() > 0 && r[0]
                == p.local_app_data->0@ + "\\npm-cache"@
            &&& p.d_drive_path@.len() > 0 ==> holds_root(r, p.d_drive_path@)
            &&& p.junction_path@.len() > 0 ==> holds_root(r, p.junction_path@)
            &&& r.len() <= 4
            &&& forall|i: int, j: int|
                0 <= j < i < r.len() && i >= (if cache is Some {
                    1int
                } else {
                    0
                }) + (if p.local_app_data is Some {
                    1int
                } else {
                    0
                }) ==> lower_of(#[trigger] r[i]) != lower_of(#[trigger] r[j])
            &&& cache is None && p.local_app_data is None && p.d_drive_path@.len() == 0
                && p.junction_path@.len() == 0 ==> r.len() == 0
        }),
{
    let a = match cache {
        Some(c) => seq![c],
        None => Seq::empty(),
    };
    let b = match p.local_app_data {
        Some(l) => a.push(l@ + "\\npm-cache"@),
        None => a,
    };
    let c = with_root(b, p.d_drive_path@);
    let r = npx_roots(p, cache);
    lemma_with_root(b, p.d_drive_path@);
    lemma_with_root(c, p.junction_path@);
    if b.len() > 0 {
        assert(b[0] == c.subrange(0, b.len() as int)[0]);
        assert(c[0] == r.subrange(0, c.len() as int)[0]);
    }
    if b.len() > 1 {
        assert(b[1] == c.subrange(0, b.len() as int)[1]);
        assert(c[1] == r.subrange(0, c.len() as int)[1]);
    }
    assert forall|i: int, j: int| 0 <= j < i < r.len() && i >= b.len() implies lower_of(
        #[trigger] r[i],
    ) != lower_of(#[trigger] r[j]) by {
        assert(forall|k: int| 0 <= k < c.len() ==> r.subrange(0, c.len() as int)[k] == #[trigger] r[k]);
        assert(forall|k: int| 0 <= k < b.len() ==> c.subrange(0, b.len() as int)[k] == #[trigger] c[k]);
        if i >= c.len() {
            assert(r[i] == r.last());
            if lower_of(r[i]) == lower_of(r[j]) {
                assert(c[j] == r[j]);
                assert(holds_root(c, r[i]));
            }
        } else {
            assert(c[i] == r[i] && c[j] == r[j]);
            assert(c[i] == c.last());
            if lower_of(c[i]) == lower_of(c[j]) {
                assert(b[j] == c[j]);
                assert(holds_root(b, c[i]));
            }
        }
    }
}

/// The directories of the settings are looked at first, then npm is asked.
pub proof fn law_settings_are_looked_at_first(p: Places)
    ensures
        ({
            let q = first_probes(p);
            let d = p.d_drive_path@.len() > 0;
            let j = p.junction_path@.len() > 0;
            let rel = "\\"@ + "node_modules\\@deepseek-ai\\dsh\\lib\\bin.js"@;
            let n: int = (if d {
                1int
            } else {
                0
            }) + (if j {
                1int
            } else {
                0
            });
            &&& q.len() == n + 2
            &&& d ==> q[0] == ProbeView::File(p.d_drive_path@ + rel, false)
            &&& j ==> q[n - 1] == ProbeView::File(p.junction_path@ + rel, false)
            &&& q[n] == ProbeView::NpmRoot
            &&& q[n + 1] == ProbeView::NpmCache
        }),
{
    let rel = "\\"@ + "node_modules\\@deepseek-ai\\dsh\\lib\\bin.js"@;
    assert(p.d_drive_path@ + rel =~= p.d_drive_path@ + "\\"@
        + "node_modules\\@deepseek-ai\\dsh\\lib\\bin.js"@);
    assert(p.junction_path@ + rel =~= p.junction_path@ + "\\"@
        + "node_modules\\@deepseek-ai\\dsh\\lib\\bin.js"@);
}

/// A directory is a profile if and only if it holds a package file and is not that of the installed
/// packages.
pub proof fn law_profiles_hold_a_package_file(
    a: Seq<ProfileEntry>,
    x: ProfileEntry,
    b: Seq<ProfileEntry>,
)
    ensures
        profile_names(a + b) == profile_names(a) + profile_names(b),
        profile_names(seq![x]) == if x.has_package && x.name@ != "node_modules"@ {
            seq![x.name@]
        } else {
            Seq::empty()
        },
    decreases b.len(),
{
    let none = Seq::<ProfileEntry>::empty();
    assert(profile_names(none) =~= Seq::empty());
    assert(seq![x].drop_last() =~= none);
    assert(Seq::<Seq<char>>::empty().push(x.name@) =~= seq![x.name@]);
    if b.len() == 0 {
        assert(a + b =~= a);
        assert(profile_names(a) + profile_names(b) =~= profile_names(a));
    } else {
        assert((a + b).drop_last() =~= a + b.drop_last());
        law_profiles_hold_a_package_file(a, x, b.drop_last());
        assert(profile_names(a + b) =~= profile_names(a) + profile_names(b));
    }
}

/// Of the cached installations that of the newest directory is taken, and the last of several that
/// are equally new; only one directory can be that.
pub proof fn law_newest_installation_is_taken(v: Seq<NpxEntry>, i: int, j: int)
    requires
        newest_dsh(v, i),
        0 <= j < v.len(),
    ensures
        v[i].is_dir && v[i].has_bin,
        v[j].is_dir && v[j].has_bin ==> v[j].modified <= v[i].modified,
        v[j].is_dir && v[j].has_bin && v[j].modified == v[i].modified ==> j <= i,
        newest_dsh(v, j) ==> i == j,
{
    if v[j].is_dir && v[j].has_bin {
        assert(holds_dsh(v[j]));
    }
    if newest_dsh(v, j) {
        assert(holds_dsh(v[i]) && holds_dsh(v[j]));
    }
}

proof fn lemma_tidy_longer(p: Seq<char>, b: nat)
    requires
        b < p.len(),
    ensures
        tidy_end(p.push('\\'), b) == tidy_end(p, b),
{
    let q = p.push('\\');
    assert(last_part(q, b) == q.len());
    assert(q.skip(q.len() as int).len() == 0);
    assert(cut_last(q, b) =~= p);
}

/// A separator behind a path on a drive, and a `.` behind that, change nothing of what lies above it;
/// nothing lies above a root.
pub proof fn law_separators_behind_a_path(p: Seq<char>)
    requires
        has_drive(p),
        p.len() >= 3,
        is_sep(p[2]),
    ensures
        p.len() > 3 ==> up(p.push('\\')) == up(p),
        p.len() > 3 ==> up(p.push('\\').push('.')) == up(p),
        p.len() == 3 ==> up(p) is None,
{
    let q = p.push('\\');
    assert(has_drive(q));
    assert(prefix_len(p) == 2 && prefix_len(q) == 2);
    assert(q[2] == p[2]);
    assert(body_start(p) == 3 && body_start(q) == 3);
    if p.len() > 3 {
        lemma_tidy_longer(p, 3);
        let d = q.push('.');
        assert(has_drive(d) && d[2] == p[2]);
        assert(prefix_len(d) == 2 && body_start(d) == 3);
        assert(d.drop_last() =~= q);
        assert(last_part(q, 3) == q.len());
        assert(last_part(d, 3) == q.len());
        assert(d.skip(q.len() as int) =~= seq!['.']);
        assert(cut_last(d, 3) =~= p);
    } else {
        assert(tidy_end(p, 3) == p);
    }
}

/// A file beside the launcher lies in the directory of the launcher, and in the working directory
/// only where the first is unknown.
pub proof fn law_files_lie_beside_the_launcher(dir: Seq<char>, cwd: Seq<char>, name: Seq<char>)
    ensures
        beside(Some(dir), cwd, name) == joined(dir, name),
        beside(None, cwd, name) == joined(cwd, name),
{
}

/// A server without a share is no prefix.
pub proof fn law_server_alone_is_no_prefix(sep: Seq<char>, server: Seq<char>, rest: Seq<char>)
    requires
        sep.len() == 3,
        is_sep(sep[0]) && is_sep(sep[1]) && is_sep(sep[2]),
        forall|i: int| 0 <= i < server.len() ==> !is_sep(#[trigger] server[i]),
        rest.len() > 0 ==> is_sep(rest[0]),
    ensures
        prefix_len(sep.take(2) + server + sep.skip(2) + rest) == 0,
        prefix_len(sep.take(2) + server) == 0,
{
    let a = (2 + server.len()) as int;
    let p = sep.take(2) + server + sep.skip(2) + rest;
    assert(p[0] == sep[0] && p[1] == sep[1] && p[a] == sep[2]);
    assert forall|j: int| 2 <= j < a implies !is_sep(#[trigger] p[j]) by {
        assert(p[j] == server[j - 2]);
    }
    lemma_next_sep(p, 2, a);
    if rest.len() > 0 {
        assert(p[a + 1] == rest[0]);
    }
    lemma_next_sep(p, a + 1, a + 1);
    let q = sep.take(2) + server;
    assert(q[0] == sep[0] && q[1] == sep[1]);
    assert forall|j: int| 2 <= j < a implies !is_sep(#[trigger] q[j]) by {
        assert(q[j] == server[j - 2]);
    }
    lemma_next_sep(q, 2, a);
}

} // verus!
