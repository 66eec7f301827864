//! Where DSH is installed and where its data are.
//!
//! An installation is looked for in the directories that the settings name, among the global npm
//! packages, and in the caches of npx, in this order. What is found is remembered; that nothing was
//! found is not, so that a new installation is seen at once.

use crate::json::{as_text, field, get, json_text, parse, text, Json};
use crate::numbers::{decimal, digits_of};
use crate::order::{ascending, sort_strings};
use crate::path::{
    ancestor, body_start, has_drive, is_sep, join_path, joined, law_up_undoes_join, tidy_end, up,
    up_by,
};
use crate::text::{lower, lower_of, opt_view, same, trim, trim_of, views};
use crate::util::{lossy, lossy_text};
use vstd::prelude::*;

verus! {

/// The name of the DSH package.
pub const DSH_PKG_NAME: &'static str = "@deepseek-ai/dsh";

/// The program file of DSH below an installation.
pub const DSH_BIN_REL: &'static str = "node_modules\\@deepseek-ai\\dsh\\lib\\bin.js";

/// An installation of DSH.
pub struct DshInstall {
    /// The path of its program file.
    pub bin: String,
    /// The directory that holds its `node_modules`.
    pub pkg_root: String,
    /// Whether it is a global npm package.
    pub is_global: bool,
}

/// The values of an installation.
pub struct InstallView {
    /// The path of its program file.
    pub bin: Seq<char>,
    /// The directory that holds its `node_modules`.
    pub pkg_root: Seq<char>,
    /// Whether it is a global npm package.
    pub is_global: bool,
}

impl View for DshInstall {
    type V = InstallView;

    open spec fn view(&self) -> InstallView {
        InstallView { bin: self.bin@, pkg_root: self.pkg_root@, is_global: self.is_global }
    }
}

/// The values of an installation that may be missing.
pub open spec fn install_opt(o: Option<DshInstall>) -> Option<InstallView> {
    match o {
        Some(i) => Some(i@),
        None => None,
    }
}

/// The installation with the program file `bin`: its root lies five levels above.
pub open spec fn install_at(bin: Seq<char>, is_global: bool) -> InstallView {
    InstallView {
        bin,
        pkg_root: match up_by(bin, 5) {
            Some(p) => p,
            None => Seq::empty(),
        },
        is_global,
    }
}

/// The installation with the program file `bin`.
pub fn make_install(bin: String, is_global: bool) -> (r: DshInstall)
    ensures
        r@ == install_at(bin@, is_global),
{
    let pkg_root = match ancestor(bin.as_str(), 5) {
        Some(p) => p,
        None => String::new(),
    };
    DshInstall { bin, pkg_root, is_global }
}

impl DshInstall {
    /// The same installation once more.
    pub fn copy(&self) -> (r: DshInstall)
        ensures
            r@ == self@,
    {
        DshInstall {
            bin: self.bin.clone(),
            pkg_root: self.pkg_root.clone(),
            is_global: self.is_global,
        }
    }
}

/// What the search goes by besides what it asks for.
pub struct Places {
    /// The `dDrivePath` of the settings.
    pub d_drive_path: String,
    /// The `junctionPath` of the settings.
    pub junction_path: String,
    /// The directory for local application data.
    pub local_app_data: Option<String>,
}

/// A question that the search asks.
pub enum Probe {
    /// Whether the program file is there, and whether it would be a global package's.
    File(String, bool),
    /// What the directory of the global packages is.
    NpmRoot,
    /// What the directory of npm's cache is.
    NpmCache,
    /// What the newest DSH in an npx cache is.
    Npx(String),
}

/// The values of a question.
pub enum ProbeView {
    /// Whether a file is there.
    File(Seq<char>, bool),
    /// The directory of the global packages.
    NpmRoot,
    /// The directory of npm's cache.
    NpmCache,
    /// The newest DSH in an npx cache.
    Npx(Seq<char>),
}

impl View for Probe {
    type V = ProbeView;

    open spec fn view(&self) -> ProbeView {
        match self {
            Probe::File(p, g) => ProbeView::File(p@, *g),
            Probe::NpmRoot => ProbeView::NpmRoot,
            Probe::NpmCache => ProbeView::NpmCache,
            Probe::Npx(p) => ProbeView::Npx(p@),
        }
    }
}

/// The values of a list of questions.
pub open spec fn probes(v: Seq<Probe>) -> Seq<ProbeView> {
    Seq::new(v.len(), |i: int| v[i]@)
}

/// An answer: to the question for a file whether it is there, to the others a text.
pub struct Answer {
    /// Whether the file is there.
    pub yes: bool,
    /// The text, where there is one.
    pub text: Option<String>,
}

/// Where the search stands.
pub enum Search {
    /// The questions that are left, the next one first.
    Asking(Vec<Probe>),
    /// What was found.
    Done(Option<DshInstall>),
}

/// The values of a search.
pub enum SearchView {
    /// The questions that are left.
    Asking(Seq<ProbeView>),
    /// What was found.
    Done(Option<InstallView>),
}

impl View for Search {
    type V = SearchView;

    open spec fn view(&self) -> SearchView {
        match self {
            Search::Asking(q) => SearchView::Asking(probes(q@)),
            Search::Done(o) => SearchView::Done(install_opt(*o)),
        }
    }
}

/// The question for a DSH below `base`, none where `base` is empty.
pub open spec fn base_probe(base: Seq<char>) -> Seq<ProbeView> {
    if base.len() == 0 {
        Seq::empty()
    } else {
        seq![ProbeView::File(base + "\\"@ + DSH_BIN_REL@, false)]
    }
}

/// The questions that a search starts with.
pub open spec fn first_probes(p: Places) -> Seq<ProbeView> {
    base_probe(p.d_drive_path@) + base_probe(p.junction_path@) + seq![
        ProbeView::NpmRoot,
        ProbeView::NpmCache,
    ]
}

/// The roots with `base` behind them, unless it is empty or one of them already, letters large or
/// small.
pub open spec fn with_root(roots: Seq<Seq<char>>, base: Seq<char>) -> Seq<Seq<char>> {
    if base.len() == 0 || exists|i: int|
        0 <= i < roots.len() && lower_of(#[trigger] roots[i]) == lower_of(base) {
        roots
    } else {
        roots.push(base)
    }
}

/// The directories whose npx caches are searched.
pub open spec fn npx_roots(p: Places, cache: Option<Seq<char>>) -> Seq<Seq<char>> {
    let a = match cache {
        Some(c) => seq![c],
        None => Seq::empty(),
    };
    let b = match p.local_app_data {
        Some(l) => a.push(l@ + "\\npm-cache"@),
        None => a,
    };
    with_root(with_root(b, p.d_drive_path@), p.junction_path@)
}

/// The questions for the npx caches.
pub open spec fn npx_probes(roots: Seq<Seq<char>>) -> Seq<ProbeView> {
    Seq::new(roots.len(), |i: int| ProbeView::Npx(roots[i]))
}

/// The search behind an answer to its next question `q[0]`.
pub open spec fn search_next(
    p: Places,
    q: Seq<ProbeView>,
    yes: bool,
    text: Option<Seq<char>>,
) -> SearchView {
    let rest = q.skip(1);
    match q[0] {
        ProbeView::File(bin, g) => if yes {
            SearchView::Done(Some(install_at(bin, g)))
        } else {
            SearchView::Asking(rest)
        },
        ProbeView::NpmRoot => match text {
            Some(root) => SearchView::Asking(
                seq![ProbeView::File(root + "\\@deepseek-ai\\dsh\\lib\\bin.js"@, true)] + rest,
            ),
            None => SearchView::Asking(rest),
        },
        ProbeView::NpmCache => SearchView::Asking(npx_probes(npx_roots(p, text)) + rest),
        ProbeView::Npx(_) => match text {
            Some(bin) => SearchView::Done(Some(install_at(bin, false))),
            None => SearchView::Asking(rest),
        },
    }
}

/// A search without questions has found nothing.
pub open spec fn settled(s: SearchView) -> SearchView {
    match s {
        SearchView::Asking(q) => if q.len() == 0 {
            SearchView::Done(None)
        } else {
            s
        },
        SearchView::Done(_) => s,
    }
}

fn push_base(q: &mut Vec<Probe>, base: &str)
    ensures
        probes(final(q)@) == probes(old(q)@) + base_probe(base@),
{
    let ghost before = probes(q@);
    if !base.is_empty() {
        q.push(Probe::File(base.to_owned().concat("\\").concat(DSH_BIN_REL), false));
    }
    proof {
        assert(probes(q@) =~= before + base_probe(base@));
    }
}

/// The start of a search.
pub fn search_start(p: &Places) -> (r: Search)
    ensures
        r@ == SearchView::Asking(first_probes(*p)),
{
    let mut q: Vec<Probe> = Vec::new();
    proof {
        assert(probes(q@) =~= Seq::empty());
    }
    push_base(&mut q, p.d_drive_path.as_str());
    push_base(&mut q, p.junction_path.as_str());
    q.push(Probe::NpmRoot);
    q.push(Probe::NpmCache);
    proof {
        assert(probes(q@) =~= first_probes(*p));
    }
    Search::Asking(q)
}

fn push_root(roots: &mut Vec<String>, base: &str)
    ensures
        views(final(roots)@) == with_root(views(old(roots)@), base@),
{
    let ghost all = views(roots@);
    if base.is_empty() {
        return;
    }
    let b = lower(base);
    let mut i: usize = 0;
    while i < roots.len()
        invariant
            i <= roots@.len(),
            all == views(roots@),
            *roots == *old(roots),
            b@ == lower_of(base@),
            base@.len() > 0,
            forall|k: int| 0 <= k < i ==> lower_of(#[trigger] all[k]) != lower_of(base@),
        decreases roots@.len() - i,
    {
        if same(lower(roots[i].as_str()).as_str(), b.as_str()) {
            proof {
                assert(lower_of(all[i as int]) == lower_of(base@));
            }
            return;
        }
        i += 1;
    }
    roots.push(base.to_owned());
    proof {
        assert(views(roots@) =~= all.push(base@));
    }
}

fn npx_root_list(p: &Places, cache: Option<String>) -> (r: Vec<String>)
    ensures
        views(r@) == npx_roots(*p, opt_view(cache)),
{
    let mut roots: Vec<String> = Vec::new();
    match cache {
        Some(c) => {
            roots.push(c);
        },
        None => {},
    }
    proof {
        assert(views(roots@) =~= (match opt_view(cache) {
            Some(c) => seq![c],
            None => Seq::empty(),
        }));
    }
    let ghost a = views(roots@);
    match &p.local_app_data {
        Some(l) => {
            roots.push(l.clone().concat("\\npm-cache"));
            proof {
                assert(views(roots@) =~= a.push(l@ + "\\npm-cache"@));
            }
        },
        None => {},
    }
    push_root(&mut roots, p.d_drive_path.as_str());
    push_root(&mut roots, p.junction_path.as_str());
    roots
}

/// The search behind an answer to its next question.
pub fn search_step(p: &Places, s: Search, a: Answer) -> (r: Search)
    ensures
        r@ == (match settled(s@) {
            SearchView::Asking(q) => search_next(*p, q, a.yes, opt_view(a.text)),
            SearchView::Done(o) => SearchView::Done(o),
        }),
{
    match s {
        Search::Done(o) => Search::Done(o),
        Search::Asking(q) => {
            let ghost all = probes(q@);
            let mut q = q;
            if q.len() == 0 {
                return Search::Done(None);
            }
            let first = q.remove(0);
            proof {
                assert(first@ == all[0]);
                assert(probes(q@) =~= all.skip(1));
            }
            match first {
                Probe::File(bin, g) => if a.yes {
                    Search::Done(Some(make_install(bin, g)))
                } else {
                    Search::Asking(q)
                },
                Probe::NpmRoot => {
                    match a.text {
                        Some(root) => {
                            let bin = root.concat("\\@deepseek-ai\\dsh\\lib\\bin.js");
                            q.insert(0, Probe::File(bin, true));
                            proof {
                                assert(probes(q@) =~= seq![ProbeView::File(bin@, true)] + all.skip(
                                    1,
                                ));
                            }
                        },
                        None => {},
                    }
                    Search::Asking(q)
                },
                Probe::NpmCache => {
                    let roots = npx_root_list(p, a.text);
                    let ghost rv = views(roots@);
                    let mut out: Vec<Probe> = Vec::new();
                    let mut i: usize = 0;
                    while i < roots.len()
                        invariant
                            i <= roots@.len(),
                            rv == views(roots@),
                            probes(out@) == npx_probes(rv).take(i as int),
                        decreases roots@.len() - i,
                    {
                        let ghost before = out@;
                        out.push(Probe::Npx(roots[i].clone()));
                        proof {
                            assert(probes(out@) =~= probes(before).push(out@.last()@));
                            assert(out@.last()@ == npx_probes(rv)[i as int]);
                            assert(probes(out@) =~= npx_probes(rv).take(i + 1));
                        }
                        i += 1;
                    }
                    let ghost front = probes(out@);
                    proof {
                        assert(front =~= npx_probes(rv));
                    }
                    let ghost rest = q@;
                    out.append(&mut q);
                    proof {
                        assert(probes(out@) =~= front + probes(rest));
                    }
                    Search::Asking(out)
                },
                Probe::Npx(_) => match a.text {
                    Some(bin) => Search::Done(Some(make_install(bin, false))),
                    None => Search::Asking(q),
                },
            }
        },
    }
}

/// A machine as the search sees it.
pub struct World {
    /// Which files are there.
    pub files: spec_fn(Seq<char>) -> bool,
    /// The directory of the global packages.
    pub root: Option<Seq<char>>,
    /// The directory of npm's cache.
    pub cache: Option<Seq<char>>,
    /// The newest DSH in an npx cache.
    pub npx: spec_fn(Seq<char>) -> Option<Seq<char>>,
}

/// A search on a machine, after at most `n` answers.
pub open spec fn search_run(p: Places, w: World, s: SearchView, n: nat) -> SearchView
    decreases n,
{
    match settled(s) {
        SearchView::Done(o) => SearchView::Done(o),
        SearchView::Asking(q) => if n == 0 {
            s
        } else {
            let next = match q[0] {
                ProbeView::File(bin, _) => search_next(p, q, (w.files)(bin), None),
                ProbeView::NpmRoot => search_next(p, q, false, w.root),
                ProbeView::NpmCache => search_next(p, q, false, w.cache),
                ProbeView::Npx(r) => search_next(p, q, false, (w.npx)(r)),
            };
            search_run(p, w, next, (n - 1) as nat)
        },
    }
}

/// The first DSH in a list of npx caches.
pub open spec fn first_npx(w: World, roots: Seq<Seq<char>>) -> Option<InstallView>
    decreases roots.len(),
{
    if roots.len() == 0 {
        None
    } else {
        match (w.npx)(roots[0]) {
            Some(bin) => Some(install_at(bin, false)),
            None => first_npx(w, roots.skip(1)),
        }
    }
}

/// The DSH below `base`, where it is there.
pub open spec fn dsh_below(w: World, base: Seq<char>) -> Option<InstallView> {
    if base.len() > 0 && (w.files)(base + "\\"@ + DSH_BIN_REL@) {
        Some(install_at(base + "\\"@ + DSH_BIN_REL@, false))
    } else {
        None
    }
}

/// The global DSH, where it is there.
pub open spec fn global_dsh(w: World) -> Option<InstallView> {
    match w.root {
        Some(r) => if (w.files)(r + "\\@deepseek-ai\\dsh\\lib\\bin.js"@) {
            Some(install_at(r + "\\@deepseek-ai\\dsh\\lib\\bin.js"@, true))
        } else {
            None
        },
        None => None,
    }
}

/// The DSH that counts on a machine: one that the settings name, else the global one, else one in
/// an npx cache.
pub open spec fn dsh_on(p: Places, w: World) -> Option<InstallView> {
    if dsh_below(w, p.d_drive_path@) is Some {
        dsh_below(w, p.d_drive_path@)
    } else if dsh_below(w, p.junction_path@) is Some {
        dsh_below(w, p.junction_path@)
    } else if global_dsh(w) is Some {
        global_dsh(w)
    } else {
        first_npx(w, npx_roots(p, w.cache))
    }
}

proof fn lemma_run_npx(p: Places, w: World, roots: Seq<Seq<char>>, n: nat)
    requires
        n >= roots.len(),
    ensures
        search_run(p, w, SearchView::Asking(npx_probes(roots)), n) == SearchView::Done(
            first_npx(w, roots),
        ),
    decreases roots.len(),
{
    let q = npx_probes(roots);
    if roots.len() > 0 {
        assert(q.skip(1) =~= npx_probes(roots.skip(1)));
        if (w.npx)(roots[0]) is None {
            lemma_run_npx(p, w, roots.skip(1), (n - 1) as nat);
        } else {
            let next = search_next(p, q, false, (w.npx)(roots[0]));
            assert(search_run(p, w, next, (n - 1) as nat) == next);
        }
    }
}

proof fn lemma_run_file(p: Places, w: World, base: Seq<char>, rest: Seq<ProbeView>, n: nat)
    requires
        n >= 1,
        rest.len() > 0,
    ensures
        search_run(p, w, SearchView::Asking(base_probe(base) + rest), n) == (if dsh_below(
            w,
            base,
        ) is Some {
            SearchView::Done(dsh_below(w, base))
        } else if base.len() == 0 {
            search_run(p, w, SearchView::Asking(rest), n)
        } else {
            search_run(p, w, SearchView::Asking(rest), (n - 1) as nat)
        }),
{
    let q = base_probe(base) + rest;
    if base.len() == 0 {
        assert(q =~= rest);
    } else {
        assert(q.skip(1) =~= rest);
        if dsh_below(w, base) is Some {
            let next = SearchView::Done(dsh_below(w, base));
            assert(search_run(p, w, next, (n - 1) as nat) == next);
        }
    }
}

proof fn lemma_roots_few(p: Places, cache: Option<Seq<char>>)
    ensures
        npx_roots(p, cache).len() <= 4,
{
}

/// A search asks in the order of precedence, and it ends after nine answers at most.
pub proof fn law_search_finds(p: Places, w: World)
    ensures
        search_run(p, w, SearchView::Asking(first_probes(p)), 9) == SearchView::Done(dsh_on(p, w)),
{
    let d = p.d_drive_path@;
    let j = p.junction_path@;
    let two = seq![ProbeView::NpmRoot, ProbeView::NpmCache];
    let tail = base_probe(j) + two;
    assert(first_probes(p) =~= base_probe(d) + tail);
    lemma_run_file(p, w, d, tail, 9);
    if dsh_below(w, d) is None {
        lemma_run_file(p, w, j, two, 9);
        lemma_run_file(p, w, j, two, 8);
        if dsh_below(w, j) is None {
            lemma_run_two(p, w, 9);
            lemma_run_two(p, w, 8);
            lemma_run_two(p, w, 7);
        }
    }
}

proof fn lemma_run_two(p: Places, w: World, n: nat)
    requires
        n >= 7,
    ensures
        search_run(
            p,
            w,
            SearchView::Asking(seq![ProbeView::NpmRoot, ProbeView::NpmCache]),
            n,
        ) == SearchView::Done(
            if global_dsh(w) is Some {
                global_dsh(w)
            } else {
                first_npx(w, npx_roots(p, w.cache))
            },
        ),
{
    let two = seq![ProbeView::NpmRoot, ProbeView::NpmCache];
    let one = seq![ProbeView::NpmCache];
    assert(two.skip(1) =~= one);
    let roots = npx_roots(p, w.cache);
    lemma_roots_few(p, w.cache);
    assert(one.skip(1) =~= Seq::empty());
    assert(npx_probes(roots) + one.skip(1) =~= npx_probes(roots));
    match w.root {
        None => {
            let m = (n - 1) as nat;
            lemma_run_npx(p, w, roots, (m - 1) as nat);
            assert(search_run(p, w, SearchView::Asking(one), m) == search_run(
                p,
                w,
                SearchView::Asking(npx_probes(roots)),
                (m - 1) as nat,
            ));
        },
        Some(r) => {
            let bin = r + "\\@deepseek-ai\\dsh\\lib\\bin.js"@;
            let f = seq![ProbeView::File(bin, true)] + one;
            let m = (n - 1) as nat;
            assert(f[0] == ProbeView::File(bin, true));
            assert(f.skip(1) =~= one);
            if (w.files)(bin) {
                let next = SearchView::Done(Some(install_at(bin, true)));
                assert(search_run(p, w, next, (m - 1) as nat) == next);
                assert(search_run(p, w, SearchView::Asking(f), m) == next);
            } else {
                let k = (m - 1) as nat;
                lemma_run_npx(p, w, roots, (k - 1) as nat);
                assert(search_run(p, w, SearchView::Asking(one), k) == search_run(
                    p,
                    w,
                    SearchView::Asking(npx_probes(roots)),
                    (k - 1) as nat,
                ));
                assert(search_run(p, w, SearchView::Asking(f), m) == search_run(
                    p,
                    w,
                    SearchView::Asking(one),
                    k,
                ));
            }
        },
    }
}

/// The root of an installation below a directory on a drive is that directory.
pub proof fn law_install_root(base: Seq<char>)
    requires
        has_drive(base),
        base.len() > 3,
        is_sep(base[2]),
        !is_sep(base.last()),
        tidy_end(base, 3) == base,
    ensures
        install_at(base + "\\"@ + DSH_BIN_REL@, false).pkg_root == base,
{
    reveal_strlit("\\");
    reveal_strlit("node_modules\\@deepseek-ai\\dsh\\lib\\bin.js");
    reveal_strlit("node_modules");
    reveal_strlit("@deepseek-ai");
    reveal_strlit("dsh");
    reveal_strlit("lib");
    reveal_strlit("bin.js");
    let a = joined(base, "node_modules"@);
    let b = joined(a, "@deepseek-ai"@);
    let c = joined(b, "dsh"@);
    let d = joined(c, "lib"@);
    let e = joined(d, "bin.js"@);
    lemma_below(base, "node_modules"@);
    lemma_below(a, "@deepseek-ai"@);
    lemma_below(b, "dsh"@);
    lemma_below(c, "lib"@);
    lemma_below(d, "bin.js"@);
    assert(e =~= base + "\\"@ + DSH_BIN_REL@);
    reveal_with_fuel(up_by, 6);
    assert(up(e) == Some(d));
    assert(up(d) == Some(c));
    assert(up(c) == Some(b));
    assert(up(b) == Some(a));
    assert(up(a) == Some(base));
}

proof fn lemma_below(dir: Seq<char>, name: Seq<char>)
    requires
        has_drive(dir),
        dir.len() > 3,
        is_sep(dir[2]),
        !is_sep(dir.last()),
        tidy_end(dir, 3) == dir,
        name.len() > 1,
        !has_drive(name),
        forall|i: int| 0 <= i < name.len() ==> !is_sep(#[trigger] name[i]),
    ensures
        ({
            let p = joined(dir, name);
            &&& up(p) == Some(dir)
            &&& has_drive(p) && p.len() > 3 && is_sep(p[2]) && !is_sep(p.last())
            &&& tidy_end(p, 3) == p
            &&& p == dir + "\\"@ + name
        }),
{
    reveal_strlit("\\");
    let p = joined(dir, name);
    assert(!is_sep(name[0]));
    assert(p =~= dir + "\\"@ + name);
    assert(body_start(dir) == 3 && body_start(p) == 3);
    assert(p.last() == name[name.len() - 1]);
    assert(name != seq!['.']) by {
        assert(seq!['.'].len() == 1);
    }
    law_up_undoes_join(dir, name);
    crate::path::lemma_part_of_join(dir, name, name.len() as int, 3);
    assert(name.take(name.len() as int) =~= name);
    assert(p.skip((dir.len() + 1) as int) =~= name);
}

/// The installation that is remembered.
pub struct DshCache {
    /// The installation, where one was found.
    pub install: Option<DshInstall>,
}

/// Forgets the installation.
pub fn clear_dsh_cache(cache: &mut DshCache)
    ensures
        final(cache).install is None,
{
    cache.install = None;
}

/// The installation that is remembered, else the one that a search found, which is remembered from
/// now on. That none was found is not remembered.
pub fn find_dsh(cache: &mut DshCache, searched: Option<DshInstall>) -> (r: Option<DshInstall>)
    ensures
        install_opt(r) == (if old(cache).install is Some {
            install_opt(old(cache).install)
        } else {
            install_opt(searched)
        }),
        install_opt(final(cache).install) == install_opt(r),
{
    match &cache.install {
        Some(i) => {
            return Some(i.copy());
        },
        None => {},
    }
    match searched {
        Some(i) => {
            cache.install = Some(i.copy());
            Some(i)
        },
        None => None,
    }
}

/// The program file of an installation.
pub fn find_bin(install: &Option<DshInstall>) -> (r: Option<String>)
    ensures
        opt_view(r) == (match install_opt(*install) {
            Some(i) => Some(i.bin),
            None => None,
        }),
{
    match install {
        Some(i) => Some(i.bin.clone()),
        None => None,
    }
}

/// What npm said, white space round it left out, where it said something.
pub open spec fn said(out: Seq<char>) -> Option<Seq<char>> {
    let t = trim_of(out);
    if t.len() == 0 {
        None
    } else {
        Some(t)
    }
}

/// What npm said about a setting: `undefined` says nothing.
pub open spec fn said_setting(out: Seq<char>) -> Option<Seq<char>> {
    match said(out) {
        Some(t) => if t == "undefined"@ {
            None
        } else {
            Some(t)
        },
        None => None,
    }
}

/// What npm said, where it said something.
pub fn output_line(out: &str) -> (r: Option<String>)
    ensures
        opt_view(r) == said(out@),
{
    let t = trim(out);
    if t.is_empty() {
        None
    } else {
        Some(t.to_owned())
    }
}

/// What npm said about a setting.
pub fn output_setting(out: &str) -> (r: Option<String>)
    ensures
        opt_view(r) == said_setting(out@),
{
    match output_line(out) {
        Some(t) => if same(t.as_str(), "undefined") {
            None
        } else {
            Some(t)
        },
        None => None,
    }
}

/// The directory of the global packages in the output of `npm root -g`.
pub fn npm_root_global(out: Option<&[u8]>) -> (r: Option<String>)
    ensures
        opt_view(r) == (match out {
            Some(b) => said(lossy_text(b@)),
            None => None,
        }),
{
    match out {
        Some(b) => output_line(lossy(b).as_str()),
        None => None,
    }
}

/// The directory of npm's cache in the output of `npm config get cache`.
pub fn npm_config_cache(out: Option<&[u8]>) -> (r: Option<String>)
    ensures
        opt_view(r) == (match out {
            Some(b) => said_setting(lossy_text(b@)),
            None => None,
        }),
{
    match out {
        Some(b) => output_setting(lossy(b).as_str()),
        None => None,
    }
}

/// A directory in an npx cache.
pub struct NpxEntry {
    /// Its path.
    pub path: String,
    /// Whether it is a directory.
    pub is_dir: bool,
    /// Whether it holds the program file of DSH.
    pub has_bin: bool,
    /// When it was changed last.
    pub modified: u128,
}

/// Whether an entry of an npx cache holds DSH.
pub open spec fn holds_dsh(e: NpxEntry) -> bool {
    e.is_dir && e.has_bin
}

/// Whether the entry `i` is the newest that holds DSH, the last one of several.
pub open spec fn newest_dsh(v: Seq<NpxEntry>, i: int) -> bool {
    &&& 0 <= i < v.len()
    &&& holds_dsh(v[i])
    &&& forall|j: int|
        0 <= j < v.len() && holds_dsh(#[trigger] v[j]) ==> v[j].modified <= v[i].modified && (j > i
            ==> v[j].modified < v[i].modified)
}

/// The program file of the newest DSH in an npx cache.
pub fn scan_npx_cache(entries: &Vec<NpxEntry>) -> (r: Option<String>)
    ensures
        match r {
            Some(bin) => exists|i: int| #[trigger]
                newest_dsh(entries@, i) && bin@ == joined(entries@[i].path@, DSH_BIN_REL@),
            None => forall|i: int| 0 <= i < entries@.len() ==> !holds_dsh(#[trigger] entries@[i]),
        },
{
    let mut best: Option<usize> = None;
    let mut i: usize = 0;
    while i < entries.len()
        invariant
            i <= entries@.len(),
            match best {
                Some(b) => b < i && newest_dsh(entries@.take(i as int), b as int),
                None => forall|k: int| 0 <= k < i ==> !holds_dsh(#[trigger] entries@[k]),
            },
        decreases entries@.len() - i,
    {
        let e = &entries[i];
        let ghost before = entries@.take(i as int);
        let ghost now = entries@.take(i + 1);
        proof {
            assert forall|k: int| 0 <= k < i implies now[k] == #[trigger] before[k] by {}
            assert(now[i as int] == *e);
        }
        if e.is_dir && e.has_bin {
            let later = match best {
                Some(b) => entries[b].modified <= e.modified,
                None => true,
            };
            if later {
                proof {
                    match best {
                        Some(b) => {
                            assert forall|j: int|
                                0 <= j < now.len() && holds_dsh(#[trigger] now[j]) implies now[j].modified
                                <= now[i as int].modified by {
                                if j < i {
                                    assert(holds_dsh(before[j]));
                                    assert(before[b as int] == entries@[b as int]);
                                }
                            }
                        },
                        None => {
                            assert forall|j: int|
                                0 <= j < now.len() && holds_dsh(#[trigger] now[j]) implies j
                                == i by {
                                if j < i {
                                    assert(holds_dsh(entries@[j]));
                                }
                            }
                        },
                    }
                    assert(newest_dsh(now, i as int));
                }
                best = Some(i);
            } else {
                proof {
                    let b = best->0 as int;
                    assert(before[b] == entries@[b] && now[b] == entries@[b]);
                    assert(newest_dsh(now, b));
                }
            }
        } else {
            proof {
                if best is Some {
                    let b = best->0 as int;
                    assert(now[b] == before[b]);
                    assert(newest_dsh(now, b));
                }
            }
        }
        i += 1;
    }
    proof {
        assert(entries@.take(entries@.len() as int) =~= entries@);
    }
    match best {
        Some(b) => Some(join_path(entries[b].path.as_str(), DSH_BIN_REL)),
        None => None,
    }
}

/// The directory of the DSH data: `DSH_HOME` where it is not blank, else `.dsh` in the directory
/// of the user.
pub open spec fn home_of(dsh_home: Option<String>, user_profile: Option<String>) -> Seq<char> {
    if dsh_home is Some && trim_of(dsh_home->0@).len() > 0 {
        trim_of(dsh_home->0@)
    } else {
        match user_profile {
            Some(u) => joined(u@, ".dsh"@),
            None => ".dsh"@,
        }
    }
}

/// The directory of the DSH data.
pub fn dsh_home_dir(dsh_home: &Option<String>, user_profile: &Option<String>) -> (r: String)
    ensures
        r@ == home_of(*dsh_home, *user_profile),
{
    match dsh_home {
        Some(h) => {
            let t = trim(h.as_str());
            if !t.is_empty() {
                return t.to_owned();
            }
        },
        None => {},
    }
    match user_profile {
        Some(u) => join_path(u.as_str(), ".dsh"),
        None => ".dsh".to_owned(),
    }
}

/// The address of the web interface.
pub fn web_url(port: u16) -> (r: String)
    ensures
        r@ == "http://127.0.0.1:"@ + digits_of(port as nat),
{
    "http://127.0.0.1:".to_owned().concat(decimal(port as u64).as_str())
}

/// The version that a package's document states.
pub fn package_version(package: &Json) -> (r: Option<String>)
    ensures
        opt_view(r) == as_text(field(package@, "version"@)),
{
    match text(get(package, "version")) {
        Some(s) => Some(s.to_owned()),
        None => None,
    }
}

/// The version of the installed DSH, from the text of its package file.
pub fn get_installed_dsh_version(content: &Option<String>) -> (r: Option<String>)
    ensures
        opt_view(r) == (match content {
            Some(c) => match json_text(c@) {
                Some(t) => as_text(field(t, "version"@)),
                None => None,
            },
            None => None,
        }),
{
    match content {
        Some(c) => match parse(c.as_str()) {
            Some(j) => package_version(&j),
            None => None,
        },
        None => None,
    }
}

/// An entry of the directory of profiles.
pub struct ProfileEntry {
    /// Its name.
    pub name: String,
    /// Whether it holds a package file.
    pub has_package: bool,
}

/// The names of the entries that are profiles.
pub open spec fn profile_names(v: Seq<ProfileEntry>) -> Seq<Seq<char>>
    decreases v.len(),
{
    if v.len() == 0 {
        Seq::empty()
    } else {
        let before = profile_names(v.drop_last());
        if v.last().name@ != "node_modules"@ && v.last().has_package {
            before.push(v.last().name@)
        } else {
            before
        }
    }
}

/// The names of the profiles, in order.
pub fn list_profiles(entries: &Vec<ProfileEntry>) -> (r: Vec<String>)
    ensures
        ascending(views(r@)),
        views(r@).to_multiset() == profile_names(entries@).to_multiset(),
{
    let mut names: Vec<String> = Vec::new();
    let mut i: usize = 0;
    proof {
        assert(views(names@) =~= Seq::empty());
    }
    while i < entries.len()
        invariant
            i <= entries@.len(),
            views(names@) == profile_names(entries@.take(i as int)),
        decreases entries@.len() - i,
    {
        let e = &entries[i];
        let ghost before = names@;
        proof {
            let next = entries@.take(i + 1);
            assert(next.drop_last() =~= entries@.take(i as int));
            assert(next.last() == entries@[i as int]);
        }
        if !same(e.name.as_str(), "node_modules") && e.has_package {
            names.push(e.name.clone());
            proof {
                assert(views(names@) =~= views(before).push(e.name@));
            }
        }
        i += 1;
    }
    proof {
        assert(entries@.take(entries@.len() as int) =~= entries@);
    }
    sort_strings(names)
}

/// What is told when the directory of the installation was to be opened.
pub fn open_install_dir(install: &Option<DshInstall>) -> (r: String)
    ensures
        r@ == (match install_opt(*install) {
            Some(i) => "已打开 "@ + i.pkg_root,
            None => "未找到 DSH 安装目录（尚未安装）"@,
        }),
{
    match install {
        Some(i) => "已打开 ".to_owned().concat(i.pkg_root.as_str()),
        None => "未找到 DSH 安装目录（尚未安装）".to_owned(),
    }
}

} // verus!
