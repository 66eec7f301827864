//! Versions in the manner of SemVer and their precedence.

use crate::numbers::{
    all_digits, digits_of, law_number_round_trip, lemma_digits, number, number_in,
};
use crate::order::{
    comes_before, lemma_before_chain, lemma_before_one_way, lemma_before_total, text_before,
};
use crate::text::{
    drop_front, find, find_char, is_digit, is_space, join_of, lemma_find_char, lemma_find_char_is,
    length, opt_view, part, position, same, split, split_of, stands_at, strip_front, strips, sub_at,
    trim, trim_of,
    views, Strip,
};
use crate::text_laws::{
    all_stripped, law_first_place_is_found, law_strip_takes_off_what_stands_round,
    lemma_front_padded, lemma_split_join, lemma_untrimmed,
};
use std::cmp::Ordering;
use vstd::prelude::*;

verus! {

/// What a version says about its precedence.
pub struct Version {
    /// Major, minor and patch number.
    pub core: Seq<nat>,
    /// The identifiers of a pre-release.
    pub pre: Option<Seq<Seq<char>>>,
}

/// A decimal number that fits in 64 bits.
pub open spec fn small_number(s: Seq<char>) -> Option<nat> {
    number_in(s, u64::MAX as nat)
}

/// How far the numbers of a version reach: up to its first `-` or `+`.
pub open spec fn core_len(s: Seq<char>) -> int {
    let a = find_char(s, '-');
    let b = find_char(s, '+');
    if a <= b {
        a
    } else {
        b
    }
}

/// Three numbers with dots between them.
pub open spec fn core_of(s: Seq<char>) -> Option<Seq<nat>> {
    let p = split_of(s, '.');
    if p.len() == 3 && small_number(p[0]) is Some && small_number(p[1]) is Some && small_number(
        p[2],
    ) is Some {
        Some(seq![small_number(p[0])->0, small_number(p[1])->0, small_number(p[2])->0])
    } else {
        None
    }
}

/// The version `major.minor.patch[-prerelease][+build]` that `s` writes, white space round it
/// left out. What stands behind a `+` has no part in the precedence.
pub open spec fn version_of(s: Seq<char>) -> Option<Version> {
    let t = trim_of(s);
    let n = core_len(t);
    match core_of(t.take(n)) {
        None => None,
        Some(core) => if n < t.len() && t[n] == '-' {
            let pre = split_of(t.skip(n + 1), '+')[0];
            if pre.len() == 0 {
                None
            } else {
                Some(Version { core, pre: Some(split_of(pre, '.')) })
            }
        } else {
            Some(Version { core, pre: None })
        },
    }
}

/// Whether one pre-release identifier comes before another: numbers by their value, other texts
/// by their characters, numbers before other texts.
pub open spec fn ident_before(u: Seq<char>, v: Seq<char>) -> bool {
    match (small_number(u), small_number(v)) {
        (Some(a), Some(b)) => a < b,
        (Some(_), None) => true,
        (None, Some(_)) => false,
        (None, None) => text_before(u, v),
    }
}

/// Whether one list of identifiers comes before another: the first difference decides, and a list
/// comes behind its own beginnings.
pub open spec fn idents_before(p: Seq<Seq<char>>, q: Seq<Seq<char>>) -> bool
    decreases p.len(),
{
    if q.len() == 0 {
        false
    } else if p.len() == 0 {
        true
    } else if p[0] == q[0] {
        idents_before(p.skip(1), q.skip(1))
    } else {
        ident_before(p[0], q[0])
    }
}

/// Whether one version core comes before another.
pub open spec fn core_before(x: Seq<nat>, y: Seq<nat>) -> bool {
    ||| x[0] < y[0]
    ||| x[0] == y[0] && x[1] < y[1]
    ||| x[0] == y[0] && x[1] == y[1] && x[2] < y[2]
}

/// Whether the version `x` has the lower precedence. A pre-release comes before its release.
pub open spec fn version_before(x: Version, y: Version) -> bool {
    ||| core_before(x.core, y.core)
    ||| x.core == y.core && match (x.pre, y.pre) {
        (None, _) => false,
        (Some(_), None) => true,
        (Some(p), Some(q)) => idents_before(p, q),
    }
}

/// Whether the version that `a` writes comes before that of `b`; where one of them writes none,
/// whether the text does.
pub open spec fn ver_before(a: Seq<char>, b: Seq<char>) -> bool {
    match (version_of(a), version_of(b)) {
        (Some(x), Some(y)) => version_before(x, y),
        _ => text_before(a, b),
    }
}

/// The parts of a version as a value of the model.
pub open spec fn parts_view(p: ([u64; 3], Option<Vec<String>>)) -> Version {
    Version {
        core: seq![p.0@[0] as nat, p.0@[1] as nat, p.0@[2] as nat],
        pre: match p.1 {
            Some(v) => Some(views(v@)),
            None => None,
        },
    }
}

fn core_numbers(s: &str) -> (r: Option<[u64; 3]>)
    ensures
        match r {
            Some(a) => core_of(s@) == Some(seq![a@[0] as nat, a@[1] as nat, a@[2] as nat]),
            None => core_of(s@) is None,
        },
{
    let p = split(s, '.');
    if p.len() != 3 {
        return None;
    }
    proof {
        assert(views(p@)[0] == p@[0]@ && views(p@)[1] == p@[1]@ && views(p@)[2] == p@[2]@);
    }
    match (
        number(p[0].as_str(), u64::MAX),
        number(p[1].as_str(), u64::MAX),
        number(p[2].as_str(), u64::MAX),
    ) {
        (Some(a), Some(b), Some(c)) => Some([a, b, c]),
        _ => None,
    }
}

/// The version that `s` writes: its three numbers and the identifiers of a pre-release.
pub fn parse_semver(s: &str) -> (r: Option<([u64; 3], Option<Vec<String>>)>)
    ensures
        match r {
            Some(p) => version_of(s@) == Some(parts_view(p)),
            None => version_of(s@) is None,
        },
{
    let t = trim(s);
    let len: usize = length(t);
    let a: usize = position(t, '-');
    let b: usize = position(t, '+');
    let n: usize = if a <= b {
        a
    } else {
        b
    };
    proof {
        lemma_find_char(t@, '-');
        lemma_find_char(t@, '+');
        assert(t@.subrange(0, n as int) =~= t@.take(n as int));
    }
    match core_numbers(part(t, 0, n)) {
        None => None,
        Some(core) => {
            if n < len && a == n {
                let behind = part(t, n + 1, len);
                proof {
                    assert(behind@ =~= t@.skip(n + 1));
                }
                let pieces = split(behind, '+');
                proof {
                    assert(views(pieces@)[0] == pieces@[0]@);
                }
                let pre = pieces[0].as_str();
                if pre.is_empty() {
                    None
                } else {
                    Some((core, Some(split(pre, '.'))))
                }
            } else {
                Some((core, None))
            }
        },
    }
}

fn lower_ident(u: &str, v: &str) -> (r: bool)
    ensures
        r == ident_before(u@, v@),
{
    match (number(u, u64::MAX), number(v, u64::MAX)) {
        (Some(a), Some(b)) => a < b,
        (Some(_), None) => true,
        (None, Some(_)) => false,
        (None, None) => comes_before(u, v),
    }
}

fn lower_idents(p: &Vec<String>, q: &Vec<String>) -> (r: bool)
    ensures
        r == idents_before(views(p@), views(q@)),
{
    let ghost x = views(p@);
    let ghost y = views(q@);
    let mut i: usize = 0;
    proof {
        assert(x.skip(0) =~= x);
        assert(y.skip(0) =~= y);
    }
    while i < p.len() && i < q.len() && same(p[i].as_str(), q[i].as_str())
        invariant
            x == views(p@),
            y == views(q@),
            i <= p@.len(),
            i <= q@.len(),
            idents_before(x, y) == idents_before(x.skip(i as int), y.skip(i as int)),
        decreases p@.len() - i,
    {
        proof {
            assert(x.skip(i as int).skip(1) =~= x.skip(i + 1));
            assert(y.skip(i as int).skip(1) =~= y.skip(i + 1));
        }
        i += 1;
    }
    if i == q.len() {
        false
    } else if i == p.len() {
        true
    } else {
        lower_ident(p[i].as_str(), q[i].as_str())
    }
}

fn lower_parts(x: &([u64; 3], Option<Vec<String>>), y: &([u64; 3], Option<Vec<String>>)) -> (r:
    bool)
    ensures
        r == version_before(parts_view(*x), parts_view(*y)),
{
    proof {
        let a = parts_view(*x).core;
        let b = parts_view(*y).core;
        if a[0] == b[0] && a[1] == b[1] && a[2] == b[2] {
            assert(a =~= b);
        }
    }
    if x.0[0] != y.0[0] {
        return x.0[0] < y.0[0];
    }
    if x.0[1] != y.0[1] {
        return x.0[1] < y.0[1];
    }
    if x.0[2] != y.0[2] {
        return x.0[2] < y.0[2];
    }
    match (&x.1, &y.1) {
        (None, _) => false,
        (Some(_), None) => true,
        (Some(p), Some(q)) => lower_idents(p, q),
    }
}

fn lower_version(a: &str, b: &str) -> (r: bool)
    ensures
        r == ver_before(a@, b@),
{
    match (parse_semver(a), parse_semver(b)) {
        (Some(x), Some(y)) => lower_parts(&x, &y),
        _ => comes_before(a, b),
    }
}

/// Compares two versions by their precedence. Where one of them is none, the texts are compared.
pub fn cmp_ver(a: &str, b: &str) -> (r: Ordering)
    ensures
        r is Less <==> ver_before(a@, b@),
        r is Greater <==> ver_before(b@, a@),
{
    proof {
        law_versions_one_way(a@, b@);
    }
    if lower_version(a, b) {
        Ordering::Less
    } else if lower_version(b, a) {
        Ordering::Greater
    } else {
        Ordering::Equal
    }
}

/// Whether `latest` is newer than `installed`.
pub fn newer(latest: &str, installed: &str) -> (r: bool)
    ensures
        r == ver_before(installed@, latest@),
{
    match cmp_ver(latest, installed) {
        Ordering::Greater => true,
        _ => false,
    }
}

proof fn lemma_ident_one_way(u: Seq<char>, v: Seq<char>)
    ensures
        !(ident_before(u, v) && ident_before(v, u)),
        u == v ==> !ident_before(u, v),
{
    lemma_before_one_way(u, v);
}

proof fn lemma_idents_one_way(p: Seq<Seq<char>>, q: Seq<Seq<char>>)
    ensures
        !(idents_before(p, q) && idents_before(q, p)),
    decreases p.len(),
{
    if p.len() > 0 && q.len() > 0 {
        if p[0] == q[0] {
            lemma_idents_one_way(p.skip(1), q.skip(1));
        } else {
            lemma_ident_one_way(p[0], q[0]);
        }
    }
}

proof fn lemma_idents_not_self(p: Seq<Seq<char>>)
    ensures
        !idents_before(p, p),
    decreases p.len(),
{
    if p.len() > 0 {
        lemma_idents_not_self(p.skip(1));
    }
}

/// Of two versions at most one comes before the other, so that comparing them the other way round
/// turns the answer round. A version comes not before itself.
pub proof fn law_versions_one_way(a: Seq<char>, b: Seq<char>)
    ensures
        !(ver_before(a, b) && ver_before(b, a)),
        !ver_before(a, a),
{
    lemma_before_one_way(a, b);
    lemma_before_one_way(a, a);
    match version_of(a) {
        Some(x) => {
            match x.pre {
                Some(p) => {
                    lemma_idents_not_self(p);
                },
                None => {},
            }
            match version_of(b) {
                Some(y) => {
                    match (x.pre, y.pre) {
                        (Some(p), Some(q)) => {
                            lemma_idents_one_way(p, q);
                        },
                        _ => {},
                    }
                },
                None => {},
            }
        },
        None => {},
    }
}

proof fn lemma_ident_chain(u: Seq<char>, v: Seq<char>, w: Seq<char>)
    requires
        ident_before(u, v),
        ident_before(v, w),
    ensures
        ident_before(u, w),
{
    if small_number(u) is None {
        lemma_before_chain(u, v, w);
    }
}

proof fn lemma_idents_chain(p: Seq<Seq<char>>, q: Seq<Seq<char>>, r: Seq<Seq<char>>)
    requires
        idents_before(p, q),
        idents_before(q, r),
    ensures
        idents_before(p, r),
    decreases p.len(),
{
    if p.len() > 0 {
        if p[0] == q[0] && q[0] == r[0] {
            lemma_idents_chain(p.skip(1), q.skip(1), r.skip(1));
        } else if p[0] != q[0] && q[0] != r[0] {
            lemma_ident_chain(p[0], q[0], r[0]);
            lemma_ident_one_way(p[0], r[0]);
        }
    }
}

/// The precedence of versions is transitive.
pub proof fn law_versions_chain(a: Seq<char>, b: Seq<char>, c: Seq<char>)
    requires
        version_of(a) is Some,
        version_of(b) is Some,
        version_of(c) is Some,
        ver_before(a, b),
        ver_before(b, c),
    ensures
        ver_before(a, c),
{
    let x = version_of(a)->0;
    let y = version_of(b)->0;
    let z = version_of(c)->0;
    if x.core == y.core && y.core == z.core {
        match (x.pre, y.pre, z.pre) {
            (Some(p), Some(q), Some(r)) => {
                lemma_idents_chain(p, q, r);
            },
            _ => {},
        }
    }
}

/// A pre-release comes before the release with the same numbers.
pub proof fn law_prerelease_before_release(a: Seq<char>, b: Seq<char>)
    requires
        version_of(a) is Some,
        version_of(b) is Some,
        version_of(a)->0.core == version_of(b)->0.core,
        version_of(a)->0.pre is Some,
        version_of(b)->0.pre is None,
    ensures
        ver_before(a, b),
{
}

/// Build metadata has no part in the precedence.
pub proof fn law_build_metadata_is_ignored(s: Seq<char>, build: Seq<char>)
    requires
        s.len() > 0,
        !is_space(s[0]),
        !is_space(s.last()),
        !s.contains('+'),
        build.len() > 0 ==> !is_space(build.last()),
    ensures
        version_of(s + seq!['+'] + build) == version_of(s),
{
    let t = s + seq!['+'] + build;
    lemma_untrimmed(s, Strip::Space);
    assert(t[0] == s[0]);
    assert(t.last() == if build.len() > 0 {
        build.last()
    } else {
        '+'
    });
    lemma_untrimmed(t, Strip::Space);
    lemma_find_char(s, '-');
    lemma_find_char(s, '+');
    let m = find_char(s, '-');
    assert forall|j: int| 0 <= j < s.len() implies t[j] != '+' by {
        assert(t[j] == s[j]);
        assert(s.contains(s[j]));
    }
    lemma_find_char_is(t, '+', s.len() as int);
    lemma_find_char(t, '-');
    if m < s.len() {
        assert forall|j: int| 0 <= j < m implies t[j] != '-' by {
            assert(t[j] == s[j]);
        }
        lemma_find_char_is(t, '-', m);
        assert(t.take(m) =~= s.take(m));
        let a = s.skip(m + 1);
        let b = t.skip(m + 1);
        assert(!a.contains('+')) by {
            if a.contains('+') {
                let j = choose|j: int| 0 <= j < a.len() && a[j] == '+';
                assert(s[j + m + 1] == '+');
            }
        }
        lemma_find_char(a, '+');
        assert forall|j: int| 0 <= j < a.len() implies b[j] != '+' by {
            assert(b[j] == t[j + m + 1]);
        }
        assert(b[a.len() as int] == '+');
        lemma_find_char_is(b, '+', a.len() as int);
        assert(b.take(a.len() as int) =~= a);
    } else {
        assert(find_char(t, '-') >= s.len()) by {
            let k = find_char(t, '-');
            if k < s.len() {
                assert(t[k] == s[k]);
                assert(s.contains('-'));
            }
        }
        assert(t.take(s.len() as int) =~= s);
        assert(s.take(s.len() as int) =~= s);
        assert(t[s.len() as int] == '+');
    }
}

/// The string behind the next colon.
pub open spec fn string_value(behind: Seq<char>) -> Option<Seq<char>> {
    let colon = find_char(behind, ':');
    let value = drop_front(behind.skip(colon + 1), Strip::Space);
    let text = value.skip(1);
    let end = find_char(text, '"');
    if colon < behind.len() && value.len() > 0 && value[0] == '"' && end < text.len() {
        Some(text.take(end))
    } else {
        None
    }
}

/// The value of the first field `"version"` in a configuration file, where it is a string.
pub open spec fn conf_version(s: Seq<char>) -> Option<Seq<char>> {
    match sub_at(s, "\"version\""@, 0) {
        Some(i) => string_value(s.skip(i + "\"version\""@.len())),
        None => None,
    }
}

/// The value of the first field `"version"` in the text of a configuration file.
pub fn extract_conf_version(s: &str) -> (r: Option<String>)
    ensures
        opt_view(r) == conf_version(s@),
{
    let key = "\"version\"";
    let n: usize = match find(s, key) {
        Some(n) => n,
        None => {
            return None;
        },
    };
    let len: usize = length(s);
    let klen: usize = length(key);
    let behind = part(s, n + klen, len);
    proof {
        assert(behind@ =~= s@.skip(n + key@.len()));
        lemma_find_char(behind@, ':');
    }
    let colon: usize = position(behind, ':');
    let blen: usize = length(behind);
    if colon == blen {
        return None;
    }
    let rest = part(behind, colon + 1, blen);
    proof {
        assert(rest@ =~= behind@.skip(colon + 1));
    }
    let value = strip_front(rest, Strip::Space);
    if value.is_empty() || value.get_char(0) != '"' {
        return None;
    }
    let vlen: usize = length(value);
    let inner = part(value, 1, vlen);
    proof {
        assert(inner@ =~= value@.skip(1));
        lemma_find_char(inner@, '"');
    }
    let end: usize = position(inner, '"');
    if end == vlen - 1 {
        return None;
    }
    let out = part(inner, 0, end);
    proof {
        assert(out@ =~= inner@.take(end as int));
    }
    Some(out.to_owned())
}

/// What stands against a build whose two version numbers are not the same.
pub fn check_versions(cargo: &str, conf: &Option<String>) -> (r: Result<(), String>)
    ensures
        match *conf {
            None => r matches Err(m) && m@ == "tauri.conf.json 中未找到顶层 \"version\" 字段"@,
            Some(v) => if v@ == cargo@ {
                r is Ok
            } else {
                r matches Err(m) && m@ == "版本号不一致：Cargo.toml = "@ + cargo@
                    + "，tauri.conf.json = "@ + v@ + "（请同步后重新构建）"@
            },
        },
{
    match conf {
        None => Err("tauri.conf.json 中未找到顶层 \"version\" 字段".to_owned()),
        Some(v) => if same(v.as_str(), cargo) {
            Ok(())
        } else {
            Err(
                "版本号不一致：Cargo.toml = ".to_owned().concat(cargo).concat(
                    "，tauri.conf.json = ",
                ).concat(v.as_str()).concat("（请同步后重新构建）"),
            )
        },
    }
}

/// Of two pre-releases that begin alike, the first identifiers in which they differ decide.
pub proof fn law_first_different_identifier_decides(
    p: Seq<Seq<char>>,
    q: Seq<Seq<char>>,
    n: int,
)
    requires
        0 <= n < p.len(),
        n < q.len(),
        p.take(n) == q.take(n),
        p[n] != q[n],
    ensures
        idents_before(p, q) == ident_before(p[n], q[n]),
    decreases n,
{
    if n > 0 {
        assert(p[0] == p.take(n)[0]);
        assert(q[0] == q.take(n)[0]);
        assert(p.skip(1).take(n - 1) =~= p.take(n).skip(1));
        assert(q.skip(1).take(n - 1) =~= q.take(n).skip(1));
        law_first_different_identifier_decides(p.skip(1), q.skip(1), n - 1);
    }
}

/// Of two pre-releases of which one begins with all the identifiers of the other, the shorter one
/// comes first.
pub proof fn law_shorter_prerelease_comes_first(p: Seq<Seq<char>>, q: Seq<Seq<char>>)
    requires
        p.len() < q.len(),
        p == q.take(p.len() as int),
    ensures
        idents_before(p, q),
        !idents_before(q, p),
    decreases p.len(),
{
    if p.len() > 0 {
        assert(p[0] == q[0]);
        assert(p.skip(1) =~= q.skip(1).take(p.len() - 1));
        law_shorter_prerelease_comes_first(p.skip(1), q.skip(1));
    }
}

/// The first number in which two versions differ decides, whatever else they hold.
pub proof fn law_first_different_number_decides(x: Version, y: Version, i: int)
    requires
        x.core.len() == 3,
        y.core.len() == 3,
        0 <= i < 3,
        x.core.take(i) == y.core.take(i),
        x.core[i] != y.core[i],
    ensures
        version_before(x, y) == (x.core[i] < y.core[i]),
        version_before(y, x) == (y.core[i] < x.core[i]),
{
    assert forall|j: int| 0 <= j < i implies x.core[j] == y.core[j] by {
        assert(x.core[j] == x.core.take(i)[j]);
        assert(y.core[j] == y.core.take(i)[j]);
    }
    assert(x.core != y.core);
}

/// Of two pre-releases with the same numbers their identifiers decide; a release comes before none
/// of its pre-releases.
pub proof fn law_prereleases_go_by_their_identifiers(x: Version, y: Version)
    requires
        x.core == y.core,
        x.pre is Some,
    ensures
        y.pre is Some ==> version_before(x, y) == idents_before(x.pre->0, y.pre->0),
        y.pre is None ==> version_before(x, y) && !version_before(y, x),
{
}

/// Identifiers that are numbers go by their value and come before all others; others go by their
/// characters.
pub proof fn law_identifiers_in_order(a: nat, b: nat, u: Seq<char>, v: Seq<char>)
    requires
        a <= u64::MAX,
        b <= u64::MAX,
        exists|i: int| 0 <= i < u.len() && !is_digit(#[trigger] u[i]),
        exists|i: int| 0 <= i < v.len() && !is_digit(#[trigger] v[i]),
        u[0] != '+',
        v[0] != '+',
    ensures
        ident_before(digits_of(a), digits_of(b)) <==> a < b,
        ident_before(digits_of(a), v),
        !ident_before(v, digits_of(a)),
        ident_before(u, v) <==> text_before(u, v),
{
    law_number_round_trip(a, u64::MAX as nat);
    law_number_round_trip(b, u64::MAX as nat);
    assert(!all_digits(u));
    assert(!all_digits(v));
}

proof fn lemma_equal_idents(p: Seq<Seq<char>>, q: Seq<Seq<char>>) -> (n: int)
    requires
        !idents_before(p, q),
        !idents_before(q, p),
    ensures
        0 <= n <= p.len(),
        n <= q.len(),
        p.take(n) == q.take(n),
        (n == p.len() && n == q.len()) || (n < p.len() && n < q.len() && p[n] != q[n]
            && small_number(p[n]) is Some && small_number(p[n]) == small_number(q[n])),
    decreases p.len(),
{
    if p.len() == 0 || q.len() == 0 {
        assert(p.take(0) =~= q.take(0));
        0
    } else if p[0] == q[0] {
        let n = lemma_equal_idents(p.skip(1), q.skip(1));
        assert(p.take(n + 1) =~= seq![p[0]] + p.skip(1).take(n));
        assert(q.take(n + 1) =~= seq![q[0]] + q.skip(1).take(n));
        n + 1
    } else {
        lemma_before_total(p[0], q[0]);
        assert(p.take(0) =~= q.take(0));
        0
    }
}

/// Two versions of which neither comes first have the same numbers, and either both are releases
/// or their identifiers are the same up to the end or up to two that write the same number
/// differently.
pub proof fn law_equal_versions_say_the_same(a: Seq<char>, b: Seq<char>)
    requires
        version_of(a) is Some,
        version_of(b) is Some,
        !ver_before(a, b),
        !ver_before(b, a),
    ensures
        version_of(a)->0.core == version_of(b)->0.core,
        version_of(a)->0.pre is Some <==> version_of(b)->0.pre is Some,
        version_of(a)->0.pre is Some ==> ({
            let p = version_of(a)->0.pre->0;
            let q = version_of(b)->0.pre->0;
            exists|n: int|
                0 <= n <= p.len() && n <= q.len() && #[trigger] p.take(n) == q.take(n) && ((n
                    == p.len() && n == q.len()) || (n < p.len() && n < q.len() && p[n] != q[n]
                    && small_number(p[n]) is Some && small_number(p[n]) == small_number(q[n])))
        }),
{
    let x = version_of(a)->0;
    let y = version_of(b)->0;
    assert(x.core =~= y.core);
    if x.pre is Some && y.pre is Some {
        let p = x.pre->0;
        let q = y.pre->0;
        let n = lemma_equal_idents(p, q);
        assert(p.take(n) == q.take(n));
    }
}

/// A version that is written with three numbers, and with identifiers for a pre-release, is read
/// with those numbers and those identifiers, white space round it left out.
pub proof fn law_written_version_is_read(
    before: Seq<char>,
    a: nat,
    b: nat,
    c: nat,
    ids: Seq<Seq<char>>,
    behind: Seq<char>,
)
    requires
        all_stripped(before, Strip::Space),
        all_stripped(behind, Strip::Space),
        a <= u64::MAX,
        b <= u64::MAX,
        c <= u64::MAX,
        ids.len() > 0,
        join_of(ids, "."@).len() > 0,
        !is_space(join_of(ids, "."@).last()),
        !join_of(ids, "."@).contains('+'),
        forall|i: int| 0 <= i < ids.len() ==> !(#[trigger] ids[i]).contains('.'),
    ensures
        version_of(before + numbers_text(a, b, c) + behind) == Some(
            Version { core: seq![a, b, c], pre: None },
        ),
        version_of(before + (numbers_text(a, b, c) + seq!['-'] + join_of(ids, "."@)) + behind)
            == Some(Version { core: seq![a, b, c], pre: Some(ids) }),
{
    reveal_strlit(".");
    let t = numbers_text(a, b, c);
    let parts = seq![digits_of(a), digits_of(b), digits_of(c)];
    lemma_digits(a);
    lemma_digits(b);
    lemma_digits(c);
    law_number_round_trip(a, u64::MAX as nat);
    law_number_round_trip(b, u64::MAX as nat);
    law_number_round_trip(c, u64::MAX as nat);
    lemma_digits_only(digits_of(a));
    lemma_digits_only(digits_of(b));
    lemma_digits_only(digits_of(c));
    assert("."@ =~= seq!['.']);
    lemma_split_join(parts, '.');
    lemma_three(digits_of(a), digits_of(b), digits_of(c));
    assert(split_of(t, '.') == parts);
    assert(core_of(t) == Some(seq![a, b, c]));
    assert(forall|i: int| 0 <= i < t.len() ==> is_digit(#[trigger] t[i]) || t[i] == '.');
    assert(is_digit(t[0]) && is_digit(t.last()));
    law_strip_takes_off_what_stands_round(before, t, behind, Strip::Space);
    lemma_find_char_is(t, '-', t.len() as int);
    lemma_find_char_is(t, '+', t.len() as int);
    assert(t.take(t.len() as int) =~= t);
    let pre = join_of(ids, "."@);
    let u = t + seq!['-'] + pre;
    assert(u[0] == t[0]);
    assert(u.last() == pre.last());
    law_strip_takes_off_what_stands_round(before, u, behind, Strip::Space);
    assert forall|j: int| 0 <= j < t.len() implies u[j] != '-' && u[j] != '+' by {
        assert(u[j] == t[j]);
    }
    assert(u[t.len() as int] == '-');
    lemma_find_char_is(u, '-', t.len() as int);
    lemma_find_char(u, '+');
    assert(find_char(u, '+') == u.len()) by {
        if u.contains('+') {
            let j = choose|j: int| 0 <= j < u.len() && u[j] == '+';
            assert(pre[j - t.len() - 1] == '+');
        }
    }
    assert(u.take(t.len() as int) =~= t);
    assert(u.skip((t.len() + 1) as int) =~= pre);
    lemma_find_char(pre, '+');
    assert(split_of(pre, '+')[0] == pre);
    lemma_split_join(ids, '.');
}

/// Three numbers with dots between them.
pub open spec fn numbers_text(a: nat, b: nat, c: nat) -> Seq<char> {
    digits_of(a) + seq!['.'] + digits_of(b) + seq!['.'] + digits_of(c)
}

proof fn lemma_digits_only(s: Seq<char>)
    requires
        all_digits(s),
    ensures
        !s.contains('.'),
{
    if s.contains('.') {
        let i = choose|i: int| 0 <= i < s.len() && s[i] == '.';
        assert(is_digit(s[i]));
    }
}

proof fn lemma_three(a: Seq<char>, b: Seq<char>, c: Seq<char>)
    ensures
        join_of(seq![a, b, c], seq!['.']) == a + seq!['.'] + b + seq!['.'] + c,
{
    let v = seq![a, b, c];
    assert(v.drop_last() =~= seq![a, b]);
    assert(v.drop_last().drop_last() =~= seq![a]);
    assert(join_of(seq![a], seq!['.']) == a);
    assert(join_of(seq![a, b], seq!['.']) == a + seq!['.'] + b);
}

/// The version in a configuration file is the string behind the first key `"version"`, whatever
/// stands before that key and behind the string.
pub proof fn law_version_of_a_configuration(
    before: Seq<char>,
    g: Seq<char>,
    h: Seq<char>,
    v: Seq<char>,
    rest: Seq<char>,
)
    requires
        all_stripped(g, Strip::Space),
        all_stripped(h, Strip::Space),
        !v.contains('"'),
        forall|j: int|
            0 <= j < before.len() ==> !stands_at(
                before + "\"version\""@ + (g + seq![':'] + h + seq!['"'] + v + seq!['"'] + rest),
                "\"version\""@,
                j,
            ),
    ensures
        conf_version(
            before + "\"version\""@ + (g + seq![':'] + h + seq!['"'] + v + seq!['"'] + rest),
        ) == Some(v),
{
    let key = "\"version\""@;
    let behind = g + seq![':'] + h + seq!['"'] + v + seq!['"'] + rest;
    let s = before + key + behind;
    let n = before.len() as int;
    assert(s.subrange(n, (n + key.len()) as int) =~= key);
    assert(stands_at(s, key, n));
    law_first_place_is_found(s, key, n);
    assert(s.skip((n + key.len()) as int) =~= behind);
    assert forall|j: int| 0 <= j < g.len() implies behind[j] != ':' by {
        assert(strips(Strip::Space, g[j]));
    }
    assert(behind[g.len() as int] == ':');
    lemma_find_char_is(behind, ':', g.len() as int);
    let value = seq!['"'] + v + seq!['"'] + rest;
    assert(behind.skip((g.len() + 1) as int) =~= h + value);
    lemma_front_padded(h, value, Strip::Space);
    assert(value[0] == '"');
    assert(drop_front(value, Strip::Space) == value);
    let text = value.skip(1);
    assert forall|j: int| 0 <= j < v.len() implies text[j] != '"' by {
        assert(text[j] == v[j]);
        assert(v.contains(v[j]));
    }
    assert(text[v.len() as int] == '"');
    lemma_find_char_is(text, '"', v.len() as int);
    assert(text.take(v.len() as int) =~= v);
}

} // verus!
