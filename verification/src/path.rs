//! Windows paths as texts: joining them and going up.

use crate::text::{chars_of, part, string_of};
use vstd::prelude::*;

verus! {

/// Whether `c` separates the parts of a path.
pub open spec fn is_sep(c: char) -> bool {
    c == '\\' || c == '/'
}

/// Whether a path starts with a drive letter and a colon.
pub open spec fn has_drive(p: Seq<char>) -> bool {
    p.len() >= 2 && p[1] == ':' && ('a' <= p[0] <= 'z' || 'A' <= p[0] <= 'Z')
}

/// The position of the first separator at or behind `i`, or the end.
pub open spec fn next_sep(p: Seq<char>, i: int) -> int
    decreases p.len() - i,
{
    if i >= p.len() {
        p.len() as int
    } else if is_sep(p[i]) {
        i
    } else {
        next_sep(p, i + 1)
    }
}

/// How far the prefix of a path reaches: a drive, or `\\server\share`.
pub open spec fn prefix_len(p: Seq<char>) -> int {
    if has_drive(p) {
        2
    } else if p.len() >= 2 && is_sep(p[0]) && is_sep(p[1]) {
        let a = next_sep(p, 2);
        let b = next_sep(p, a + 1);
        if a > 2 && b > a + 1 {
            b
        } else {
            0
        }
    } else {
        0
    }
}

/// Where the named parts of a path start: behind its prefix and root, or behind a leading `.`.
pub open spec fn body_start(p: Seq<char>) -> nat {
    let n = prefix_len(p);
    (if n < p.len() && is_sep(p[n]) {
        n + 1
    } else if n < p.len() && p[n] == '.' && (n + 1 == p.len() || is_sep(p[n + 1])) {
        n + 1
    } else {
        n
    }) as nat
}

/// Where the last part of a path starts, at or behind `b`.
pub open spec fn last_part(p: Seq<char>, b: nat) -> int
    decreases p.len(),
{
    if p.len() <= b || is_sep(p.last()) {
        p.len() as int
    } else {
        last_part(p.drop_last(), b)
    }
}

/// A path without its last part and the separator before it.
pub open spec fn cut_last(p: Seq<char>, b: nat) -> Seq<char> {
    let i = last_part(p, b);
    p.take(if i > b {
        i - 1
    } else {
        i
    })
}

/// A path without the empty parts and the `.` parts at its end.
pub open spec fn tidy_end(p: Seq<char>, b: nat) -> Seq<char>
    decreases p.len(),
    via tidy_end_ends
{
    let last = p.skip(last_part(p, b));
    if p.len() > b && (last.len() == 0 || last == seq!['.']) {
        tidy_end(cut_last(p, b), b)
    } else {
        p
    }
}

proof fn lemma_last_part(p: Seq<char>, b: nat)
    requires
        b <= p.len(),
    ensures
        b <= last_part(p, b) <= p.len(),
        last_part(p, b) > b ==> is_sep(p[last_part(p, b) - 1]),
    decreases p.len(),
{
    if p.len() > b && !is_sep(p.last()) {
        lemma_last_part(p.drop_last(), b);
    }
}

#[via_fn]
proof fn tidy_end_ends(p: Seq<char>, b: nat) {
    if p.len() > b {
        lemma_last_part(p, b);
    }
}

/// The path one level up.
pub open spec fn up(p: Seq<char>) -> Option<Seq<char>> {
    let b = body_start(p);
    let t = tidy_end(p, b);
    if t.len() > b {
        Some(tidy_end(cut_last(t, b), b))
    } else if b > 0 && p[b - 1] == '.' {
        Some(p.take(b - 1))
    } else {
        None
    }
}

/// The path `n` levels up.
pub open spec fn up_by(p: Seq<char>, n: nat) -> Option<Seq<char>>
    decreases n,
{
    if n == 0 {
        Some(p)
    } else {
        match up(p) {
            Some(q) => up_by(q, (n - 1) as nat),
            None => None,
        }
    }
}

fn separates(c: char) -> (r: bool)
    ensures
        r == is_sep(c),
{
    c == '\\' || c == '/'
}

fn find_sep(cs: &Vec<char>, from: usize) -> (n: usize)
    ensures
        n == next_sep(cs@, from as int),
        n <= cs@.len(),
        from <= cs@.len() ==> from <= n,
{
    if from >= cs.len() {
        return cs.len();
    }
    let mut n: usize = from;
    while n < cs.len() && !separates(cs[n])
        invariant
            from <= n <= cs@.len(),
            next_sep(cs@, from as int) == next_sep(cs@, n as int),
        decreases cs@.len() - n,
    {
        n += 1;
    }
    n
}

fn prefix(cs: &Vec<char>) -> (n: usize)
    ensures
        n == prefix_len(cs@),
        n <= cs@.len(),
{
    if cs.len() >= 2 && cs[1] == ':' && (('a' <= cs[0] && cs[0] <= 'z') || ('A' <= cs[0] && cs[0]
        <= 'Z')) {
        2
    } else if cs.len() >= 2 && separates(cs[0]) && separates(cs[1]) {
        let a: usize = find_sep(cs, 2);
        if a == cs.len() {
            0
        } else {
            let b: usize = find_sep(cs, a + 1);
            if a > 2 && b > a + 1 {
                b
            } else {
                0
            }
        }
    } else {
        0
    }
}

fn body(cs: &Vec<char>) -> (b: usize)
    ensures
        b == body_start(cs@),
        b <= cs@.len(),
{
    let n: usize = prefix(cs);
    if n < cs.len() && separates(cs[n]) {
        n + 1
    } else if n < cs.len() && cs[n] == '.' && (n + 1 == cs.len() || separates(cs[n + 1])) {
        n + 1
    } else {
        n
    }
}

fn part_start(cs: &Vec<char>, len: usize, b: usize) -> (i: usize)
    requires
        b <= len <= cs@.len(),
    ensures
        b <= i <= len,
        i == last_part(cs@.take(len as int), b as nat),
{
    let mut i: usize = len;
    proof {
        lemma_last_part(cs@.take(len as int), b as nat);
    }
    while i > b && !separates(cs[i - 1])
        invariant
            b <= i <= len <= cs@.len(),
            last_part(cs@.take(len as int), b as nat) == last_part(cs@.take(i as int), b as nat),
        decreases i,
    {
        proof {
            assert(cs@.take(i as int).drop_last() =~= cs@.take(i - 1));
        }
        i -= 1;
    }
    i
}

/// How long the first `len` characters are without the empty and `.` parts at their end.
fn tidy_len(cs: &Vec<char>, len: usize, b: usize) -> (n: usize)
    requires
        b <= len <= cs@.len(),
    ensures
        b <= n <= len,
        cs@.take(n as int) == tidy_end(cs@.take(len as int), b as nat),
{
    let mut n: usize = len;
    loop
        invariant
            b <= n <= len <= cs@.len(),
            tidy_end(cs@.take(n as int), b as nat) == tidy_end(cs@.take(len as int), b as nat),
        decreases n,
    {
        let ghost p = cs@.take(n as int);
        if n == b {
            return n;
        }
        let i: usize = part_start(cs, n, b);
        let ghost last = p.skip(last_part(p, b as nat));
        if i < n && !(i + 1 == n && cs[i] == '.') {
            proof {
                if n == i + 1 {
                    assert(last[0] == cs@[i as int]);
                }
            }
            return n;
        }
        proof {
            if i + 1 == n {
                assert(last =~= seq!['.']);
            }
            lemma_last_part(p, b as nat);
            let k = if i > b {
                i - 1
            } else {
                i as int
            };
            assert(p.take(k) =~= cs@.take(k));
        }
        n = if i > b {
            i - 1
        } else {
            i
        };
    }
}

/// The path one level up. There is none above a root.
pub fn parent_of(path: &str) -> (r: Option<String>)
    ensures
        crate::text::opt_view(r) == up(path@),
{
    let cs = chars_of(path);
    let b: usize = body(&cs);
    proof {
        assert(cs@.take(cs@.len() as int) =~= cs@);
    }
    let n: usize = tidy_len(&cs, cs.len(), b);
    if n > b {
        let i: usize = part_start(&cs, n, b);
        let k: usize = if i > b {
            i - 1
        } else {
            i
        };
        proof {
            assert(cs@.take(n as int).take(k as int) =~= cs@.take(k as int));
        }
        let m: usize = tidy_len(&cs, k, b);
        let out = string_of(&cs[0..m]);
        proof {
            assert(out@ =~= cs@.take(m as int));
        }
        Some(out)
    } else if b > 0 && cs[b - 1] == '.' {
        let out = string_of(&cs[0..b - 1]);
        proof {
            assert(out@ =~= cs@.take(b - 1));
        }
        Some(out)
    } else {
        None
    }
}

/// The path `n` levels up.
pub fn ancestor(path: &str, n: usize) -> (r: Option<String>)
    ensures
        crate::text::opt_view(r) == up_by(path@, n as nat),
    decreases n,
{
    if n == 0 {
        return Some(path.to_owned());
    }
    match parent_of(path) {
        Some(p) => ancestor(p.as_str(), n - 1),
        None => None,
    }
}

/// The path `name`, seen from the directory `dir`. One with a prefix stands for itself, and one that
/// starts with a separator stands on the drive of `dir`.
pub open spec fn joined(dir: Seq<char>, name: Seq<char>) -> Seq<char> {
    if prefix_len(name) > 0 {
        name
    } else if name.len() > 0 && is_sep(name[0]) {
        dir.take(prefix_len(dir)) + name
    } else if dir.len() == 0 || is_sep(dir.last()) || (has_drive(dir) && dir.len() == 2) {
        dir + name
    } else {
        dir + "\\"@ + name
    }
}

/// The path `name`, seen from the directory `dir`.
pub fn join_path(dir: &str, name: &str) -> (r: String)
    ensures
        r@ == joined(dir@, name@),
{
    let ds = chars_of(dir);
    let ns = chars_of(name);
    let n: usize = ds.len();
    if prefix(&ns) > 0 {
        name.to_owned()
    } else if ns.len() > 0 && separates(ns[0]) {
        let k: usize = prefix(&ds);
        part(dir, 0, k).to_owned().concat(name)
    } else if n == 0 || separates(ds[n - 1]) || (n == 2 && prefix(&ds) == 2 && ds[1] == ':') {
        dir.to_owned().concat(name)
    } else {
        dir.to_owned().concat("\\").concat(name)
    }
}

/// A name that holds no separator and no drive is taken off again by going up.
pub proof fn law_up_undoes_join(dir: Seq<char>, name: Seq<char>)
    requires
        dir.len() > body_start(dir),
        !is_sep(dir.last()),
        tidy_end(dir, body_start(dir)) == dir,
        name.len() > 0,
        name != seq!['.'],
        !has_drive(name),
        forall|i: int| 0 <= i < name.len() ==> !is_sep(#[trigger] name[i]),
        body_start(joined(dir, name)) == body_start(dir),
    ensures
        up(joined(dir, name)) == Some(dir),
{
    reveal_strlit("\\");
    let b = body_start(dir);
    if has_drive(dir) && dir.len() == 2 {
        assert(b == 2);
    }
    let p = joined(dir, name);
    assert(!is_sep(name[0]));
    assert(p =~= dir + "\\"@ + name);
    lemma_part_of_join(dir, name, name.len() as int, b);
    assert(p.take(p.len() as int) =~= p);
    assert(name.take(name.len() as int) =~= name);
    assert(p.skip((dir.len() + 1) as int) =~= name);
    assert(p.take(dir.len() as int) =~= dir);
}

pub proof fn lemma_part_of_join(dir: Seq<char>, name: Seq<char>, k: int, b: nat)
    requires
        0 <= k <= name.len(),
        b <= dir.len(),
        forall|i: int| 0 <= i < name.len() ==> !is_sep(#[trigger] name[i]),
    ensures
        last_part(dir + "\\"@ + name.take(k), b) == dir.len() + 1,
    decreases k,
{
    reveal_strlit("\\");
    let p = dir + "\\"@ + name.take(k);
    if k > 0 {
        assert(p.last() == name[k - 1]);
        assert(p.drop_last() =~= dir + "\\"@ + name.take(k - 1));
        lemma_part_of_join(dir, name, k - 1, b);
    } else {
        assert(p.last() == '\\');
    }
}

} // verus!
