//! Text as sequences of characters: trimming, splitting, searching, joining.

use vstd::prelude::*;

verus! {

/// `String::push` appends one character to the end of the string.
pub assume_specification[ String::push ](s: &mut String, c: char)
    ensures
        final(s)@ == old(s)@.push(c),
;

/// The characters with the Unicode property `White_Space`.
pub open spec fn is_space(c: char) -> bool {
    ||| '\u{9}' <= c <= '\u{d}'
    ||| c == '\u{20}'
    ||| c == '\u{85}'
    ||| c == '\u{a0}'
    ||| c == '\u{1680}'
    ||| '\u{2000}' <= c <= '\u{200a}'
    ||| c == '\u{2028}'
    ||| c == '\u{2029}'
    ||| c == '\u{202f}'
    ||| c == '\u{205f}'
    ||| c == '\u{3000}'
}

/// The characters of the Unicode general category `Cc`.
pub open spec fn is_ctrl(c: char) -> bool {
    c <= '\u{1f}' || '\u{7f}' <= c <= '\u{9f}'
}

/// The ASCII digits.
pub open spec fn is_digit(c: char) -> bool {
    '0' <= c <= '9'
}

/// Whether `c` has the Unicode property `White_Space`.
pub fn white_space(c: char) -> (r: bool)
    ensures
        r == is_space(c),
{
    ('\u{9}' <= c && c <= '\u{d}') || c == '\u{20}' || c == '\u{85}' || c == '\u{a0}' || c
        == '\u{1680}' || ('\u{2000}' <= c && c <= '\u{200a}') || c == '\u{2028}' || c == '\u{2029}'
        || c == '\u{202f}' || c == '\u{205f}' || c == '\u{3000}'
}

/// Whether `c` is a control character.
pub fn control(c: char) -> (r: bool)
    ensures
        r == is_ctrl(c),
{
    c <= '\u{1f}' || ('\u{7f}' <= c && c <= '\u{9f}')
}

/// The characters of a string.
pub fn chars_of(s: &str) -> (r: Vec<char>)
    ensures
        r@ == s@,
{
    let mut out: Vec<char> = Vec::new();
    for c in it: s.chars()
        invariant
            it.seq() == s@,
            out@ == s@.take(it.index()),
    {
        proof {
            assert(s@.take(it.index() + 1) =~= s@.take(it.index()).push(c));
        }
        out.push(c);
    }
    proof {
        assert(s@.take(s@.len() as int) =~= s@);
    }
    out
}

/// The string made of the given characters.
pub fn string_of(cs: &[char]) -> (r: String)
    ensures
        r@ == cs@,
{
    let mut out: String = String::new();
    let mut i: usize = 0;
    while i < cs.len()
        invariant
            i <= cs@.len(),
            out@ == cs@.take(i as int),
        decreases cs@.len() - i,
    {
        out.push(cs[i]);
        proof {
            assert(cs@.take(i + 1) =~= cs@.take(i as int).push(cs@[i as int]));
        }
        i += 1;
    }
    proof {
        assert(cs@.take(cs@.len() as int) =~= cs@);
    }
    out
}

/// A set of characters that a trim removes from an end of a text.
#[derive(Clone, Copy)]
pub enum Strip {
    /// White space.
    Space,
    /// The two quotation marks `'` and `"`.
    Quote,
    /// One character.
    Only(char),
}

/// Whether a trim over `k` removes `c`.
pub open spec fn strips(k: Strip, c: char) -> bool {
    match k {
        Strip::Space => is_space(c),
        Strip::Quote => c == '\'' || c == '"',
        Strip::Only(x) => c == x,
    }
}

/// `s` without its longest prefix of characters in `k`.
pub open spec fn drop_front(s: Seq<char>, k: Strip) -> Seq<char>
    decreases s.len(),
{
    if s.len() > 0 && strips(k, s[0]) {
        drop_front(s.skip(1), k)
    } else {
        s
    }
}

/// `s` without its longest suffix of characters in `k`.
pub open spec fn drop_back(s: Seq<char>, k: Strip) -> Seq<char>
    decreases s.len(),
{
    if s.len() > 0 && strips(k, s.last()) {
        drop_back(s.drop_last(), k)
    } else {
        s
    }
}

/// `s` without the characters of `k` at its two ends.
pub open spec fn drop_both(s: Seq<char>, k: Strip) -> Seq<char> {
    drop_back(drop_front(s, k), k)
}

/// `s` without the white space at its two ends.
pub open spec fn trim_of(s: Seq<char>) -> Seq<char> {
    drop_both(s, Strip::Space)
}

fn in_strip(k: Strip, c: char) -> (r: bool)
    ensures
        r == strips(k, c),
{
    match k {
        Strip::Space => white_space(c),
        Strip::Quote => c == '\'' || c == '"',
        Strip::Only(x) => c == x,
    }
}

/// How many characters of `k` the text `cs` starts with.
fn front_len(cs: &Vec<char>, k: Strip) -> (n: usize)
    ensures
        n <= cs@.len(),
        drop_front(cs@, k) == cs@.skip(n as int),
        forall|j: int| 0 <= j < n ==> strips(k, #[trigger] cs@[j]),
        n < cs@.len() ==> !strips(k, cs@[n as int]),
{
    let mut n: usize = 0;
    proof {
        assert(cs@.skip(0) =~= cs@);
    }
    while n < cs.len() && in_strip(k, cs[n])
        invariant
            n <= cs@.len(),
            drop_front(cs@, k) == drop_front(cs@.skip(n as int), k),
            forall|j: int| 0 <= j < n ==> strips(k, #[trigger] cs@[j]),
        decreases cs@.len() - n,
    {
        proof {
            assert(cs@.skip(n as int)[0] == cs@[n as int]);
            assert(cs@.skip(n as int).skip(1) =~= cs@.skip(n + 1));
        }
        n += 1;
    }
    proof {
        if n < cs@.len() {
            assert(cs@.skip(n as int)[0] == cs@[n as int]);
        }
    }
    n
}

/// Where the characters of `k` that end `cs` begin, at or behind `from`.
fn back_start(cs: &Vec<char>, from: usize, k: Strip) -> (n: usize)
    requires
        from <= cs@.len(),
    ensures
        from <= n <= cs@.len(),
        drop_back(cs@.skip(from as int), k) == cs@.subrange(from as int, n as int),
{
    let mut n: usize = cs.len();
    proof {
        assert(cs@.skip(from as int) =~= cs@.subrange(from as int, n as int));
    }
    while from < n && in_strip(k, cs[n - 1])
        invariant
            from <= n <= cs@.len(),
            drop_back(cs@.skip(from as int), k) == drop_back(
                cs@.subrange(from as int, n as int),
                k,
            ),
        decreases n,
    {
        proof {
            let cur = cs@.subrange(from as int, n as int);
            assert(cur.last() == cs@[n - 1]);
            assert(cur.drop_last() =~= cs@.subrange(from as int, n - 1));
        }
        n -= 1;
    }
    proof {
        let cur = cs@.subrange(from as int, n as int);
        if from < n {
            assert(cur.last() == cs@[n - 1]);
        }
    }
    n
}

/// `s` without the characters of `k` at its start.
pub fn strip_front(s: &str, k: Strip) -> (r: &str)
    ensures
        r@ == drop_front(s@, k),
{
    let cs = chars_of(s);
    let a: usize = front_len(&cs, k);
    s.substring_char(a, cs.len())
}

/// `s` without the characters of `k` at its end.
pub fn strip_back(s: &str, k: Strip) -> (r: &str)
    ensures
        r@ == drop_back(s@, k),
{
    let cs = chars_of(s);
    let b: usize = back_start(&cs, 0, k);
    proof {
        assert(cs@.skip(0) =~= cs@);
    }
    s.substring_char(0, b)
}

/// `s` without the characters of `k` at its two ends.
pub fn strip_both(s: &str, k: Strip) -> (r: &str)
    ensures
        r@ == drop_both(s@, k),
{
    let cs = chars_of(s);
    let a: usize = front_len(&cs, k);
    let b: usize = back_start(&cs, a, k);
    s.substring_char(a, b)
}

/// `s` without the white space at its two ends.
pub fn trim(s: &str) -> (r: &str)
    ensures
        r@ == trim_of(s@),
{
    strip_both(s, Strip::Space)
}

/// Whether two texts are the same.
pub fn same(a: &str, b: &str) -> (r: bool)
    ensures
        r == (a@ == b@),
{
    let x: String = a.to_owned();
    let y: String = b.to_owned();
    x == y
}

/// The views of a list of strings.
pub open spec fn views(v: Seq<String>) -> Seq<Seq<char>> {
    Seq::new(v.len(), |i: int| v[i]@)
}

pub proof fn lemma_views_push(v: Seq<String>, s: String)
    ensures
        views(v.push(s)) == views(v).push(s@),
{
    assert(views(v.push(s)) =~= views(v).push(s@));
}

/// Whether a list of strings holds `x`.
pub fn list_has(v: &Vec<String>, x: &str) -> (r: bool)
    ensures
        r == views(v@).contains(x@),
{
    let mut i: usize = 0;
    while i < v.len()
        invariant
            i <= v@.len(),
            forall|j: int| 0 <= j < i ==> views(v@)[j] != x@,
        decreases v@.len() - i,
    {
        if same(v[i].as_str(), x) {
            proof {
                assert(views(v@)[i as int] == x@);
            }
            return true;
        }
        i += 1;
    }
    false
}

/// A copy of a list of strings.
pub fn copy_list(v: &Vec<String>) -> (r: Vec<String>)
    ensures
        views(r@) == views(v@),
{
    let mut out: Vec<String> = Vec::new();
    let mut i: usize = 0;
    while i < v.len()
        invariant
            i <= v@.len(),
            views(out@) == views(v@).take(i as int),
        decreases v@.len() - i,
    {
        let ghost before = out@;
        out.push(v[i].clone());
        proof {
            lemma_views_push(before, out@.last());
            assert(views(v@).take(i + 1) =~= views(v@).take(i as int).push(v@[i as int]@));
        }
        i += 1;
    }
    proof {
        assert(views(v@).take(v@.len() as int) =~= views(v@));
    }
    out
}

/// Whether `p` stands in `s` at position `i`.
pub open spec fn stands_at(s: Seq<char>, p: Seq<char>, i: int) -> bool {
    0 <= i && i + p.len() <= s.len() && s.subrange(i, i + p.len()) == p
}

/// Whether `p` stands somewhere in `s`.
pub open spec fn has_sub(s: Seq<char>, p: Seq<char>) -> bool {
    exists|i: int| stands_at(s, p, i)
}

fn at(cs: &Vec<char>, ps: &Vec<char>, i: usize) -> (r: bool)
    requires
        i <= cs@.len(),
    ensures
        r == stands_at(cs@, ps@, i as int),
{
    if cs.len() - i < ps.len() {
        return false;
    }
    let mut j: usize = 0;
    while j < ps.len()
        invariant
            i + ps@.len() <= cs@.len() <= usize::MAX,
            j <= ps@.len(),
            forall|k: int| 0 <= k < j ==> cs@[i + k] == ps@[k],
        decreases ps@.len() - j,
    {
        if cs[i + j] != ps[j] {
            proof {
                assert(cs@.subrange(i as int, i + ps@.len())[j as int] == cs@[i + j]);
            }
            return false;
        }
        j += 1;
    }
    proof {
        assert(cs@.subrange(i as int, i + ps@.len()) =~= ps@);
    }
    true
}

/// Whether `s` starts with `p`.
pub fn starts(s: &str, p: &str) -> (r: bool)
    ensures
        r == p@.is_prefix_of(s@),
{
    let cs = chars_of(s);
    let ps = chars_of(p);
    let r = at(&cs, &ps, 0);
    r
}

/// Whether `s` ends with `p`.
pub fn ends(s: &str, p: &str) -> (r: bool)
    ensures
        r == p@.is_suffix_of(s@),
{
    let cs = chars_of(s);
    let ps = chars_of(p);
    if cs.len() < ps.len() {
        return false;
    }
    at(&cs, &ps, cs.len() - ps.len())
}

/// `s` behind the prefix `p`, where it starts with `p`.
pub fn without_prefix<'a>(s: &'a str, p: &str) -> (r: Option<&'a str>)
    ensures
        match r {
            Some(rest) => p@.is_prefix_of(s@) && rest@ == s@.skip(p@.len() as int),
            None => !p@.is_prefix_of(s@),
        },
{
    let cs = chars_of(s);
    let ps = chars_of(p);
    if at(&cs, &ps, 0) {
        Some(s.substring_char(ps.len(), cs.len()))
    } else {
        None
    }
}

/// `s` before the suffix `p`, where it ends with `p`.
pub fn without_suffix<'a>(s: &'a str, p: &str) -> (r: Option<&'a str>)
    ensures
        match r {
            Some(rest) => p@.is_suffix_of(s@) && rest@ == s@.take(s@.len() - p@.len()),
            None => !p@.is_suffix_of(s@),
        },
{
    let cs = chars_of(s);
    let ps = chars_of(p);
    if cs.len() >= ps.len() && at(&cs, &ps, cs.len() - ps.len()) {
        Some(s.substring_char(0, cs.len() - ps.len()))
    } else {
        None
    }
}

/// The first position at or behind `i` at which `p` stands in `s`.
pub open spec fn sub_at(s: Seq<char>, p: Seq<char>, i: int) -> Option<int>
    decreases s.len() + 1 - i,
{
    if i > s.len() {
        None
    } else if stands_at(s, p, i) {
        Some(i)
    } else {
        sub_at(s, p, i + 1)
    }
}

proof fn lemma_sub_at(s: Seq<char>, p: Seq<char>, i: int)
    requires
        0 <= i,
        forall|j: int| j < i ==> !stands_at(s, p, j),
    ensures
        sub_at(s, p, i) is Some <==> has_sub(s, p),
    decreases s.len() + 1 - i,
{
    if i <= s.len() && !stands_at(s, p, i) {
        lemma_sub_at(s, p, i + 1);
    }
}

/// Where `p` stands first in `s`.
pub fn find(s: &str, p: &str) -> (r: Option<usize>)
    ensures
        match r {
            Some(i) => sub_at(s@, p@, 0) == Some(i as int) && stands_at(s@, p@, i as int),
            None => sub_at(s@, p@, 0) is None,
        },
        r is Some <==> has_sub(s@, p@),
{
    let cs = chars_of(s);
    let ps = chars_of(p);
    let mut i: usize = 0;
    proof {
        lemma_sub_at(s@, p@, 0);
    }
    loop
        invariant
            cs@ == s@,
            ps@ == p@,
            i <= cs@.len(),
            sub_at(s@, p@, 0) == sub_at(s@, p@, i as int),
            sub_at(s@, p@, 0) is Some <==> has_sub(s@, p@),
        decreases cs@.len() - i,
    {
        if at(&cs, &ps, i) {
            return Some(i);
        }
        if i == cs.len() {
            proof {
                assert(sub_at(s@, p@, i + 1) is None);
            }
            return None;
        }
        i += 1;
    }
}

/// Whether `p` stands somewhere in `s`.
pub fn holds(s: &str, p: &str) -> (r: bool)
    ensures
        r == has_sub(s@, p@),
{
    find(s, p).is_some()
}

/// Whether `s` holds the character `c`.
pub fn holds_char(s: &str, c: char) -> (r: bool)
    ensures
        r == s@.contains(c),
{
    let cs = chars_of(s);
    let mut i: usize = 0;
    while i < cs.len()
        invariant
            cs@ == s@,
            i <= cs@.len(),
            forall|j: int| 0 <= j < i ==> cs@[j] != c,
        decreases cs@.len() - i,
    {
        if cs[i] == c {
            return true;
        }
        i += 1;
    }
    false
}

/// The position of the first `c` in `s`, or the length of `s` where there is none.
pub open spec fn find_char(s: Seq<char>, c: char) -> int
    decreases s.len(),
{
    if s.len() == 0 || s[0] == c {
        0
    } else {
        1 + find_char(s.skip(1), c)
    }
}

/// What [`find_char`] finds is the first one.
pub proof fn lemma_find_char(s: Seq<char>, c: char)
    ensures
        0 <= find_char(s, c) <= s.len(),
        find_char(s, c) < s.len() ==> s[find_char(s, c)] == c,
        forall|j: int| 0 <= j < find_char(s, c) ==> s[j] != c,
        find_char(s, c) == s.len() <==> !s.contains(c),
    decreases s.len(),
{
    if s.len() > 0 && s[0] != c {
        let t = s.skip(1);
        lemma_find_char(t, c);
        let n = find_char(t, c);
        assert forall|j: int| 0 <= j < n + 1 implies s[j] != c by {
            if j > 0 {
                assert(s[j] == t[j - 1]);
            }
        }
        if n < t.len() {
            assert(s[n + 1] == t[n]);
        }
    }
}

/// A first occurrence is where [`find_char`] finds it.
pub proof fn lemma_find_char_is(s: Seq<char>, c: char, n: int)
    requires
        0 <= n <= s.len(),
        forall|j: int| 0 <= j < n ==> s[j] != c,
        n < s.len() ==> s[n] == c,
    ensures
        find_char(s, c) == n,
{
    lemma_find_char(s, c);
    let m = find_char(s, c);
    if m < n {
        assert(s[m] == c);
    } else if n < m {
        assert(s[n] != c);
    }
}

/// The pieces of `s` between the characters `c`: one more than there are of them.
pub open spec fn split_of(s: Seq<char>, c: char) -> Seq<Seq<char>>
    decreases s.len(),
    via split_of_ends
{
    let n = find_char(s, c);
    if n >= s.len() {
        seq![s]
    } else {
        seq![s.take(n)] + split_of(s.skip(n + 1), c)
    }
}

#[via_fn]
proof fn split_of_ends(s: Seq<char>, c: char) {
    lemma_find_char(s, c);
}

/// The text between two positions, as a string of its own.
fn piece(cs: &Vec<char>, from: usize, to: usize) -> (r: String)
    requires
        from <= to <= cs@.len(),
    ensures
        r@ == cs@.subrange(from as int, to as int),
{
    string_of(&cs[from..to])
}

fn next_char(cs: &Vec<char>, from: usize, c: char) -> (n: usize)
    requires
        from <= cs@.len(),
    ensures
        from <= n <= cs@.len(),
        n - from == find_char(cs@.skip(from as int), c),
{
    let mut n: usize = from;
    while n < cs.len() && cs[n] != c
        invariant
            from <= n <= cs@.len(),
            forall|j: int| from <= j < n ==> cs@[j] != c,
        decreases cs@.len() - n,
    {
        n += 1;
    }
    proof {
        let t = cs@.skip(from as int);
        assert forall|j: int| 0 <= j < n - from implies t[j] != c by {
            assert(t[j] == cs@[from + j]);
        }
        if n < cs@.len() {
            assert(t[n - from] == cs@[n as int]);
        }
        lemma_find_char_is(t, c, n - from);
    }
    n
}

/// The position of the first `c` in `s`, or the length of `s` where there is none.
pub fn position(s: &str, c: char) -> (n: usize)
    ensures
        n == find_char(s@, c),
        n <= s@.len(),
{
    let cs = chars_of(s);
    proof {
        assert(cs@.skip(0) =~= cs@);
    }
    next_char(&cs, 0, c)
}

/// The characters of `s` from the position `from` up to `to`.
pub fn part(s: &str, from: usize, to: usize) -> (r: &str)
    requires
        from <= to <= s@.len(),
    ensures
        r@ == s@.subrange(from as int, to as int),
{
    s.substring_char(from, to)
}

/// How many characters `s` has.
pub fn length(s: &str) -> (n: usize)
    ensures
        n == s@.len(),
{
    chars_of(s).len()
}

/// The pieces of `s` between the characters `c`.
pub fn split(s: &str, c: char) -> (r: Vec<String>)
    ensures
        views(r@) == split_of(s@, c),
        r@.len() >= 1,
{
    let cs = chars_of(s);
    let mut out: Vec<String> = Vec::new();
    let mut from: usize = 0;
    proof {
        assert(cs@.skip(0) =~= cs@);
        assert(views(out@) =~= Seq::empty());
        assert(Seq::<Seq<char>>::empty() + split_of(s@, c) =~= split_of(s@, c));
    }
    loop
        invariant
            cs@ == s@,
            from <= cs@.len(),
            split_of(s@, c) == views(out@) + split_of(cs@.skip(from as int), c),
        decreases cs@.len() - from,
    {
        let n: usize = next_char(&cs, from, c);
        let ghost rest = cs@.skip(from as int);
        let ghost before = out@;
        out.push(piece(&cs, from, n));
        proof {
            lemma_views_push(before, out@.last());
            assert(out@.last()@ =~= rest.take(n - from));
        }
        if n == cs.len() {
            proof {
                assert(rest.take(n - from) =~= rest);
                assert(split_of(s@, c) =~= views(out@));
            }
            return out;
        }
        proof {
            assert(rest.skip(n - from + 1) =~= cs@.skip(n + 1));
            assert(split_of(s@, c) =~= views(out@) + split_of(cs@.skip(n + 1), c));
        }
        from = n + 1;
    }
}

/// A line without the carriage return that ends it.
pub open spec fn without_cr(s: Seq<char>) -> Seq<char> {
    if s.len() > 0 && s.last() == '\r' {
        s.drop_last()
    } else {
        s
    }
}

/// The lines of a text. A line ends with `\n` or `\r\n`; the last one may end with the text.
pub open spec fn lines_of(s: Seq<char>) -> Seq<Seq<char>>
    decreases s.len(),
    via lines_of_ends
{
    let n = find_char(s, '\n');
    if s.len() == 0 {
        Seq::empty()
    } else if n >= s.len() {
        seq![s]
    } else {
        seq![without_cr(s.take(n))] + lines_of(s.skip(n + 1))
    }
}

#[via_fn]
proof fn lines_of_ends(s: Seq<char>) {
    lemma_find_char(s, '\n');
}

/// The lines of a text.
pub fn lines(s: &str) -> (r: Vec<String>)
    ensures
        views(r@) == lines_of(s@),
{
    let cs = chars_of(s);
    let mut out: Vec<String> = Vec::new();
    let mut from: usize = 0;
    proof {
        assert(cs@.skip(0) =~= cs@);
        assert(views(out@) =~= Seq::empty());
        assert(Seq::<Seq<char>>::empty() + lines_of(s@) =~= lines_of(s@));
    }
    while from < cs.len()
        invariant
            cs@ == s@,
            from <= cs@.len(),
            lines_of(s@) == views(out@) + lines_of(cs@.skip(from as int)),
        decreases cs@.len() - from,
    {
        let n: usize = next_char(&cs, from, '\n');
        let ghost rest = cs@.skip(from as int);
        let ghost before = out@;
        if n == cs.len() {
            out.push(piece(&cs, from, n));
            proof {
                lemma_views_push(before, out@.last());
                assert(out@.last()@ =~= rest);
                assert(lines_of(s@) =~= views(out@));
            }
            return out;
        }
        let end: usize = if from < n && cs[n - 1] == '\r' {
            n - 1
        } else {
            n
        };
        out.push(piece(&cs, from, end));
        proof {
            lemma_views_push(before, out@.last());
            assert(out@.last()@ =~= without_cr(rest.take(n - from)));
            assert(rest.skip(n - from + 1) =~= cs@.skip(n + 1));
            assert(lines_of(s@) =~= views(out@) + lines_of(cs@.skip(n + 1)));
        }
        from = n + 1;
    }
    proof {
        assert(lines_of(s@) =~= views(out@));
    }
    out
}

/// How many characters stand before the first white space.
pub open spec fn word_len(s: Seq<char>) -> nat
    decreases s.len(),
{
    if s.len() == 0 || is_space(s[0]) {
        0
    } else {
        1 + word_len(s.skip(1))
    }
}

/// The words of a text: what stands between white space.
pub open spec fn words_of(s: Seq<char>) -> Seq<Seq<char>>
    decreases s.len(),
    via words_of_ends
{
    let t = drop_front(s, Strip::Space);
    let n = word_len(t) as int;
    if t.len() == 0 {
        Seq::empty()
    } else {
        seq![t.take(n)] + words_of(t.skip(n))
    }
}

proof fn lemma_word_len(s: Seq<char>)
    ensures
        word_len(s) <= s.len(),
        s.len() > 0 && !is_space(s[0]) ==> word_len(s) > 0,
    decreases s.len(),
{
    if s.len() > 0 && !is_space(s[0]) {
        lemma_word_len(s.skip(1));
    }
}

proof fn lemma_front_dropped(s: Seq<char>)
    ensures
        drop_front(s, Strip::Space).len() <= s.len(),
        drop_front(s, Strip::Space).len() > 0 ==> !is_space(drop_front(s, Strip::Space)[0]),
    decreases s.len(),
{
    if s.len() > 0 && is_space(s[0]) {
        lemma_front_dropped(s.skip(1));
    }
}

#[via_fn]
proof fn words_of_ends(s: Seq<char>) {
    lemma_front_dropped(s);
    lemma_word_len(drop_front(s, Strip::Space));
}

/// The words of a text.
pub fn words(s: &str) -> (r: Vec<String>)
    ensures
        views(r@) == words_of(s@),
{
    let cs = chars_of(s);
    let mut out: Vec<String> = Vec::new();
    let mut i: usize = 0;
    proof {
        assert(cs@.skip(0) =~= cs@);
        assert(views(out@) =~= Seq::empty());
        assert(Seq::<Seq<char>>::empty() + words_of(s@) =~= words_of(s@));
    }
    loop
        invariant
            cs@ == s@,
            i <= cs@.len(),
            words_of(s@) == views(out@) + words_of(cs@.skip(i as int)),
        decreases cs@.len() - i,
    {
        let ghost rest = cs@.skip(i as int);
        let mut a: usize = i;
        while a < cs.len() && white_space(cs[a])
            invariant
                i <= a <= cs@.len(),
                drop_front(cs@.skip(i as int), Strip::Space) == drop_front(
                    cs@.skip(a as int),
                    Strip::Space,
                ),
            decreases cs@.len() - a,
        {
            proof {
                assert(cs@.skip(a as int).skip(1) =~= cs@.skip(a + 1));
            }
            a += 1;
        }
        let ghost t = cs@.skip(a as int);
        proof {
            assert(drop_front(rest, Strip::Space) == t);
        }
        if a == cs.len() {
            proof {
                assert(t.len() == 0);
                assert(words_of(rest) =~= Seq::empty());
                assert(words_of(s@) =~= views(out@));
            }
            return out;
        }
        let mut b: usize = a;
        while b < cs.len() && !white_space(cs[b])
            invariant
                a <= b <= cs@.len(),
                word_len(cs@.skip(a as int)) == b - a + word_len(cs@.skip(b as int)),
            decreases cs@.len() - b,
        {
            proof {
                assert(cs@.skip(b as int).skip(1) =~= cs@.skip(b + 1));
            }
            b += 1;
        }
        let ghost before = out@;
        out.push(piece(&cs, a, b));
        proof {
            lemma_word_len(t);
            assert(word_len(t) == b - a);
            assert(out@.last()@ =~= t.take(b - a));
            lemma_views_push(before, out@.last());
            assert(t.skip(b - a) =~= cs@.skip(b as int));
            assert(words_of(s@) =~= views(out@) + words_of(cs@.skip(b as int)));
        }
        i = b;
    }
}

/// `s` with every `c` written twice.
pub open spec fn doubled(s: Seq<char>, c: char) -> Seq<char>
    decreases s.len(),
{
    if s.len() == 0 {
        Seq::empty()
    } else if s.last() == c {
        doubled(s.drop_last(), c) + seq![c, c]
    } else {
        doubled(s.drop_last(), c).push(s.last())
    }
}

/// `s` with every `c` written twice.
pub fn double_char(s: &str, c: char) -> (r: String)
    ensures
        r@ == doubled(s@, c),
{
    let cs = chars_of(s);
    let mut out: Vec<char> = Vec::new();
    let mut i: usize = 0;
    while i < cs.len()
        invariant
            cs@ == s@,
            i <= cs@.len(),
            out@ == doubled(s@.take(i as int), c),
        decreases cs@.len() - i,
    {
        proof {
            let next = s@.take(i + 1);
            assert(next.drop_last() =~= s@.take(i as int));
            assert(next.last() == cs@[i as int]);
        }
        let ghost before = out@;
        out.push(cs[i]);
        if cs[i] == c {
            out.push(c);
            proof {
                assert(out@ =~= before + seq![c, c]);
            }
        }
        i += 1;
    }
    proof {
        assert(s@.take(s@.len() as int) =~= s@);
    }
    string_of(&out)
}

/// The texts joined with `sep` between any two of them.
pub open spec fn join_of(parts: Seq<Seq<char>>, sep: Seq<char>) -> Seq<char>
    decreases parts.len(),
{
    if parts.len() == 0 {
        Seq::empty()
    } else if parts.len() == 1 {
        parts[0]
    } else {
        join_of(parts.drop_last(), sep) + sep + parts.last()
    }
}

/// The strings joined with `sep` between any two of them.
pub fn join(parts: &Vec<String>, sep: &str) -> (r: String)
    ensures
        r@ == join_of(views(parts@), sep@),
{
    let mut out: String = String::new();
    let mut i: usize = 0;
    while i < parts.len()
        invariant
            i <= parts@.len(),
            out@ == join_of(views(parts@).take(i as int), sep@),
        decreases parts@.len() - i,
    {
        proof {
            let next = views(parts@).take(i + 1);
            assert(next.drop_last() =~= views(parts@).take(i as int));
            assert(next.last() == parts@[i as int]@);
            if i == 0 {
                assert(next[0] == parts@[0]@);
                assert(Seq::<char>::empty() + parts@[0]@ =~= parts@[0]@);
            }
        }
        if i > 0 {
            out.append(sep);
        }
        out.append(parts[i].as_str());
        i += 1;
    }
    proof {
        assert(views(parts@).take(parts@.len() as int) =~= views(parts@));
    }
    out
}

/// An ASCII capital letter made small.
pub open spec fn lower_char(c: char) -> char {
    if 'A' <= c <= 'Z' {
        ((c as u8 + 32) as u8) as char
    } else {
        c
    }
}

/// An ASCII small letter made a capital.
pub open spec fn upper_char(c: char) -> char {
    if 'a' <= c <= 'z' {
        ((c as u8 - 32) as u8) as char
    } else {
        c
    }
}

/// `s` with its ASCII capital letters made small.
pub open spec fn lower_of(s: Seq<char>) -> Seq<char> {
    Seq::new(s.len(), |i: int| lower_char(s[i]))
}

/// `s` with its ASCII small letters made capitals.
pub open spec fn upper_of(s: Seq<char>) -> Seq<char> {
    Seq::new(s.len(), |i: int| upper_char(s[i]))
}

/// `s` with every `from` replaced by `to`.
pub open spec fn swap_of(s: Seq<char>, from: char, to: char) -> Seq<char> {
    Seq::new(
        s.len(),
        |i: int|
            if s[i] == from {
                to
            } else {
                s[i]
            },
    )
}

/// `s` with its ASCII capital letters made small.
pub fn lower(s: &str) -> (r: String)
    ensures
        r@ == lower_of(s@),
{
    let cs = chars_of(s);
    let mut out: Vec<char> = Vec::new();
    let mut i: usize = 0;
    while i < cs.len()
        invariant
            cs@ == s@,
            i <= cs@.len(),
            out@ == lower_of(s@).take(i as int),
        decreases cs@.len() - i,
    {
        let c = cs[i];
        if 'A' <= c && c <= 'Z' {
            out.push((c as u8 + 32) as char);
        } else {
            out.push(c);
        }
        proof {
            assert(lower_of(s@).take(i + 1) =~= lower_of(s@).take(i as int).push(lower_char(c)));
        }
        i += 1;
    }
    proof {
        assert(lower_of(s@).take(s@.len() as int) =~= lower_of(s@));
    }
    string_of(&out)
}

/// `s` with its ASCII small letters made capitals.
pub fn upper(s: &str) -> (r: String)
    ensures
        r@ == upper_of(s@),
{
    let cs = chars_of(s);
    let mut out: Vec<char> = Vec::new();
    let mut i: usize = 0;
    while i < cs.len()
        invariant
            cs@ == s@,
            i <= cs@.len(),
            out@ == upper_of(s@).take(i as int),
        decreases cs@.len() - i,
    {
        let c = cs[i];
        if 'a' <= c && c <= 'z' {
            out.push((c as u8 - 32) as char);
        } else {
            out.push(c);
        }
        proof {
            assert(upper_of(s@).take(i + 1) =~= upper_of(s@).take(i as int).push(upper_char(c)));
        }
        i += 1;
    }
    proof {
        assert(upper_of(s@).take(s@.len() as int) =~= upper_of(s@));
    }
    string_of(&out)
}

/// `s` with every `from` replaced by `to`.
pub fn swap_char(s: &str, from: char, to: char) -> (r: String)
    ensures
        r@ == swap_of(s@, from, to),
{
    let cs = chars_of(s);
    let mut out: Vec<char> = Vec::new();
    let mut i: usize = 0;
    while i < cs.len()
        invariant
            cs@ == s@,
            i <= cs@.len(),
            out@ == swap_of(s@, from, to).take(i as int),
        decreases cs@.len() - i,
    {
        let c = if cs[i] == from {
            to
        } else {
            cs[i]
        };
        out.push(c);
        proof {
            assert(swap_of(s@, from, to).take(i + 1) =~= swap_of(s@, from, to).take(i as int).push(
                c,
            ));
        }
        i += 1;
    }
    proof {
        assert(swap_of(s@, from, to).take(s@.len() as int) =~= swap_of(s@, from, to));
    }
    string_of(&out)
}

/// The view of an optional string.
pub open spec fn opt_view(o: Option<String>) -> Option<Seq<char>> {
    match o {
        Some(s) => Some(s@),
        None => None,
    }
}

/// How many bytes the UTF-8 form of `s` has.
pub open spec fn byte_len(s: Seq<char>) -> nat {
    vstd::utf8::encode_utf8(s).len()
}

/// How many bytes the UTF-8 form of `s` has.
pub fn bytes_in(s: &str) -> (n: usize)
    ensures
        n == byte_len(s@),
{
    s.as_bytes().len()
}

/// How many bytes the white space at the start of `s` takes.
pub open spec fn indent_of(s: Seq<char>) -> int {
    byte_len(s) - byte_len(drop_front(s, Strip::Space))
}

pub proof fn lemma_indent(s: Seq<char>)
    ensures
        0 <= indent_of(s) <= byte_len(s),
    decreases s.len(),
{
    if s.len() > 0 && is_space(s[0]) {
        assert(s.drop_first() =~= s.skip(1));
        lemma_indent(s.skip(1));
    }
}

/// How many bytes the white space at the start of `s` takes.
pub fn indent(s: &str) -> (n: usize)
    ensures
        n == indent_of(s@),
{
    proof {
        lemma_indent(s@);
    }
    bytes_in(s) - bytes_in(strip_front(s, Strip::Space))
}

} // verus!
