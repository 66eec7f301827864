//! What trimming, joining and taking apart into lines have to do with each other.

use crate::text::{
    byte_len, doubled, drop_back, drop_both, drop_front, find_char, has_sub, indent_of, is_ctrl,
    is_space,
    join_of, lemma_find_char, lemma_find_char_is, lines_of, lower_of, split_of, stands_at, strips,
    sub_at, swap_of, trim_of, upper_of, without_cr, word_len, words_of, Strip,
};
use vstd::prelude::*;

verus! {

/// The UTF-8 form of two texts in a row is as long as both forms together.
pub proof fn lemma_byte_len_add(a: Seq<char>, b: Seq<char>)
    ensures
        byte_len(a + b) == byte_len(a) + byte_len(b),
    decreases a.len(),
{
    if a.len() == 0 {
        assert(a + b =~= b);
    } else {
        assert((a + b).drop_first() =~= a.drop_first() + b);
        lemma_byte_len_add(a.drop_first(), b);
    }
}

/// What is left of a longer text when its front is trimmed.
pub proof fn lemma_drop_front_push(a: Seq<char>, c: char, k: Strip)
    ensures
        drop_front(a, k).len() > 0 ==> drop_front(a.push(c), k) == drop_front(a, k).push(c),
        drop_front(a, k).len() == 0 && strips(k, c) ==> drop_front(a.push(c), k).len() == 0,
        drop_front(a, k).len() == 0 && !strips(k, c) ==> drop_front(a.push(c), k) == seq![c],
    decreases a.len(),
{
    if a.len() == 0 {
        assert(a.push(c) =~= seq![c]);
        assert(drop_front(seq![c].skip(1), k).len() == 0);
    } else if strips(k, a[0]) {
        assert(a.push(c)[0] == a[0]);
        assert(a.push(c).skip(1) =~= a.skip(1).push(c));
        lemma_drop_front_push(a.skip(1), c, k);
    } else {
        assert(a.push(c)[0] == a[0]);
    }
}

/// White space at the end of a line makes no difference to what the line says.
pub proof fn lemma_trim_push_space(a: Seq<char>, c: char)
    requires
        is_space(c),
    ensures
        trim_of(a.push(c)) == trim_of(a),
        trim_of(a).len() > 0 ==> indent_of(a.push(c)) == indent_of(a),
{
    lemma_drop_front_push(a, c, Strip::Space);
    let f = drop_front(a, Strip::Space);
    if f.len() > 0 {
        assert(f.push(c).drop_last() =~= f);
        lemma_byte_len_add(a, seq![c]);
        lemma_byte_len_add(f, seq![c]);
        assert(a.push(c) =~= a + seq![c]);
        assert(f.push(c) =~= f + seq![c]);
    }
}

pub proof fn lemma_trim_without_cr(a: Seq<char>)
    ensures
        trim_of(without_cr(a)) == trim_of(a),
        trim_of(a).len() > 0 ==> indent_of(without_cr(a)) == indent_of(a),
{
    if a.len() > 0 && a.last() == '\r' {
        lemma_trim_push_space(a.drop_last(), '\r');
        assert(a.drop_last().push('\r') =~= a);
    }
}

/// A text that neither starts nor ends with a character of `k` is not trimmed.
pub proof fn lemma_untrimmed(a: Seq<char>, k: Strip)
    requires
        a.len() > 0,
        !strips(k, a[0]),
        !strips(k, a.last()),
    ensures
        drop_front(a, k) == a,
        drop_back(a, k) == a,
        drop_both(a, k) == a,
{
}

/// A trimmed text neither starts nor ends with a character of `k`, and is not trimmed again.
pub proof fn lemma_trimmed(a: Seq<char>, k: Strip)
    ensures
        drop_both(a, k).len() > 0 ==> !strips(k, drop_both(a, k)[0]) && !strips(
            k,
            drop_both(a, k).last(),
        ),
        drop_both(drop_both(a, k), k) == drop_both(a, k),
{
    lemma_drop_front(a, k);
    let f = drop_front(a, k);
    lemma_drop_back(f, k);
}

proof fn lemma_drop_front(a: Seq<char>, k: Strip)
    ensures
        drop_front(a, k).len() > 0 ==> !strips(k, drop_front(a, k)[0]),
    decreases a.len(),
{
    if a.len() > 0 && strips(k, a[0]) {
        lemma_drop_front(a.skip(1), k);
    }
}

/// A text trimmed at its end is a prefix of the text and does not end with a character of `k`.
pub proof fn lemma_drop_back(a: Seq<char>, k: Strip)
    ensures
        drop_back(a, k).len() > 0 ==> !strips(k, drop_back(a, k).last()),
        drop_back(a, k).len() <= a.len(),
        drop_back(a, k) == a.take(drop_back(a, k).len() as int),
    decreases a.len(),
{
    if a.len() > 0 && strips(k, a.last()) {
        lemma_drop_back(a.drop_last(), k);
        let n = drop_back(a.drop_last(), k).len() as int;
        assert(a.drop_last().take(n) =~= a.take(n));
    } else {
        assert(a.take(a.len() as int) =~= a);
    }
}

/// A trimmed text is a part of the text.
pub proof fn lemma_trim_part(a: Seq<char>, c: char, k: Strip)
    ensures
        drop_both(a, k).contains(c) ==> a.contains(c),
        drop_front(a, k).contains(c) ==> a.contains(c),
{
    lemma_drop_front_part(a, c, k);
    let f = drop_front(a, k);
    lemma_drop_back(f, k);
    let b = drop_back(f, k);
    if b.contains(c) {
        let i = choose|i: int| 0 <= i < b.len() && b[i] == c;
        assert(f[i] == c);
    }
}

proof fn lemma_drop_front_part(a: Seq<char>, c: char, k: Strip)
    ensures
        drop_front(a, k).contains(c) ==> a.contains(c),
    decreases a.len(),
{
    if a.len() > 0 && strips(k, a[0]) {
        lemma_drop_front_part(a.skip(1), c, k);
        if a.skip(1).contains(c) {
            let i = choose|i: int| 0 <= i < a.skip(1).len() && a.skip(1)[i] == c;
            assert(a[i + 1] == c);
        }
    }
}

/// A join taken apart behind its first part.
pub proof fn lemma_join_front(parts: Seq<Seq<char>>, sep: Seq<char>)
    requires
        parts.len() >= 2,
    ensures
        join_of(parts, sep) == parts[0] + sep + join_of(parts.skip(1), sep),
    decreases parts.len(),
{
    let rest = parts.skip(1);
    if parts.len() == 2 {
        assert(parts.drop_last().len() == 1);
        assert(rest.len() == 1);
        assert(rest[0] == parts.last());
        assert(join_of(parts.drop_last(), sep) == parts[0]);
        assert(join_of(rest, sep) == parts.last());
    } else {
        lemma_join_front(parts.drop_last(), sep);
        assert(parts.drop_last().skip(1) =~= rest.drop_last());
        assert(rest.last() == parts.last());
        assert(join_of(parts, sep) =~= parts[0] + sep + (join_of(rest.drop_last(), sep) + sep
            + rest.last()));
    }
}

/// No line holds a line feed.
pub open spec fn no_feeds(ls: Seq<Seq<char>>) -> bool {
    forall|i: int| 0 <= i < ls.len() ==> !(#[trigger] ls[i]).contains('\n')
}

/// The lines of a text hold no line feed.
pub proof fn lemma_lines_no_feeds(s: Seq<char>)
    ensures
        no_feeds(lines_of(s)),
    decreases s.len(),
{
    lemma_find_char(s, '\n');
    let n = find_char(s, '\n');
    if s.len() > 0 && n < s.len() {
        lemma_lines_no_feeds(s.skip(n + 1));
        let first = without_cr(s.take(n));
        let rest = lines_of(s.skip(n + 1));
        assert(!first.contains('\n')) by {
            if first.contains('\n') {
                let i = choose|i: int| 0 <= i < first.len() && first[i] == '\n';
                assert(s[i] == '\n');
            }
        }
        assert forall|i: int| 0 <= i < lines_of(s).len() implies !(#[trigger] lines_of(
            s,
        )[i]).contains('\n') by {
            if i > 0 {
                assert(lines_of(s)[i] == rest[i - 1]);
            }
        }
    }
}

/// The first line of a text that holds a line feed, and the lines of the rest.
pub proof fn lemma_lines_cons(a: Seq<char>, rest: Seq<char>)
    requires
        !a.contains('\n'),
    ensures
        lines_of(a + "\n"@ + rest) == seq![without_cr(a)] + lines_of(rest),
{
    reveal_strlit("\n");
    let s = a + "\n"@ + rest;
    let n = a.len() as int;
    assert(s[n] == '\n');
    assert forall|j: int| 0 <= j < n implies s[j] != '\n' by {
        assert(s[j] == a[j]);
        assert(a.contains(a[j]));
    }
    lemma_find_char_is(s, '\n', n);
    assert(s.take(n) =~= a);
    assert(s.skip(n + 1) =~= rest);
}

/// Each line without the carriage return that ends it.
pub open spec fn without_crs(ls: Seq<Seq<char>>) -> Seq<Seq<char>> {
    Seq::new(ls.len(), |i: int| without_cr(ls[i]))
}

/// The lines of a join that ends with a line feed.
pub proof fn lemma_lines_of_join_feed(ls: Seq<Seq<char>>)
    requires
        ls.len() > 0,
        no_feeds(ls),
    ensures
        lines_of(join_of(ls, "\n"@) + "\n"@) == without_crs(ls),
    decreases ls.len(),
{
    assert(!ls[0].contains('\n'));
    if ls.len() == 1 {
        lemma_lines_cons(ls[0], Seq::empty());
        assert(ls[0] + "\n"@ + Seq::<char>::empty() =~= ls[0] + "\n"@);
        assert(without_crs(ls) =~= seq![without_cr(ls[0])] + Seq::<Seq<char>>::empty());
    } else {
        let rest = ls.skip(1);
        assert(no_feeds(rest)) by {
            assert forall|i: int| 0 <= i < rest.len() implies !(#[trigger] rest[i]).contains(
                '\n',
            ) by {
                assert(rest[i] == ls[i + 1]);
            }
        }
        lemma_join_front(ls, "\n"@);
        lemma_lines_of_join_feed(rest);
        lemma_lines_cons(ls[0], join_of(rest, "\n"@) + "\n"@);
        assert(join_of(ls, "\n"@) + "\n"@ =~= ls[0] + "\n"@ + (join_of(rest, "\n"@) + "\n"@));
        assert(without_crs(ls) =~= seq![without_cr(ls[0])] + without_crs(rest));
    }
}

/// The pieces of a text hold no separator, and nothing that the text does not hold.
pub proof fn lemma_split_pieces(s: Seq<char>, c: char, i: int)
    requires
        0 <= i < split_of(s, c).len(),
    ensures
        !split_of(s, c)[i].contains(c),
        forall|x: char| #[trigger] split_of(s, c)[i].contains(x) ==> s.contains(x),
    decreases s.len(),
{
    lemma_find_char(s, c);
    let n = find_char(s, c);
    if n < s.len() {
        let rest = s.skip(n + 1);
        if i == 0 {
            let p = s.take(n);
            assert(split_of(s, c)[0] == p);
            assert(!p.contains(c)) by {
                if p.contains(c) {
                    let k = choose|k: int| 0 <= k < p.len() && p[k] == c;
                    assert(s[k] == c);
                }
            }
            assert forall|x: char| #[trigger] p.contains(x) implies s.contains(x) by {
                let k = choose|k: int| 0 <= k < p.len() && p[k] == x;
                assert(s[k] == x);
            }
        } else {
            lemma_split_pieces(rest, c, i - 1);
            assert(split_of(s, c)[i] == split_of(rest, c)[i - 1]);
            assert forall|x: char| #[trigger] split_of(s, c)[i].contains(x) implies s.contains(
                x,
            ) by {
                assert(rest.contains(x));
                let k = choose|k: int| 0 <= k < rest.len() && rest[k] == x;
                assert(s[k + n + 1] == x);
            }
        }
    }
}

/// What was joined is split again.
pub proof fn lemma_split_join(parts: Seq<Seq<char>>, c: char)
    requires
        parts.len() > 0,
        forall|i: int| 0 <= i < parts.len() ==> !(#[trigger] parts[i]).contains(c),
    ensures
        split_of(join_of(parts, seq![c]), c) == parts,
    decreases parts.len(),
{
    let s = join_of(parts, seq![c]);
    assert(!parts[0].contains(c));
    if parts.len() == 1 {
        lemma_find_char(s, c);
        assert(parts =~= seq![parts[0]]);
    } else {
        lemma_join_front(parts, seq![c]);
        let rest = parts.skip(1);
        assert forall|i: int| 0 <= i < rest.len() implies !(#[trigger] rest[i]).contains(c) by {
            assert(rest[i] == parts[i + 1]);
        }
        lemma_split_join(rest, c);
        let t = join_of(rest, seq![c]);
        assert(s == parts[0] + seq![c] + t);
        let n = parts[0].len() as int;
        assert forall|j: int| 0 <= j < n implies s[j] != c by {
            assert(s[j] == parts[0][j]);
            assert(parts[0].contains(parts[0][j]));
        }
        assert(s[n] == c);
        lemma_find_char_is(s, c, n);
        assert(s.take(n) =~= parts[0]);
        assert(s.skip(n + 1) =~= t);
        assert(seq![parts[0]] + rest =~= parts);
    }
}

/// A separator behind a text adds an empty piece.
pub proof fn lemma_split_end(s: Seq<char>, c: char)
    ensures
        split_of(s.push(c), c) == split_of(s, c).push(Seq::empty()),
    decreases s.len(),
{
    let t = s.push(c);
    lemma_find_char(s, c);
    let n = find_char(s, c);
    if n < s.len() {
        assert forall|j: int| 0 <= j < n implies t[j] != c by {
            assert(t[j] == s[j]);
        }
        lemma_find_char_is(t, c, n);
        let rest = s.skip(n + 1);
        lemma_split_end(rest, c);
        assert(t.skip(n + 1) =~= rest.push(c));
        assert(t.take(n) =~= s.take(n));
        assert(seq![s.take(n)] + split_of(rest, c).push(Seq::empty()) =~= (seq![s.take(n)]
            + split_of(rest, c)).push(Seq::empty()));
    } else {
        assert forall|j: int| 0 <= j < s.len() implies t[j] != c by {
            assert(s.contains(s[j]));
        }
        lemma_find_char_is(t, c, s.len() as int);
        assert(t.take(s.len() as int) =~= s);
        let e = t.skip((s.len() + 1) as int);
        assert(e =~= Seq::empty());
        lemma_find_char(e, c);
        assert(split_of(e, c) =~= seq![Seq::<char>::empty()]);
        assert(seq![s] + seq![Seq::<char>::empty()] =~= seq![s].push(Seq::empty()));
    }
}

/// Whether every character of `s` is one that is stripped.
pub open spec fn all_stripped(s: Seq<char>, k: Strip) -> bool {
    forall|i: int| 0 <= i < s.len() ==> strips(k, #[trigger] s[i])
}

pub proof fn lemma_front_padded(a: Seq<char>, s: Seq<char>, k: Strip)
    requires
        all_stripped(a, k),
    ensures
        drop_front(a + s, k) == drop_front(s, k),
    decreases a.len(),
{
    if a.len() == 0 {
        assert(a + s =~= s);
    } else {
        assert((a + s)[0] == a[0]);
        assert((a + s).skip(1) =~= a.skip(1) + s);
        assert forall|i: int| 0 <= i < a.skip(1).len() implies strips(k, #[trigger] a.skip(1)[i]) by {
            assert(a.skip(1)[i] == a[i + 1]);
        }
        lemma_front_padded(a.skip(1), s, k);
    }
}

proof fn lemma_back_padded(s: Seq<char>, b: Seq<char>, k: Strip)
    requires
        all_stripped(b, k),
    ensures
        drop_back(s + b, k) == drop_back(s, k),
    decreases b.len(),
{
    if b.len() == 0 {
        assert(s + b =~= s);
    } else {
        assert((s + b).last() == b.last());
        assert((s + b).drop_last() =~= s + b.drop_last());
        lemma_back_padded(s, b.drop_last(), k);
    }
}

/// Stripping takes off what stands round a text and no more: a text that neither starts nor ends
/// with a character to be stripped comes out as it is, whatever such characters stand before and
/// behind it.
pub proof fn law_strip_takes_off_what_stands_round(
    a: Seq<char>,
    w: Seq<char>,
    b: Seq<char>,
    k: Strip,
)
    requires
        all_stripped(a, k),
        all_stripped(b, k),
        w.len() > 0 ==> !strips(k, w[0]) && !strips(k, w.last()),
    ensures
        drop_both(a + w + b, k) == w,
        drop_front(a + w, k) == w,
        drop_back(w + b, k) == w,
{
    lemma_front_padded(a, w, k);
    lemma_back_padded(w, b, k);
    if w.len() == 0 {
        assert(all_stripped(a + w + b, k));
        lemma_front_padded(a + w + b, Seq::empty(), k);
        assert(a + w + b + Seq::<char>::empty() =~= a + w + b);
        assert(drop_front(Seq::<char>::empty(), k) =~= Seq::empty());
        assert(drop_both(a + w + b, k) =~= w);
        assert(drop_front(w, k) =~= w);
        assert(drop_back(w, k) =~= w);
    } else {
        lemma_untrimmed(w, k);
        assert(a + w + b =~= a + (w + b));
        lemma_front_padded(a, w + b, k);
        assert((w + b)[0] == w[0]);
        assert(drop_front(w + b, k) == w + b);
    }
}

/// A trim takes away nothing but white space at the two ends, and all of it.
pub proof fn law_every_text_is_its_trim_with_space_round_it(s: Seq<char>)
    ensures
        exists|a: Seq<char>, b: Seq<char>|
            all_stripped(a, Strip::Space) && all_stripped(b, Strip::Space) && s == #[trigger] (a
                + trim_of(s) + b),
        trim_of(s).len() > 0 ==> !is_space(trim_of(s)[0]) && !is_space(trim_of(s).last()),
{
    lemma_trimmed(s, Strip::Space);
    let f = drop_front(s, Strip::Space);
    lemma_front_is_end(s, Strip::Space);
    lemma_back_is_start(f, Strip::Space);
    let a = s.take(s.len() - f.len());
    let b = f.skip(trim_of(s).len() as int);
    assert(all_stripped(b, Strip::Space));
    assert(s =~= a + trim_of(s) + b);
}

proof fn lemma_front_is_end(s: Seq<char>, k: Strip)
    ensures
        drop_front(s, k).len() <= s.len(),
        drop_front(s, k) == s.skip(s.len() - drop_front(s, k).len()),
        all_stripped(s.take(s.len() - drop_front(s, k).len()), k),
    decreases s.len(),
{
    if s.len() > 0 && strips(k, s[0]) {
        lemma_front_is_end(s.skip(1), k);
        let n = s.len() - drop_front(s, k).len();
        assert(s.skip(1).skip(n - 1) =~= s.skip(n));
        assert forall|i: int| 0 <= i < n implies strips(k, #[trigger] s.take(n)[i]) by {
            if i > 0 {
                assert(s.take(n)[i] == s.skip(1).take(n - 1)[i - 1]);
            }
        }
    } else {
        assert(s.skip(0) =~= s);
    }
}

proof fn lemma_back_is_start(s: Seq<char>, k: Strip)
    ensures
        drop_back(s, k).len() <= s.len(),
        drop_back(s, k) == s.take(drop_back(s, k).len() as int),
        all_stripped(s.skip(drop_back(s, k).len() as int), k),
    decreases s.len(),
{
    if s.len() > 0 && strips(k, s.last()) {
        lemma_back_is_start(s.drop_last(), k);
        let n = drop_back(s, k).len() as int;
        assert(s.drop_last().take(n) =~= s.take(n));
        assert forall|i: int| 0 <= i < s.skip(n).len() implies strips(k, #[trigger] s.skip(n)[i]) by {
            if i < s.skip(n).len() - 1 {
                assert(s.skip(n)[i] == s.drop_last().skip(n)[i]);
            }
        }
    } else {
        assert(s.take(s.len() as int) =~= s);
        assert(s.skip(s.len() as int).len() == 0);
    }
}

proof fn lemma_word_len(w: Seq<char>, b: Seq<char>)
    requires
        forall|i: int| 0 <= i < w.len() ==> !is_space(#[trigger] w[i]),
        b.len() > 0 ==> is_space(b[0]),
    ensures
        word_len(w + b) == w.len(),
    decreases w.len(),
{
    if w.len() == 0 {
        assert(w + b =~= b);
    } else {
        assert((w + b)[0] == w[0]);
        assert((w + b).skip(1) =~= w.skip(1) + b);
        assert forall|i: int| 0 <= i < w.skip(1).len() implies !is_space(#[trigger] w.skip(1)[i]) by {
            assert(w.skip(1)[i] == w[i + 1]);
        }
        lemma_word_len(w.skip(1), b);
    }
}

/// The words of a text are its longest stretches without white space: a word comes out whole,
/// whatever white space stands before it, and the words behind it follow.
pub proof fn law_words_are_what_space_parts(a: Seq<char>, w: Seq<char>, b: Seq<char>)
    requires
        all_stripped(a, Strip::Space),
        w.len() > 0,
        forall|i: int| 0 <= i < w.len() ==> !is_space(#[trigger] w[i]),
        b.len() > 0 ==> is_space(b[0]),
    ensures
        words_of(a + w + b) == seq![w] + words_of(b),
        words_of(a) == Seq::<Seq<char>>::empty(),
{
    let s = a + w + b;
    assert(s =~= a + (w + b));
    lemma_front_padded(a, w + b, Strip::Space);
    assert((w + b)[0] == w[0]);
    assert(drop_front(w + b, Strip::Space) == w + b);
    lemma_word_len(w, b);
    assert((w + b).take(w.len() as int) =~= w);
    assert((w + b).skip(w.len() as int) =~= b);
    lemma_front_padded(a, Seq::empty(), Strip::Space);
    assert(a + Seq::<char>::empty() =~= a);
    assert(drop_front(Seq::<char>::empty(), Strip::Space) =~= Seq::empty());
}

/// Doubling a character doubles each place where it stands and changes nothing else.
pub proof fn law_doubling_goes_place_by_place(a: Seq<char>, x: char, b: Seq<char>, c: char)
    ensures
        doubled(a + b, c) == doubled(a, c) + doubled(b, c),
        doubled(seq![x], c) == if x == c {
            seq![c, c]
        } else {
            seq![x]
        },
    decreases b.len(),
{
    let none = Seq::<char>::empty();
    assert(doubled(none, c) =~= none);
    assert(seq![x].drop_last() =~= none);
    assert(none + seq![c, c] =~= seq![c, c]);
    assert(none.push(x) =~= seq![x]);
    if b.len() == 0 {
        assert(a + b =~= a);
        assert(doubled(a, c) + doubled(b, c) =~= doubled(a, c));
    } else {
        assert((a + b).drop_last() =~= a + b.drop_last());
        law_doubling_goes_place_by_place(a, x, b.drop_last(), c);
        assert(doubled(a + b, c) =~= doubled(a, c) + doubled(b, c));
    }
}

proof fn lemma_sub_from(s: Seq<char>, p: Seq<char>, i: int, n: int)
    requires
        0 <= i <= n <= s.len(),
        forall|j: int| i <= j < n ==> !stands_at(s, p, j),
        stands_at(s, p, n),
    ensures
        sub_at(s, p, i) == Some(n),
    decreases n - i,
{
    if i < n {
        assert(!stands_at(s, p, i));
        lemma_sub_from(s, p, i + 1, n);
    }
}

proof fn lemma_sub_none(s: Seq<char>, p: Seq<char>, i: int)
    requires
        0 <= i,
        forall|j: int| i <= j ==> !stands_at(s, p, j),
    ensures
        sub_at(s, p, i) is None,
    decreases s.len() + 1 - i,
{
    if i <= s.len() {
        assert(!stands_at(s, p, i));
        lemma_sub_none(s, p, i + 1);
    }
}

/// A text is found at the first place where it stands, and nowhere if it stands nowhere.
pub proof fn law_first_place_is_found(s: Seq<char>, p: Seq<char>, n: int)
    ensures
        stands_at(s, p, n) && (forall|j: int| 0 <= j < n ==> !stands_at(s, p, j)) ==> sub_at(s, p, 0)
            == Some(n),
        !has_sub(s, p) ==> sub_at(s, p, 0) is None,
{
    if stands_at(s, p, n) && (forall|j: int| 0 <= j < n ==> !stands_at(s, p, j)) {
        lemma_sub_from(s, p, 0, n);
    }
    if !has_sub(s, p) {
        lemma_sub_none(s, p, 0);
    }
}

/// A line ends at a line feed, with which one carriage return before it goes; what stands behind the
/// last line feed is a line where it is not empty. A text without line feeds is one line.
pub proof fn law_lines_end_at_feeds(a: Seq<char>, rest: Seq<char>)
    requires
        !a.contains('\n'),
    ensures
        lines_of(a + seq!['\n'] + rest) == seq![
            if a.len() > 0 && a.last() == '\r' {
                a.drop_last()
            } else {
                a
            },
        ] + lines_of(rest),
        a.len() > 0 ==> lines_of(a) == seq![a],
        lines_of(Seq::empty()) == Seq::<Seq<char>>::empty(),
{
    reveal_strlit("\n");
    assert("\n"@ =~= seq!['\n']);
    lemma_lines_cons(a, rest);
    lemma_find_char(a, '\n');
}

/// The pieces of a text that is joined from pieces without the separator are those pieces; a text
/// without the separator is one piece.
pub proof fn law_pieces_are_what_was_joined(parts: Seq<Seq<char>>, c: char)
    requires
        parts.len() > 0,
        forall|i: int| 0 <= i < parts.len() ==> !(#[trigger] parts[i]).contains(c),
    ensures
        split_of(join_of(parts, seq![c]), c) == parts,
        split_of(parts[0], c) == seq![parts[0]],
{
    lemma_split_join(parts, c);
    lemma_find_char(parts[0], c);
}

/// Texts are joined with the separator between any two of them, and nowhere else.
pub proof fn law_joining_puts_separators_between(
    a: Seq<Seq<char>>,
    x: Seq<char>,
    sep: Seq<char>,
)
    ensures
        join_of(Seq::empty(), sep) == Seq::<char>::empty(),
        join_of(seq![x], sep) == x,
        a.len() > 0 ==> join_of(a + seq![x], sep) == join_of(a, sep) + sep + x,
        a.len() > 0 ==> join_of(seq![x] + a, sep) == x + sep + join_of(a, sep),
{
    if a.len() > 0 {
        assert((a + seq![x]).drop_last() =~= a);
        lemma_join_front(seq![x] + a, sep);
        assert((seq![x] + a).skip(1) =~= a);
    }
}

/// Lower case and upper case differ for the letters of ASCII only, and by nothing but the case.
pub proof fn law_case_is_that_of_ascii(s: Seq<char>, i: int)
    requires
        0 <= i < s.len(),
    ensures
        lower_of(s).len() == s.len(),
        upper_of(s).len() == s.len(),
        !('A' <= s[i] <= 'Z') ==> lower_of(s)[i] == s[i],
        !('a' <= s[i] <= 'z') ==> upper_of(s)[i] == s[i],
        'A' <= s[i] <= 'Z' ==> 'a' <= lower_of(s)[i] <= 'z' && lower_of(s)[i] as int - s[i] as int
            == 32,
        'a' <= s[i] <= 'z' ==> 'A' <= upper_of(s)[i] <= 'Z' && s[i] as int - upper_of(s)[i] as int
            == 32,
{
}

/// Exchanging a character changes each place where it stands, and no other.
pub proof fn law_exchange_goes_place_by_place(s: Seq<char>, from: char, to: char, i: int)
    requires
        0 <= i < s.len(),
    ensures
        swap_of(s, from, to).len() == s.len(),
        s[i] == from ==> swap_of(s, from, to)[i] == to,
        s[i] != from ==> swap_of(s, from, to)[i] == s[i],
{
}

/// The characters that count as white space.
pub open spec fn white_spaces() -> Seq<char> {
    seq![
        '\t',
        '\n',
        '\u{b}',
        '\u{c}',
        '\r',
        ' ',
        '\u{85}',
        '\u{a0}',
        '\u{1680}',
        '\u{2000}',
        '\u{2001}',
        '\u{2002}',
        '\u{2003}',
        '\u{2004}',
        '\u{2005}',
        '\u{2006}',
        '\u{2007}',
        '\u{2008}',
        '\u{2009}',
        '\u{200a}',
        '\u{2028}',
        '\u{2029}',
        '\u{202f}',
        '\u{205f}',
        '\u{3000}',
    ]
}

/// White space is what Unicode lists as such, and control characters are those below the space and
/// those from 127 to 159.
pub proof fn law_white_space_is_what_unicode_lists(c: char)
    ensures
        is_space(c) <==> white_spaces().contains(c),
        is_ctrl(c) <==> (c as u32) < 32 || 127 <= (c as u32) <= 159,
{
    let v = white_spaces();
    let n = c as u32;
    assert(v[0] == '\t' && v[1] == '\n' && v[2] == '\u{b}' && v[3] == '\u{c}' && v[4] == '\r' && v[5]
        == ' ' && v[6] == '\u{85}' && v[7] == '\u{a0}' && v[8] == '\u{1680}');
    assert(v[9] == '\u{2000}' && v[10] == '\u{2001}' && v[11] == '\u{2002}' && v[12] == '\u{2003}'
        && v[13] == '\u{2004}' && v[14] == '\u{2005}' && v[15] == '\u{2006}' && v[16]
        == '\u{2007}' && v[17] == '\u{2008}' && v[18] == '\u{2009}' && v[19] == '\u{200a}');
    assert(v[20] == '\u{2028}' && v[21] == '\u{2029}' && v[22] == '\u{202f}' && v[23] == '\u{205f}'
        && v[24] == '\u{3000}');
    if is_space(c) {
        assert(v.contains(c)) by {
            if n <= 13 {
                assert(v[n - 9] == c);
            } else if 0x2000 <= n <= 0x200a {
                assert(v[n - 0x2000 + 9] == c);
            }
        }
    }
    if v.contains(c) {
        let k = choose|k: int| 0 <= k < v.len() && v[k] == c;
    }
}

} // verus!
