//! What holds of the entries of a patch file: which lines make up an `insert` block, which lines
//! belong to an entry, and what a line of either says.

use crate::patch::{
    block_off, comment_at, disabled_ids, entry_at, entry_id, hash_at, ids_upto, insert_ids, kept,
    last_off, marked, off_at, own_block, rows_of, says, says_disabled, scalar_of, scan_next,
    still_off, Scan,
};
use crate::patch_laws::{
    law_last_entry_decides, lemma_kept_behind_unmarked, lemma_kept_shift, lemma_rows_add,
};
use crate::text::{
    byte_len, drop_both, drop_front, indent_of, is_space, lower_of, strips, trim_of, Strip,
};
use crate::text_laws::{
    all_stripped, law_strip_takes_off_what_stands_round, lemma_byte_len_add, lemma_front_padded,
};
use vstd::prelude::*;

verus! {

/// The ids that rows name, in their order.
pub open spec fn named_ids(rows: Seq<(int, Seq<char>)>) -> Seq<Seq<char>>
    decreases rows.len(),
{
    if rows.len() == 0 {
        Seq::empty()
    } else {
        named_ids(rows.drop_last()) + (match entry_id(rows.last().1) {
            Some(id) => seq![id],
            None => Seq::empty(),
        })
    }
}

proof fn lemma_named_front(rows: Seq<(int, Seq<char>)>)
    requires
        rows.len() > 0,
    ensures
        named_ids(rows) == (match entry_id(rows[0].1) {
            Some(id) => seq![id],
            None => Seq::empty(),
        }) + named_ids(rows.skip(1)),
    decreases rows.len(),
{
    if rows.len() == 1 {
        assert(rows.skip(1).len() == 0);
        assert(rows.drop_last().len() == 0);
        assert(named_ids(rows.drop_last()) =~= Seq::empty());
        assert(named_ids(rows.skip(1)) =~= Seq::empty());
    } else {
        lemma_named_front(rows.drop_last());
        assert(rows.drop_last().skip(1) =~= rows.skip(1).drop_last());
        assert(rows.skip(1).last() == rows.last());
    }
}

proof fn lemma_open_block(k: int, body: Seq<(int, Seq<char>)>, rest: Seq<(int, Seq<char>)>)
    requires
        forall|i: int| 0 <= i < body.len() ==> (#[trigger] body[i]).0 > k,
        rest.len() > 0 ==> rest[0].0 <= k,
    ensures
        insert_ids(body + rest, Some(k)) == named_ids(body) + insert_ids(rest, None),
    decreases body.len(),
{
    let all = body + rest;
    if body.len() == 0 {
        assert(all =~= rest);
        assert(named_ids(body) + insert_ids(rest, None) =~= insert_ids(rest, None));
    } else {
        assert(all[0] == body[0]);
        assert(all.skip(1) =~= body.skip(1) + rest);
        assert forall|i: int| 0 <= i < body.skip(1).len() implies (#[trigger] body.skip(1)[i]).0
            > k by {
            assert(body.skip(1)[i] == body[i + 1]);
        }
        lemma_open_block(k, body.skip(1), rest);
        lemma_named_front(body);
        let tail = named_ids(body.skip(1)) + insert_ids(rest, None);
        assert(named_ids(body) + insert_ids(rest, None) =~= (match entry_id(body[0].1) {
            Some(id) => seq![id],
            None => Seq::<Seq<char>>::empty(),
        }) + tail);
        assert(Seq::<Seq<char>>::empty() + tail =~= tail);
    }
}

/// An `insert` block holds all rows that are indented deeper than the row that opens it, up to the
/// first that is not: the ids are those that its rows name, whatever other rows stand between
/// them, and the rows behind the block are read as if they stood alone.
pub proof fn law_insert_block_holds_the_deeper_rows(
    k: int,
    head: Seq<char>,
    body: Seq<(int, Seq<char>)>,
    rest: Seq<(int, Seq<char>)>,
)
    requires
        "- insert:"@.is_prefix_of(head) || "insert:"@.is_prefix_of(head),
        forall|i: int| 0 <= i < body.len() ==> (#[trigger] body[i]).0 > k,
        rest.len() > 0 ==> rest[0].0 <= k,
    ensures
        insert_ids(seq![(k, head)] + body + rest, None) == named_ids(body) + insert_ids(rest, None),
        insert_ids(seq![(k, head)] + body, None) == named_ids(body),
{
    let all = seq![(k, head)] + body + rest;
    assert(all.skip(1) =~= body + rest);
    lemma_open_block(k, body, rest);
    let one = seq![(k, head)] + body;
    assert(one.skip(1) =~= body + Seq::<(int, Seq<char>)>::empty());
    lemma_open_block(k, body, Seq::empty());
    assert(named_ids(body) + Seq::<Seq<char>>::empty() =~= named_ids(body));
}

/// Rows that open no `insert` block and stand in none give no ids.
pub proof fn law_rows_outside_blocks_give_no_ids(
    rows: Seq<(int, Seq<char>)>,
    rest: Seq<(int, Seq<char>)>,
)
    requires
        forall|i: int|
            0 <= i < rows.len() ==> !"- insert:"@.is_prefix_of((#[trigger] rows[i]).1)
                && !"insert:"@.is_prefix_of(rows[i].1),
    ensures
        insert_ids(rows + rest, None) == insert_ids(rest, None),
    decreases rows.len(),
{
    let all = rows + rest;
    if rows.len() == 0 {
        assert(all =~= rest);
    } else {
        assert(all[0] == rows[0]);
        assert(all.skip(1) =~= rows.skip(1) + rest);
        assert forall|i: int| 0 <= i < rows.skip(1).len() implies !"- insert:"@.is_prefix_of(
            (#[trigger] rows.skip(1)[i]).1,
        ) && !"insert:"@.is_prefix_of(rows.skip(1)[i].1) by {
            assert(rows.skip(1)[i] == rows[i + 1]);
        }
        law_rows_outside_blocks_give_no_ids(rows.skip(1), rest);
    }
}

proof fn lemma_scan_plain(v: Seq<char>, i: int, n: int)
    requires
        0 <= i <= n <= v.len(),
        forall|j: int|
            i <= j < n ==> (#[trigger] v[j]) != '\'' && v[j] != '"' && (v[j] == '#' ==> j > 0
                && !is_space(v[j - 1])),
    ensures
        comment_at(v, i, Scan::Plain) == comment_at(v, n, Scan::Plain),
    decreases n - i,
{
    if i < n {
        assert(!hash_at(v, i));
        assert(scan_next(Scan::Plain, v[i]) == Scan::Plain);
        lemma_scan_plain(v, i + 1, n);
    }
}

proof fn lemma_scan_quoted(v: Seq<char>, i: int, n: int, q: char)
    requires
        0 <= i <= n < v.len(),
        q == '\'' || q == '"',
        v[n] == q,
        forall|j: int| i <= j < n ==> (#[trigger] v[j]) != q && (q == '"' ==> v[j] != '\\'),
    ensures
        comment_at(v, i, if q == '"' { Scan::Double } else { Scan::Single }) == comment_at(
            v,
            n + 1,
            Scan::Plain,
        ),
    decreases n - i,
{
    if i < n {
        lemma_scan_quoted(v, i + 1, n, q);
    }
}

/// What may stand behind a value: white space, and behind white space a comment.
pub open spec fn follows_value(gap: Seq<char>, comment: Seq<char>) -> bool {
    all_stripped(gap, Strip::Space) && (comment.len() > 0 ==> gap.len() > 0 && comment[0] == '#')
}

proof fn lemma_scalar_end(w: Seq<char>, gap: Seq<char>, comment: Seq<char>)
    requires
        w.len() > 0,
        follows_value(gap, comment),
    ensures
        comment_at(w + gap + comment, w.len() as int, Scan::Plain) == w.len() + gap.len(),
{
    let v = w + gap + comment;
    let n = (w.len() + gap.len()) as int;
    assert forall|j: int| w.len() <= j < n implies (#[trigger] v[j]) != '\'' && v[j] != '"' && (
    v[j] == '#' ==> j > 0 && !is_space(v[j - 1])) by {
        assert(strips(Strip::Space, gap[j - w.len()]));
    }
    lemma_scan_plain(v, w.len() as int, n);
    if comment.len() > 0 {
        assert(v[n] == '#');
        assert(v[n - 1] == gap.last());
        assert(strips(Strip::Space, gap.last()));
        assert(hash_at(v, n));
    }
}

proof fn lemma_plain_scan(blanks: Seq<char>, w: Seq<char>, tail: Seq<char>)
    requires
        all_stripped(blanks, Strip::Space),
        w.len() > 0,
        w[0] != '#',
        forall|i: int|
            0 <= i < w.len() ==> (#[trigger] w[i]) != '\'' && w[i] != '"' && (w[i] == '#' ==> i > 0
                && !is_space(w[i - 1])),
    ensures
        comment_at(blanks + w + tail, 0, Scan::Plain) == comment_at(
            blanks + w + tail,
            (blanks.len() + w.len()) as int,
            Scan::Plain,
        ),
{
    let v = blanks + w + tail;
    let n = (blanks.len() + w.len()) as int;
    assert forall|j: int| 0 <= j < n implies (#[trigger] v[j]) != '\'' && v[j] != '"' && (v[j]
        == '#' ==> j > 0 && !is_space(v[j - 1])) by {
        if j < blanks.len() {
            assert(v[j] == blanks[j]);
            assert(strips(Strip::Space, blanks[j]));
        } else {
            let i = j - blanks.len();
            assert(v[j] == w[i]);
            if i > 0 {
                assert(v[j - 1] == w[i - 1]);
            }
        }
    }
    lemma_scan_plain(v, 0, n);
}

/// A value without quotation marks is read as it stands, without the white space round it and
/// without a comment behind it. A `#` in the middle of a word starts no comment.
pub proof fn law_plain_value_is_read(
    blanks: Seq<char>,
    w: Seq<char>,
    gap: Seq<char>,
    comment: Seq<char>,
)
    requires
        all_stripped(blanks, Strip::Space),
        follows_value(gap, comment),
        w.len() > 0,
        !is_space(w[0]) && !is_space(w.last()),
        w[0] != '#',
        forall|i: int|
            0 <= i < w.len() ==> (#[trigger] w[i]) != '\'' && w[i] != '"' && (w[i] == '#' ==> i > 0
                && !is_space(w[i - 1])),
    ensures
        scalar_of(blanks + w + (gap + comment)) == w,
        entry_id("- id:"@ + (blanks + w + (gap + comment))) == Some(w),
        says_disabled("disabled:"@ + (blanks + w + (gap + comment))) <==> lower_of(w) == "true"@
            || lower_of(w) == "yes"@ || lower_of(w) == "on"@,
{
    lemma_plain_scan(blanks, w, gap + comment);
    assert(!strips(Strip::Quote, w[0]) && !strips(Strip::Quote, w[w.len() - 1]));
    lemma_value_read(blanks, w, w, gap, comment);
}

proof fn lemma_value_read(
    blanks: Seq<char>,
    u: Seq<char>,
    w: Seq<char>,
    gap: Seq<char>,
    comment: Seq<char>,
)
    requires
        all_stripped(blanks, Strip::Space),
        follows_value(gap, comment),
        u.len() > 0,
        !is_space(u[0]) && !is_space(u.last()),
        w.len() > 0,
        !strips(Strip::Quote, w[0]) && !strips(Strip::Quote, w.last()),
        u == w || exists|q: char| strips(Strip::Quote, q) && u == #[trigger] (seq![q] + w + seq![q]),
        comment_at(blanks + u + (gap + comment), 0, Scan::Plain) == comment_at(
            blanks + u + (gap + comment),
            (blanks.len() + u.len()) as int,
            Scan::Plain,
        ),
    ensures
        scalar_of(blanks + u + (gap + comment)) == w,
        entry_id("- id:"@ + (blanks + u + (gap + comment))) == Some(w),
        says_disabled("disabled:"@ + (blanks + u + (gap + comment))) <==> lower_of(w) == "true"@
            || lower_of(w) == "yes"@ || lower_of(w) == "on"@,
{
    let v = blanks + u + (gap + comment);
    let h = blanks + u;
    assert(v =~= h + gap + comment);
    lemma_scalar_end(h, gap, comment);
    assert(v.take((h.len() + gap.len()) as int) =~= blanks + u + gap);
    law_strip_takes_off_what_stands_round(blanks, u, gap, Strip::Space);
    assert(drop_both(u, Strip::Quote) == w) by {
        if u == w {
            let none = Seq::<char>::empty();
            assert(none + w + none =~= w);
            law_strip_takes_off_what_stands_round(none, w, none, Strip::Quote);
        } else {
            let q = choose|q: char|
                strips(Strip::Quote, q) && u == #[trigger] (seq![q] + w + seq![q]);
            law_strip_takes_off_what_stands_round(seq![q], w, seq![q], Strip::Quote);
        }
    }
    lemma_behind_keys(v);
}

proof fn lemma_behind_keys(v: Seq<char>)
    ensures
        "- id:"@.is_prefix_of("- id:"@ + v),
        ("- id:"@ + v).skip("- id:"@.len() as int) == v,
        "disabled:"@.is_prefix_of("disabled:"@ + v),
        ("disabled:"@ + v).skip("disabled:"@.len() as int) == v,
{
    assert(("- id:"@ + v).subrange(0, "- id:"@.len() as int) =~= "- id:"@);
    assert(("- id:"@ + v).skip("- id:"@.len() as int) =~= v);
    assert(("disabled:"@ + v).subrange(0, "disabled:"@.len() as int) =~= "disabled:"@);
    assert(("disabled:"@ + v).skip("disabled:"@.len() as int) =~= v);
}

proof fn lemma_quoted_scan(blanks: Seq<char>, q: char, w: Seq<char>, tail: Seq<char>)
    requires
        all_stripped(blanks, Strip::Space),
        q == '\'' || q == '"',
        forall|i: int|
            0 <= i < w.len() ==> (#[trigger] w[i]) != q && (q == '"' ==> w[i] != '\\'),
    ensures
        comment_at(blanks + (seq![q] + w + seq![q]) + tail, 0, Scan::Plain) == comment_at(
            blanks + (seq![q] + w + seq![q]) + tail,
            (blanks.len() + w.len() + 2) as int,
            Scan::Plain,
        ),
{
    let v = blanks + (seq![q] + w + seq![q]) + tail;
    let b = blanks.len() as int;
    assert forall|j: int| 0 <= j < b implies (#[trigger] v[j]) != '\'' && v[j] != '"' && (v[j]
        == '#' ==> j > 0 && !is_space(v[j - 1])) by {
        assert(v[j] == blanks[j]);
        assert(strips(Strip::Space, blanks[j]));
    }
    lemma_scan_plain(v, 0, b);
    assert(v[b] == q);
    assert(!hash_at(v, b));
    let n = b + 1 + w.len();
    assert(v[n] == q);
    assert forall|j: int| b + 1 <= j < n implies (#[trigger] v[j]) != q && (q == '"' ==> v[j]
        != '\\') by {
        assert(v[j] == w[j - b - 1]);
    }
    lemma_scan_quoted(v, b + 1, n, q);
}

/// A value between quotation marks is read as what stands between them, a `#` included.
pub proof fn law_quoted_value_is_read(
    blanks: Seq<char>,
    q: char,
    w: Seq<char>,
    gap: Seq<char>,
    comment: Seq<char>,
)
    requires
        all_stripped(blanks, Strip::Space),
        follows_value(gap, comment),
        q == '\'' || q == '"',
        w.len() > 0,
        !strips(Strip::Quote, w[0]) && !strips(Strip::Quote, w.last()),
        forall|i: int|
            0 <= i < w.len() ==> (#[trigger] w[i]) != q && (q == '"' ==> w[i] != '\\'),
    ensures
        scalar_of(blanks + (seq![q] + w + seq![q]) + (gap + comment)) == w,
        entry_id("- id:"@ + (blanks + (seq![q] + w + seq![q]) + (gap + comment))) == Some(w),
        says_disabled("disabled:"@ + (blanks + (seq![q] + w + seq![q]) + (gap + comment)))
            <==> lower_of(w) == "true"@ || lower_of(w) == "yes"@ || lower_of(w) == "on"@,
{
    lemma_quoted_scan(blanks, q, w, gap + comment);
    let u = seq![q] + w + seq![q];
    assert(u[0] == q && u.last() == q);
    lemma_value_read(blanks, u, w, gap, comment);
}

/// Only a line `- id:` names an id, and only a line `disabled:` disables.
pub proof fn law_other_lines_say_neither(t: Seq<char>)
    ensures
        entry_id(t) is Some ==> "- id:"@.is_prefix_of(t) && entry_id(t)->0.len() > 0,
        says_disabled(t) ==> "disabled:"@.is_prefix_of(t),
{
}

/// A line is read by its text and its indentation, wherever it stands; blank lines and comment
/// lines are not read. The indentation is what stands before the text.
pub proof fn law_lines_are_read_one_by_one(
    a: Seq<Seq<char>>,
    blanks: Seq<char>,
    t: Seq<char>,
    gap: Seq<char>,
    b: Seq<Seq<char>>,
)
    requires
        all_stripped(blanks, Strip::Space),
        all_stripped(gap, Strip::Space),
        t.len() > 0 ==> !is_space(t[0]) && !is_space(t.last()),
    ensures
        rows_of(a + seq![blanks + t + gap] + b) == rows_of(a) + (if t.len() == 0 || t[0] == '#' {
            Seq::empty()
        } else {
            seq![(byte_len(blanks) as int, t)]
        }) + rows_of(b),
{
    let l = blanks + t + gap;
    lemma_rows_add(a + seq![l], b);
    lemma_rows_add(a, seq![l]);
    law_strip_takes_off_what_stands_round(blanks, t, gap, Strip::Space);
    let none = Seq::<Seq<char>>::empty();
    assert(seq![l].drop_last() =~= none);
    assert(rows_of(none) =~= Seq::empty());
    assert(rows_of(seq![l]) == if says(t) {
        rows_of(none).push((indent_of(l), t))
    } else {
        rows_of(none)
    });
    if says(t) {
        assert(t + gap =~= Seq::<char>::empty() + (t + gap) + Seq::<char>::empty());
        assert(l =~= blanks + (t + gap));
        assert((t + gap)[0] == t[0]);
        assert(drop_front(t + gap, Strip::Space) == t + gap);
        lemma_front_padded(blanks, t + gap, Strip::Space);
        lemma_byte_len_add(blanks, t + gap);
        assert(rows_of(seq![l]) =~= seq![(byte_len(blanks) as int, t)]);
    } else {
        assert(rows_of(a) + Seq::<(int, Seq<char>)>::empty() =~= rows_of(a));
    }
}

/// Whether a row starts a list item that is indented no deeper than `k`.
pub open spec fn next_item(row: (int, Seq<char>), k: int) -> bool {
    row.1.len() > 0 && row.1[0] == '-' && row.0 <= k
}

/// Whether one of the rows disables.
pub open spec fn some_disables(rows: Seq<(int, Seq<char>)>) -> bool {
    exists|i: int| 0 <= i < rows.len() && says_disabled((#[trigger] rows[i]).1)
}

proof fn lemma_dash(t: Seq<char>)
    ensures
        "-"@.is_prefix_of(t) <==> t.len() > 0 && t[0] == '-',
{
    reveal_strlit("-");
    if t.len() > 0 && t[0] == '-' {
        assert(t.subrange(0, 1) =~= "-"@);
    }
    if "-"@.is_prefix_of(t) {
        assert("-"@[0] == t.subrange(0, 1)[0]);
    }
}

proof fn lemma_block(
    a: Seq<(int, Seq<char>)>,
    body: Seq<(int, Seq<char>)>,
    rest: Seq<(int, Seq<char>)>,
    k: int,
    j: int,
)
    requires
        0 <= j <= body.len(),
        forall|i: int| 0 <= i < body.len() ==> !next_item(#[trigger] body[i], k),
        rest.len() > 0 ==> next_item(rest[0], k),
    ensures
        block_off(a + body + rest, a.len() + j, k) <==> some_disables(body.skip(j)),
    decreases body.len() - j,
{
    let all = a + body + rest;
    let n = a.len() + j;
    let here = body.skip(j);
    if j == body.len() {
        assert(!some_disables(here));
        if rest.len() > 0 {
            assert(all[n] == rest[0]);
            lemma_dash(rest[0].1);
        }
    } else {
        assert(all[n] == body[j]);
        lemma_dash(body[j].1);
        lemma_block(a, body, rest, k, j + 1);
        let next = body.skip(j + 1);
        assert(here[0] == body[j]);
        if some_disables(next) {
            let i = choose|i: int| 0 <= i < next.len() && says_disabled((#[trigger] next[i]).1);
            assert(here[i + 1] == next[i]);
        }
        if some_disables(here) {
            let i = choose|i: int| 0 <= i < here.len() && says_disabled((#[trigger] here[i]).1);
            if i > 0 {
                assert(next[i - 1] == here[i]);
            }
        }
    }
}

proof fn lemma_last_off_is(rows: Seq<(int, Seq<char>)>, p: int, n: int, id: Seq<char>)
    requires
        0 <= p < n <= rows.len(),
        entry_at(rows, p) == Some(id),
        forall|i: int| p < i < n ==> entry_id((#[trigger] rows[i]).1) != Some(id),
    ensures
        last_off(rows, n, id) == off_at(rows, p),
    decreases n,
{
    if n - 1 > p {
        assert(entry_id(rows[n - 1].1) != Some(id));
        lemma_last_off_is(rows, p, n - 1, id);
    }
}

proof fn lemma_unnamed_is_on(rows: Seq<(int, Seq<char>)>, n: int, id: Seq<char>)
    requires
        n <= rows.len(),
        forall|i: int| 0 <= i < rows.len() ==> entry_id((#[trigger] rows[i]).1) != Some(id),
    ensures
        !last_off(rows, n, id),
    decreases n,
{
    if n > 0 {
        assert(entry_id(rows[n - 1].1) != Some(id));
        lemma_unnamed_is_on(rows, n - 1, id);
    }
}

/// An entry reaches up to the next list item that is indented no deeper. Where no later entry
/// names the same id, the id is disabled if and only if one of the rows of the entry disables,
/// whatever other rows stand between them and whatever stands before the entry.
pub proof fn law_entry_disables_by_its_rows(
    a: Seq<(int, Seq<char>)>,
    k: int,
    head: Seq<char>,
    body: Seq<(int, Seq<char>)>,
    rest: Seq<(int, Seq<char>)>,
    id: Seq<char>,
)
    requires
        entry_id(head) == Some(id),
        forall|i: int|
            0 <= i < body.len() ==> !next_item(#[trigger] body[i], k) && entry_id(body[i].1)
                != Some(id),
        rest.len() > 0 ==> next_item(rest[0], k),
        forall|i: int| 0 <= i < rest.len() ==> entry_id((#[trigger] rest[i]).1) != Some(id),
    ensures
        disabled_ids(a + seq![(k, head)] + body + rest).contains(id) <==> some_disables(body),
{
    let h = a + seq![(k, head)];
    let rows = h + body + rest;
    let p = a.len() as int;
    assert(rows[p] == (k, head));
    assert forall|i: int| p < i < rows.len() implies entry_id((#[trigger] rows[i]).1) != Some(
        id,
    ) by {
        if i < h.len() + body.len() {
            assert(rows[i] == body[i - h.len()]);
        } else {
            assert(rows[i] == rest[i - h.len() - body.len()]);
        }
    }
    lemma_last_off_is(rows, p, rows.len() as int, id);
    lemma_block(h, body, rest, k, 0);
    assert(body.skip(0) =~= body);
    law_last_entry_decides(rows, id);
}

/// An id that no row names is not disabled.
pub proof fn law_unnamed_ids_are_not_disabled(rows: Seq<(int, Seq<char>)>, id: Seq<char>)
    requires
        forall|i: int| 0 <= i < rows.len() ==> entry_id((#[trigger] rows[i]).1) != Some(id),
    ensures
        !disabled_ids(rows).contains(id),
{
    lemma_unnamed_is_on(rows, rows.len() as int, id);
    law_last_entry_decides(rows, id);
}

/// Taking out the launcher's blocks takes out the marker with the two lines of its block, or a
/// marker alone that has lost its block, and leaves every line before it; what stands behind is
/// treated as if it stood alone. Without a marker every line stays.
pub proof fn law_only_own_blocks_are_taken_out(
    a: Seq<Seq<char>>,
    mark: Seq<char>,
    block: Seq<Seq<char>>,
    b: Seq<Seq<char>>,
    m: Seq<char>,
)
    requires
        forall|j: int| 0 <= j < a.len() ==> trim_of(#[trigger] a[j]) != m,
        trim_of(mark) == m,
        block.len() == 2,
        entry_id(trim_of(block[0])) is Some,
        says_disabled(trim_of(block[1])),
    ensures
        kept(a + (seq![mark] + block + b), m) == a + kept(b, m),
        !(b.len() >= 2 && entry_id(trim_of(b[0])) is Some && says_disabled(trim_of(b[1])))
            ==> kept(a + (seq![mark] + b), m) == a + kept(b, m),
        kept(a, m) == a,
{
    let whole = seq![mark] + block + b;
    assert(!marked(a, m));
    lemma_kept_behind_unmarked(a, whole, 0, m);
    lemma_kept_shift(seq![mark] + block, b, 0, m);
    assert(whole[0] == mark && whole[1] == block[0] && whole[2] == block[1]);
    assert(own_block(whole, 0));
    assert(a.skip(0) =~= a);
    let lone = seq![mark] + b;
    lemma_kept_behind_unmarked(a, lone, 0, m);
    lemma_kept_shift(seq![mark], b, 0, m);
    assert(lone[0] == mark);
    if b.len() >= 2 {
        assert(lone[1] == b[0] && lone[2] == b[1]);
    }
    let none = Seq::<Seq<char>>::empty();
    lemma_kept_behind_unmarked(a, none, 0, m);
    assert(a + none =~= a);
}

proof fn lemma_named_upto(rows: Seq<(int, Seq<char>)>, n: int, id: Seq<char>)
    ensures
        ids_upto(rows, n).contains(id) <==> exists|p: int|
            0 <= p < n && #[trigger] entry_at(rows, p) == Some(id),
    decreases n,
{
    if n > 0 {
        lemma_named_upto(rows, n - 1, id);
        let before = ids_upto(rows, n - 1);
        let now = ids_upto(rows, n);
        if before.contains(id) {
            let k = choose|k: int| 0 <= k < before.len() && before[k] == id;
            assert(now[k] == id);
        }
        if now.contains(id) && !before.contains(id) {
            let k = choose|k: int| 0 <= k < now.len() && now[k] == id;
            if k < before.len() {
                assert(before[k] == id);
            }
            assert(entry_at(rows, n - 1) == Some(id));
        }
        if entry_at(rows, n - 1) == Some(id) && !before.contains(id) {
            assert(now[before.len() as int] == id);
        }
        if exists|p: int| 0 <= p < n && #[trigger] entry_at(rows, p) == Some(id) {
            let p = choose|p: int| 0 <= p < n && #[trigger] entry_at(rows, p) == Some(id);
            if p < n - 1 {
                assert(before.contains(id));
            }
        }
    } else {
        assert(!ids_upto(rows, n).contains(id));
    }
}

/// Whether a row names `a` before any row names `b`.
pub open spec fn named_first(rows: Seq<(int, Seq<char>)>, a: Seq<char>, b: Seq<char>) -> bool {
    exists|p: int|
        0 <= p < rows.len() && entry_id((#[trigger] rows[p]).1) == Some(a) && forall|q: int|
            0 <= q <= p ==> entry_id((#[trigger] rows[q]).1) != Some(b)
}

proof fn lemma_ids_in_order(rows: Seq<(int, Seq<char>)>, n: int, i: int, j: int)
    requires
        n <= rows.len(),
        0 <= i < j < ids_upto(rows, n).len(),
    ensures
        named_first(rows, ids_upto(rows, n)[i], ids_upto(rows, n)[j]),
    decreases n,
{
    if n > 0 {
        let before = ids_upto(rows, n - 1);
        let now = ids_upto(rows, n);
        if j < before.len() {
            lemma_ids_in_order(rows, n - 1, i, j);
            assert(now[i] == before[i] && now[j] == before[j]);
        } else {
            let x = now[j];
            assert(now == before.push(x) && !before.contains(x));
            assert(now[i] == before[i]);
            assert(before.contains(before[i]));
            lemma_named_upto(rows, n - 1, before[i]);
            lemma_named_upto(rows, n - 1, x);
            let p = choose|p: int| 0 <= p < n - 1 && #[trigger] entry_at(rows, p) == Some(before[i]);
            assert(entry_id(rows[p].1) == Some(now[i]));
            assert forall|q: int| 0 <= q <= p implies entry_id((#[trigger] rows[q]).1) != Some(x) by {
                assert(entry_at(rows, q) != Some(x));
            }
        }
    }
}

proof fn lemma_off_part(
    rows: Seq<(int, Seq<char>)>,
    ids: Seq<Seq<char>>,
    i: int,
    j: int,
) -> (r: (int, int))
    requires
        0 <= i < j < still_off(rows, ids).len(),
    ensures
        0 <= r.0 < r.1 < ids.len(),
        ids[r.0] == still_off(rows, ids)[i],
        ids[r.1] == still_off(rows, ids)[j],
    decreases ids.len(),
{
    let d = ids.drop_last();
    let before = still_off(rows, d);
    if j < before.len() {
        let r = lemma_off_part(rows, d, i, j);
        assert(ids[r.0] == d[r.0] && ids[r.1] == d[r.1]);
        r
    } else {
        let a = lemma_off_place(rows, d, i);
        assert(ids[a] == d[a]);
        (a, ids.len() - 1)
    }
}

proof fn lemma_off_place(rows: Seq<(int, Seq<char>)>, ids: Seq<Seq<char>>, i: int) -> (a: int)
    requires
        0 <= i < still_off(rows, ids).len(),
    ensures
        0 <= a < ids.len(),
        ids[a] == still_off(rows, ids)[i],
    decreases ids.len(),
{
    let d = ids.drop_last();
    if i < still_off(rows, d).len() {
        let a = lemma_off_place(rows, d, i);
        assert(ids[a] == d[a]);
        a
    } else {
        ids.len() - 1
    }
}

/// The disabled ids come in the order in which the file first names them.
pub proof fn law_disabled_ids_come_in_order(rows: Seq<(int, Seq<char>)>, i: int, j: int)
    requires
        0 <= i < j < disabled_ids(rows).len(),
    ensures
        named_first(rows, disabled_ids(rows)[i], disabled_ids(rows)[j]),
{
    let ids = ids_upto(rows, rows.len() as int);
    let r = lemma_off_part(rows, ids, i, j);
    lemma_ids_in_order(rows, rows.len() as int, r.0, r.1);
}

} // verus!
