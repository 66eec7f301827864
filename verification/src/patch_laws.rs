//! What holds of reading and writing patch files together.

use crate::patch::{
    base_of, block_off, blocks_of, comments_of, disabled_ids, disabled_lines, enabled_lines,
    entry_at, entry_id, gap_of, id_line, ids_upto, insert_ids, kept, kept_from, last_off,
    lemma_ids_unique, managed, marked, marker_of, marks_from, missing_of, needed_of, no_entries,
    opens_insert, own_block, rows_of, says, says_disabled, scan_next, settled, still_off, text_of,
    comment_at, Scan,
};
use crate::text::{
    drop_back, drop_front, find_char, indent_of, is_space, join_of, lines_of, lower_of, strips,
    trim_of, without_cr, Strip,
};
use crate::text_laws::{
    lemma_join_front, lemma_lines_cons, lemma_lines_no_feeds, lemma_lines_of_join_feed,
    lemma_trim_part, lemma_trim_without_cr, lemma_untrimmed, no_feeds, without_crs,
};
use vstd::prelude::*;

verus! {

/// The rows of two lists of lines in a row.
pub proof fn lemma_rows_add(a: Seq<Seq<char>>, b: Seq<Seq<char>>)
    ensures
        rows_of(a + b) == rows_of(a) + rows_of(b),
    decreases b.len(),
{
    if b.len() == 0 {
        assert(a + b =~= a);
        assert(rows_of(a) + rows_of(b) =~= rows_of(a));
    } else {
        assert((a + b).drop_last() =~= a + b.drop_last());
        assert((a + b).last() == b.last());
        lemma_rows_add(a, b.drop_last());
        assert(rows_of(a + b) =~= rows_of(a) + rows_of(b));
    }
}

proof fn lemma_rows_one(l: Seq<char>)
    ensures
        rows_of(seq![l]) == (if says(trim_of(l)) {
            seq![(indent_of(l), trim_of(l))]
        } else {
            Seq::empty()
        }),
        rows_of(seq![without_cr(l)]) == rows_of(seq![l]),
{
    assert(seq![l].drop_last() =~= Seq::empty());
    assert(rows_of(seq![l].drop_last()) =~= Seq::empty());
    assert(seq![without_cr(l)].drop_last() =~= Seq::empty());
    lemma_trim_without_cr(l);
    assert(Seq::<(int, Seq<char>)>::empty().push((indent_of(l), trim_of(l))) =~= seq![
        (indent_of(l), trim_of(l)),
    ]);
}

proof fn lemma_rows_cons(ls: Seq<Seq<char>>)
    requires
        ls.len() > 0,
    ensures
        rows_of(ls) == rows_of(seq![ls[0]]) + rows_of(ls.skip(1)),
{
    lemma_rows_add(seq![ls[0]], ls.skip(1));
    assert(seq![ls[0]] + ls.skip(1) =~= ls);
}

proof fn lemma_rows_without_crs(ls: Seq<Seq<char>>)
    ensures
        rows_of(without_crs(ls)) == rows_of(ls),
    decreases ls.len(),
{
    if ls.len() > 0 {
        lemma_rows_without_crs(ls.drop_last());
        assert(without_crs(ls).drop_last() =~= without_crs(ls.drop_last()));
        lemma_trim_without_cr(ls.last());
    }
}

proof fn lemma_rest_no_feeds(ls: Seq<Seq<char>>)
    requires
        no_feeds(ls),
        ls.len() > 0,
    ensures
        no_feeds(ls.skip(1)),
        !ls[0].contains('\n'),
{
    assert forall|i: int| 0 <= i < ls.skip(1).len() implies !(#[trigger] ls.skip(1)[i]).contains(
        '\n',
    ) by {
        assert(ls.skip(1)[i] == ls[i + 1]);
    }
}

proof fn lemma_rows_of_join(ls: Seq<Seq<char>>)
    requires
        no_feeds(ls),
    ensures
        rows_of(lines_of(join_of(ls, "\n"@))) == rows_of(ls),
    decreases ls.len(),
{
    if ls.len() == 0 {
        assert(lines_of(join_of(ls, "\n"@)) =~= ls);
    } else if ls.len() == 1 {
        let l = ls[0];
        assert(!l.contains('\n'));
        crate::text::lemma_find_char(l, '\n');
        assert(ls =~= seq![l]);
        lemma_rows_one(l);
    } else {
        lemma_rest_no_feeds(ls);
        let rest = ls.skip(1);
        lemma_join_front(ls, "\n"@);
        lemma_rows_of_join(rest);
        let t = join_of(rest, "\n"@);
        lemma_lines_cons(ls[0], t);
        lemma_rows_add(seq![without_cr(ls[0])], lines_of(t));
        lemma_rows_one(ls[0]);
        lemma_rows_cons(ls);
    }
}

/// A text written from lines says what the lines say.
pub proof fn lemma_rows_of_text(ls: Seq<Seq<char>>)
    requires
        no_feeds(ls),
    ensures
        rows_of(lines_of(text_of(ls))) == rows_of(ls),
{
    let t = join_of(ls, "\n"@);
    if "\n"@.is_suffix_of(t) {
        lemma_rows_of_join(ls);
    } else if ls.len() == 0 {
        lemma_lines_cons(Seq::empty(), Seq::empty());
        assert(Seq::<char>::empty() + "\n"@ + Seq::<char>::empty() =~= t + "\n"@);
        lemma_rows_one(Seq::empty());
        assert(seq![Seq::<char>::empty()] + Seq::<Seq<char>>::empty() =~= seq![
            Seq::<char>::empty(),
        ]);
    } else {
        lemma_lines_of_join_feed(ls);
        lemma_rows_without_crs(ls);
    }
}

/// Whether the line that the launcher writes for `id` is read as the start of an entry.
pub open spec fn starts_entry(id: Seq<char>) -> bool {
    entry_id(trim_of(id_line(id))) is Some
}

/// Whether the line that the launcher writes for `id` is read back as `id`.
pub open spec fn reads_back(id: Seq<char>) -> bool {
    entry_id(trim_of(id_line(id))) == Some(id) && !id.contains('\n')
}

/// Whether an id needs no quotation marks: it neither starts nor ends with a blank or a quotation
/// mark, and holds no `#`.
pub open spec fn bare_id(id: Seq<char>) -> bool {
    &&& id.len() > 0
    &&& !is_space(id[0]) && !is_space(id.last())
    &&& !strips(Strip::Quote, id[0]) && !strips(Strip::Quote, id.last())
    &&& !id.contains('#') && !id.contains('\n')
}

proof fn lemma_no_comment(v: Seq<char>, i: int, st: Scan)
    requires
        !v.contains('#'),
        0 <= i <= v.len(),
    ensures
        comment_at(v, i, st) == v.len(),
    decreases v.len() - i,
{
    if i < v.len() {
        assert(v[i] != '#');
        lemma_no_comment(v, i + 1, scan_next(st, v[i]));
    }
}

/// The line that the launcher writes for a bare id is read back as that id.
pub proof fn law_bare_ids_read_back(id: Seq<char>)
    requires
        bare_id(id),
    ensures
        reads_back(id),
        starts_entry(id),
{
    reveal_strlit("- id: ");
    reveal_strlit("- id:");
    let l = id_line(id);
    assert(l[0] == '-');
    assert(l.last() == id.last());
    lemma_untrimmed(l, Strip::Space);
    assert(l.subrange(0, 5) =~= "- id:"@);
    let v = l.skip(5);
    assert(v =~= seq![' '] + id);
    assert(!v.contains('#')) by {
        if v.contains('#') {
            let i = choose|i: int| 0 <= i < v.len() && v[i] == '#';
            assert(id[i - 1] == '#');
        }
    }
    lemma_no_comment(v, 0, Scan::Plain);
    assert(v.take(v.len() as int) =~= v);
    assert(v.skip(1) =~= id);
    assert(drop_front(v, Strip::Space) == drop_front(id, Strip::Space));
    lemma_untrimmed(id, Strip::Space);
    lemma_untrimmed(id, Strip::Quote);
}

proof fn lemma_marker(name: Seq<char>)
    ensures
        trim_of(marker_of(name)) == marker_of(name),
        marker_of(name).len() > 0,
        marker_of(name)[0] == '#',
        !name.contains('\n') ==> !marker_of(name).contains('\n'),
        name.contains('\n') ==> marker_of(name).contains('\n'),
{
    reveal_strlit("# --- 由 DSH 启动器管理：禁用 ");
    reveal_strlit(" ---");
    let a = "# --- 由 DSH 启动器管理：禁用 "@;
    let b = " ---"@;
    let m = marker_of(name);
    assert(m[0] == a[0]);
    assert(m.last() == b.last());
    lemma_untrimmed(m, Strip::Space);
    if name.contains('\n') {
        let i = choose|i: int| 0 <= i < name.len() && name[i] == '\n';
        assert(m[a.len() + i] == '\n');
    } else if m.contains('\n') {
        let i = choose|i: int| 0 <= i < m.len() && m[i] == '\n';
        if i < a.len() {
            assert(a[i] == '\n');
        } else if i < a.len() + name.len() {
            assert(name[i - a.len()] == '\n');
        } else {
            assert(b[i - a.len() - name.len()] == '\n');
        }
    }
}

proof fn lemma_disabled_line()
    ensures
        trim_of("  disabled: true"@) == "disabled: true"@,
        says_disabled("disabled: true"@),
        says("disabled: true"@),
        entry_id("disabled: true"@) is None,
        !"-"@.is_prefix_of("disabled: true"@),
        !"  disabled: true"@.contains('\n'),
{
    reveal_strlit("  disabled: true");
    reveal_strlit("disabled: true");
    reveal_strlit("disabled:");
    reveal_strlit("- id:");
    reveal_strlit("-");
    reveal_strlit("true");
    let l = "  disabled: true"@;
    let t = "disabled: true"@;
    assert(l.skip(1).skip(1) =~= t);
    assert(l[0] == ' ' && l.skip(1)[0] == ' ');
    assert(drop_front(l, Strip::Space) == drop_front(l.skip(1), Strip::Space));
    assert(drop_front(l.skip(1), Strip::Space) == drop_front(t, Strip::Space));
    lemma_untrimmed(t, Strip::Space);
    assert(t.subrange(0, 9) =~= "disabled:"@);
    let rest = t.skip(9);
    assert(rest =~= seq![' ', 't', 'r', 'u', 'e']);
    assert(comment_at(rest, 5, Scan::Plain) == 5);
    assert(comment_at(rest, 4, Scan::Plain) == 5);
    assert(comment_at(rest, 3, Scan::Plain) == 5);
    assert(comment_at(rest, 2, Scan::Plain) == 5);
    assert(comment_at(rest, 1, Scan::Plain) == 5);
    assert(comment_at(rest, 0, Scan::Plain) == 5);
    assert(rest.take(5) =~= rest);
    let v = "true"@;
    assert(rest.skip(1) =~= v);
    assert(drop_front(rest, Strip::Space) == drop_front(v, Strip::Space));
    lemma_untrimmed(v, Strip::Space);
    lemma_untrimmed(v, Strip::Quote);
    assert(lower_of(v) =~= v);
    assert(t[0] == 'd' && "- id:"@[0] == '-' && "-"@[0] == '-');
    if "- id:"@.is_prefix_of(t) {
        assert(t.subrange(0, 5)[0] == "- id:"@[0]);
    }
    if "-"@.is_prefix_of(t) {
        assert(t.subrange(0, 1)[0] == "-"@[0]);
    }
    if l.contains('\n') {
        let i = choose|i: int| 0 <= i < l.len() && l[i] == '\n';
        assert(false);
    }
}

proof fn lemma_id_line(id: Seq<char>)
    requires
        !id.contains('\n'),
    ensures
        !id_line(id).contains('\n'),
        indent_of(id_line(id)) == 0,
        "- id:"@.is_prefix_of(trim_of(id_line(id))),
        trim_of(id_line(id))[0] == '-',
        says(trim_of(id_line(id))),
{
    reveal_strlit("- id: ");
    let p = "- id: "@;
    let l = id_line(id);
    assert(l[0] == p[0]);
    assert(drop_front(l, Strip::Space) == l);
    let t = trim_of(l);
    reveal_strlit("- id:");
    lemma_drop_back_keeps(l, 5);
    assert(t.take(5) =~= "- id:"@);
    assert(t.take(5)[0] == t[0]);
    assert(t.subrange(0, 5) =~= t.take(5));
    if l.contains('\n') {
        let i = choose|i: int| 0 <= i < l.len() && l[i] == '\n';
        if i < p.len() {
            assert(p[i] == '\n');
        } else {
            assert(id[i - p.len()] == '\n');
        }
    }
}

proof fn lemma_drop_back_keeps(l: Seq<char>, n: int)
    requires
        0 < n <= l.len(),
        !is_space(l[n - 1]),
    ensures
        drop_back(l, Strip::Space).len() >= n,
        drop_back(l, Strip::Space).take(n) == l.take(n),
    decreases l.len(),
{
    if is_space(l.last()) {
        let d = l.drop_last();
        assert(n <= d.len());
        assert(d[n - 1] == l[n - 1]);
        lemma_drop_back_keeps(d, n);
        assert(d.take(n) =~= l.take(n));
    }
}

proof fn lemma_block_off_grows(r: Seq<(int, Seq<char>)>, more: Seq<(int, Seq<char>)>, j: int, b: int)
    requires
        0 <= j,
        block_off(r, j, b),
    ensures
        block_off(r + more, j, b),
    decreases r.len() - j,
{
    if j < r.len() {
        assert((r + more)[j] == r[j]);
        if !says_disabled(r[j].1) {
            lemma_block_off_grows(r, more, j + 1, b);
        }
    }
}

proof fn lemma_last_off_grows(
    r: Seq<(int, Seq<char>)>,
    more: Seq<(int, Seq<char>)>,
    n: int,
    id: Seq<char>,
)
    requires
        n <= r.len(),
        last_off(r, n, id),
    ensures
        last_off(r + more, n, id),
    decreases n,
{
    if n > 0 {
        assert((r + more)[n - 1] == r[n - 1]);
        if entry_at(r, n - 1) == Some(id) {
            lemma_block_off_grows(r, more, n, r[n - 1].0);
        } else {
            lemma_last_off_grows(r, more, n - 1, id);
        }
    }
}

proof fn lemma_last_off_named(r: Seq<(int, Seq<char>)>, n: int, id: Seq<char>)
    requires
        last_off(r, n, id),
    ensures
        ids_upto(r, n).contains(id),
    decreases n,
{
    if n > 0 {
        let before = ids_upto(r, n - 1);
        if entry_at(r, n - 1) == Some(id) {
            if !before.contains(id) {
                assert(before.push(id)[before.len() as int] == id);
            }
        } else {
            lemma_last_off_named(r, n - 1, id);
            let k = choose|k: int| 0 <= k < before.len() && before[k] == id;
            match entry_at(r, n - 1) {
                Some(x) => {
                    if !before.contains(x) {
                        assert(before.push(x)[k] == id);
                    }
                },
                None => {},
            }
        }
    }
}

proof fn lemma_still_off(r: Seq<(int, Seq<char>)>, ids: Seq<Seq<char>>, id: Seq<char>)
    ensures
        still_off(r, ids).contains(id) <==> ids.contains(id) && last_off(r, r.len() as int, id),
    decreases ids.len(),
{
    if ids.len() > 0 {
        let d = ids.drop_last();
        lemma_still_off(r, d, id);
        let before = still_off(r, d);
        let now = still_off(r, ids);
        if d.contains(id) {
            let k = choose|k: int| 0 <= k < d.len() && d[k] == id;
            assert(ids[k] == id);
        }
        if ids.contains(id) && id != ids.last() {
            let k = choose|k: int| 0 <= k < ids.len() && ids[k] == id;
            assert(d[k] == id);
        }
        if before.contains(id) {
            let k = choose|k: int| 0 <= k < before.len() && before[k] == id;
            assert(now[k] == id);
        }
        if now.contains(id) && !before.contains(id) {
            let k = choose|k: int| 0 <= k < now.len() && now[k] == id;
            if k < before.len() {
                assert(before[k] == id);
            }
            assert(id == ids.last());
        }
        if id == ids.last() && last_off(r, r.len() as int, id) {
            assert(now[before.len() as int] == id);
        }
        assert(ids[ids.len() - 1] == ids.last());
    }
}

/// An id is disabled exactly where its last entry is.
pub proof fn law_last_entry_decides(r: Seq<(int, Seq<char>)>, id: Seq<char>)
    ensures
        disabled_ids(r).contains(id) <==> last_off(r, r.len() as int, id),
{
    lemma_still_off(r, ids_upto(r, r.len() as int), id);
    if last_off(r, r.len() as int, id) {
        lemma_last_off_named(r, r.len() as int, id);
    }
}

proof fn lemma_still_off_once(r: Seq<(int, Seq<char>)>, ids: Seq<Seq<char>>)
    requires
        forall|a: int, b: int| 0 <= a < b < ids.len() ==> ids[a] != ids[b],
    ensures
        still_off(r, ids).no_duplicates(),
    decreases ids.len(),
{
    if ids.len() > 0 {
        let d = ids.drop_last();
        assert forall|a: int, b: int| 0 <= a < b < d.len() implies d[a] != d[b] by {
            assert(ids[a] != ids[b]);
        }
        lemma_still_off_once(r, d);
        lemma_still_off(r, d, ids.last());
        let before = still_off(r, d);
        assert(!before.contains(ids.last())) by {
            if d.contains(ids.last()) {
                let k = choose|k: int| 0 <= k < d.len() && d[k] == ids.last();
                assert(ids[k] != ids[ids.len() - 1]);
            }
        }
        let now = still_off(r, ids);
        assert forall|a: int, b: int| 0 <= a < now.len() && 0 <= b < now.len() && a
            != b implies now[a] != now[b] by {
            if a < before.len() {
                assert(before.contains(before[a]));
            }
            if b < before.len() {
                assert(before.contains(before[b]));
            }
        }
    }
}

/// A disabled id is listed once.
pub proof fn law_disabled_ids_are_listed_once(content: Seq<char>)
    ensures
        off_ids(content).no_duplicates(),
{
    let r = rows_of(lines_of(content));
    lemma_ids_unique(r, r.len() as int);
    lemma_still_off_once(r, ids_upto(r, r.len() as int));
}

/// The rows of two texts with a line feed between them.
proof fn lemma_rows_of_texts(c: Seq<char>, rest: Seq<char>)
    ensures
        rows_of(lines_of(c + "\n"@ + rest)) == rows_of(lines_of(c)) + rows_of(lines_of(rest)),
    decreases c.len(),
{
    reveal_strlit("\n");
    crate::text::lemma_find_char(c, '\n');
    let n = find_char(c, '\n');
    if n < c.len() {
        let a = c.take(n);
        let d = c.skip(n + 1);
        assert(!a.contains('\n')) by {
            if a.contains('\n') {
                let i = choose|i: int| 0 <= i < a.len() && a[i] == '\n';
                assert(c[i] == '\n');
            }
        }
        assert(c =~= a + "\n"@ + d);
        assert(c + "\n"@ + rest =~= a + "\n"@ + (d + "\n"@ + rest));
        lemma_lines_cons(a, d);
        lemma_lines_cons(a, d + "\n"@ + rest);
        lemma_rows_of_texts(d, rest);
        let l = seq![without_cr(a)];
        lemma_rows_add(l, lines_of(d));
        lemma_rows_add(l, lines_of(d + "\n"@ + rest));
        assert(rows_of(l) + (rows_of(lines_of(d)) + rows_of(lines_of(rest))) =~= rows_of(l)
            + rows_of(lines_of(d)) + rows_of(lines_of(rest)));
    } else {
        assert(!c.contains('\n')) by {
            if c.contains('\n') {
                let i = choose|i: int| 0 <= i < c.len() && c[i] == '\n';
            }
        }
        lemma_lines_cons(c, rest);
        lemma_rows_add(seq![without_cr(c)], lines_of(rest));
        lemma_rows_one(c);
        if c.len() == 0 {
            assert(lines_of(c) =~= Seq::empty());
            assert(rows_of(lines_of(c)) =~= rows_of(seq![c]));
        } else {
            assert(lines_of(c) =~= seq![c]);
        }
    }
}

proof fn lemma_enabled_line()
    ensures
        trim_of("  disabled: false"@) == "disabled: false"@,
        !says_disabled("disabled: false"@),
        says("disabled: false"@),
        entry_id("disabled: false"@) is None,
        !"-"@.is_prefix_of("disabled: false"@),
        !"  disabled: false"@.contains('\n'),
{
    reveal_strlit("  disabled: false");
    reveal_strlit("disabled: false");
    reveal_strlit("disabled:");
    reveal_strlit("- id:");
    reveal_strlit("-");
    reveal_strlit("true");
    reveal_strlit("yes");
    reveal_strlit("on");
    let l = "  disabled: false"@;
    let t = "disabled: false"@;
    assert(l.skip(1).skip(1) =~= t);
    assert(l[0] == ' ' && l.skip(1)[0] == ' ');
    assert(drop_front(l, Strip::Space) == drop_front(l.skip(1), Strip::Space));
    assert(drop_front(l.skip(1), Strip::Space) == drop_front(t, Strip::Space));
    lemma_untrimmed(t, Strip::Space);
    assert(t.subrange(0, 9) =~= "disabled:"@);
    let rest = t.skip(9);
    let v = seq!['f', 'a', 'l', 's', 'e'];
    assert(rest =~= seq![' '] + v);
    assert(comment_at(rest, 6, Scan::Plain) == 6);
    assert(comment_at(rest, 5, Scan::Plain) == 6);
    assert(comment_at(rest, 4, Scan::Plain) == 6);
    assert(comment_at(rest, 3, Scan::Plain) == 6);
    assert(comment_at(rest, 2, Scan::Plain) == 6);
    assert(comment_at(rest, 1, Scan::Plain) == 6);
    assert(comment_at(rest, 0, Scan::Plain) == 6);
    assert(rest.take(6) =~= rest);
    assert(rest.skip(1) =~= v);
    assert(drop_front(rest, Strip::Space) == drop_front(v, Strip::Space));
    lemma_untrimmed(v, Strip::Space);
    lemma_untrimmed(v, Strip::Quote);
    assert(lower_of(v).len() == 5);
    assert(t[0] == 'd' && "- id:"@[0] == '-' && "-"@[0] == '-');
    if "- id:"@.is_prefix_of(t) {
        assert(t.subrange(0, 5)[0] == "- id:"@[0]);
    }
    if "-"@.is_prefix_of(t) {
        assert(t.subrange(0, 1)[0] == "-"@[0]);
    }
    if l.contains('\n') {
        let i = choose|i: int| 0 <= i < l.len() && l[i] == '\n';
        assert(false);
    }
}

/// A text with an entry for `id` behind it that is disabled or not.
pub open spec fn with_entry(content: Seq<char>, id: Seq<char>, off: bool) -> Seq<char> {
    content + "\n"@ + id_line(id) + "\n"@ + (if off {
        "  disabled: true"@
    } else {
        "  disabled: false"@
    }) + "\n"@
}

proof fn lemma_entry_rows(content: Seq<char>, id: Seq<char>, off: bool)
    requires
        reads_back(id),
    ensures
        ({
            let r = rows_of(lines_of(content));
            let all = rows_of(lines_of(with_entry(content, id, off)));
            let n = r.len() as int;
            &&& all.len() == n + 2
            &&& all.take(n) == r
            &&& all[n].0 == 0
            &&& "-"@.is_prefix_of(all[n].1)
            &&& entry_at(all, n) == Some(id)
            &&& entry_at(all, n + 1) is None
            &&& !"-"@.is_prefix_of(all[n + 1].1)
            &&& says_disabled(all[n + 1].1) == off
        }),
{
    let d = if off {
        "  disabled: true"@
    } else {
        "  disabled: false"@
    };
    let l = id_line(id);
    let r = rows_of(lines_of(content));
    lemma_disabled_line();
    lemma_enabled_line();
    lemma_id_line(id);
    let none = Seq::<char>::empty();
    assert(with_entry(content, id, off) =~= content + "\n"@ + (l + "\n"@ + (d + "\n"@ + none)));
    lemma_rows_of_texts(content, l + "\n"@ + (d + "\n"@ + none));
    lemma_lines_cons(l, d + "\n"@ + none);
    lemma_lines_cons(d, none);
    assert(lines_of(none) =~= Seq::empty());
    let a = seq![without_cr(l)];
    let b = seq![without_cr(d)];
    assert(b + Seq::<Seq<char>>::empty() =~= b);
    lemma_rows_add(a, b);
    lemma_rows_one(l);
    lemma_rows_one(d);
    let all = rows_of(lines_of(with_entry(content, id, off)));
    assert(all =~= r + (rows_of(a) + rows_of(b)));
    assert(all.take(r.len() as int) =~= r);
    let t = trim_of(l);
    reveal_strlit("- id:");
    reveal_strlit("-");
    assert("-"@.is_prefix_of(t)) by {
        assert(t.subrange(0, 1) =~= "-"@);
    }
}

proof fn lemma_indents(ls: Seq<Seq<char>>, i: int)
    requires
        0 <= i < rows_of(ls).len(),
    ensures
        rows_of(ls)[i].0 >= 0,
    decreases ls.len(),
{
    if i < rows_of(ls.drop_last()).len() {
        lemma_indents(ls.drop_last(), i);
    } else {
        crate::text::lemma_indent(ls.last());
    }
}

proof fn lemma_block_off_ends(r: Seq<(int, Seq<char>)>, all: Seq<(int, Seq<char>)>, j: int, b: int)
    requires
        r.len() < all.len(),
        all.take(r.len() as int) == r,
        all[r.len() as int].0 == 0,
        "-"@.is_prefix_of(all[r.len() as int].1),
        0 <= j <= r.len(),
        b >= 0,
    ensures
        block_off(all, j, b) == block_off(r, j, b),
    decreases r.len() - j,
{
    if j < r.len() {
        assert(all.take(r.len() as int)[j] == all[j]);
        lemma_block_off_ends(r, all, j + 1, b);
    }
}

proof fn lemma_before_entry(r: Seq<(int, Seq<char>)>, all: Seq<(int, Seq<char>)>, n: int, id: Seq<char>)
    requires
        r.len() < all.len(),
        all.take(r.len() as int) == r,
        all[r.len() as int].0 == 0,
        "-"@.is_prefix_of(all[r.len() as int].1),
        forall|i: int| 0 <= i < r.len() ==> (#[trigger] r[i]).0 >= 0,
        0 <= n <= r.len(),
    ensures
        last_off(all, n, id) == last_off(r, n, id),
        ids_upto(all, n) == ids_upto(r, n),
    decreases n,
{
    if n > 0 {
        assert(all.take(r.len() as int)[n - 1] == all[n - 1]);
        assert(r[n - 1].0 >= 0);
        lemma_before_entry(r, all, n - 1, id);
        lemma_block_off_ends(r, all, n, r[n - 1].0);
    }
}

proof fn lemma_still_off_beside(
    r: Seq<(int, Seq<char>)>,
    all: Seq<(int, Seq<char>)>,
    ids: Seq<Seq<char>>,
    x: Seq<char>,
)
    requires
        forall|id: Seq<char>|
            id != x ==> #[trigger] last_off(all, all.len() as int, id) == last_off(
                r,
                r.len() as int,
                id,
            ),
    ensures
        missing_of(still_off(all, ids), seq![x]) == missing_of(still_off(r, ids), seq![x]),
        !last_off(all, all.len() as int, x) ==> still_off(all, ids) == missing_of(
            still_off(r, ids),
            seq![x],
        ),
    decreases ids.len(),
{
    if ids.len() > 0 {
        let d = ids.drop_last();
        let l = ids.last();
        lemma_still_off_beside(r, all, d, x);
        assert(seq![x].contains(l) <==> l == x) by {
            if l == x {
                assert(seq![x][0] == l);
            }
        }
        let a = still_off(all, d);
        let b = still_off(r, d);
        assert(a.push(l).drop_last() =~= a);
        assert(b.push(l).drop_last() =~= b);
        assert(last_off(all, all.len() as int, l) == last_off(r, r.len() as int, l) || l == x);
    }
}

/// An entry behind the others decides for its id, and for no other: one that is not disabled takes
/// the id out of the list, one that is disabled has it in the list, and the other ids stay in their
/// order.
pub proof fn law_appended_entry_decides(content: Seq<char>, id: Seq<char>)
    requires
        reads_back(id),
    ensures
        off_ids(with_entry(content, id, false)) == missing_of(off_ids(content), seq![id]),
        off_ids(with_entry(content, id, true)).contains(id),
        missing_of(off_ids(with_entry(content, id, true)), seq![id]) == missing_of(
            off_ids(content),
            seq![id],
        ),
{
    lemma_appended_entry(content, id, false);
    lemma_appended_entry(content, id, true);
}

proof fn lemma_appended_entry(content: Seq<char>, x: Seq<char>, off: bool)
    requires
        reads_back(x),
    ensures
        off_ids(with_entry(content, x, off)).contains(x) == off,
        missing_of(off_ids(with_entry(content, x, off)), seq![x]) == missing_of(
            off_ids(content),
            seq![x],
        ),
        !off ==> off_ids(with_entry(content, x, off)) == missing_of(off_ids(content), seq![x]),
{
    let ls = lines_of(content);
    let r = rows_of(ls);
    let all = rows_of(lines_of(with_entry(content, x, off)));
    let n = r.len() as int;
    lemma_entry_rows(content, x, off);
    assert forall|i: int| 0 <= i < r.len() implies (#[trigger] r[i]).0 >= 0 by {
        lemma_indents(ls, i);
    }
    assert(block_off(all, n + 2, 0) == false);
    assert(block_off(all, n + 1, 0) == off);
    assert forall|id: Seq<char>| #[trigger] last_off(all, n + 2, id) == (if id == x {
        off
    } else {
        last_off(r, n, id)
    }) by {
        lemma_before_entry(r, all, n, id);
        assert(last_off(all, n + 2, id) == last_off(all, n + 1, id));
    }
    lemma_before_entry(r, all, n, x);
    let ids = ids_upto(r, n);
    assert(ids_upto(all, n + 2) == ids_upto(all, n + 1));
    assert(ids_upto(all, n + 1) == if ids.contains(x) {
        ids
    } else {
        ids.push(x)
    });
    lemma_still_off_beside(r, all, ids, x);
    law_last_entry_decides(all, x);
    if !ids.contains(x) {
        let a = still_off(all, ids);
        assert(ids.push(x).drop_last() =~= ids);
        assert(a.push(x).drop_last() =~= a);
        assert(seq![x].contains(x)) by {
            assert(seq![x][0] == x);
        }
        assert(missing_of(a.push(x), seq![x]) == missing_of(a, seq![x]));
    }
}

proof fn lemma_missing(ids: Seq<Seq<char>>, off: Seq<Seq<char>>, id: Seq<char>)
    ensures
        missing_of(ids, off).contains(id) <==> ids.contains(id) && !off.contains(id),
    decreases ids.len(),
{
    if ids.len() > 0 {
        let d = ids.drop_last();
        lemma_missing(d, off, id);
        let before = missing_of(d, off);
        let now = missing_of(ids, off);
        assert(ids[ids.len() - 1] == ids.last());
        if d.contains(id) {
            let k = choose|k: int| 0 <= k < d.len() && d[k] == id;
            assert(ids[k] == id);
        }
        if ids.contains(id) && id != ids.last() {
            let k = choose|k: int| 0 <= k < ids.len() && ids[k] == id;
            assert(d[k] == id);
        }
        if before.contains(id) {
            let k = choose|k: int| 0 <= k < before.len() && before[k] == id;
            assert(now[k] == id);
        }
        if now.contains(id) && !before.contains(id) {
            let k = choose|k: int| 0 <= k < now.len() && now[k] == id;
            if k < before.len() {
                assert(before[k] == id);
            }
        }
        if id == ids.last() && !off.contains(id) {
            assert(now[before.len() as int] == id);
        }
    }
}

proof fn lemma_kept_part(ls: Seq<Seq<char>>, i: int, m: Seq<char>)
    requires
        0 <= i,
    ensures
        forall|k: int|
            0 <= k < kept_from(ls, i, m).len() ==> ls.contains(#[trigger] kept_from(ls, i, m)[k])
                && trim_of(kept_from(ls, i, m)[k]) != m,
    decreases ls.len() - i,
{
    if i < ls.len() {
        if trim_of(ls[i]) == m {
            if own_block(ls, i) {
                lemma_kept_part(ls, i + 3, m);
                assert(kept_from(ls, i, m) == kept_from(ls, i + 3, m));
            } else {
                lemma_kept_part(ls, i + 1, m);
                assert(kept_from(ls, i, m) == kept_from(ls, i + 1, m));
            }
        } else {
            lemma_kept_part(ls, i + 1, m);
            let rest = kept_from(ls, i + 1, m);
            let all = kept_from(ls, i, m);
            assert forall|k: int| 0 <= k < all.len() implies ls.contains(#[trigger] all[k])
                && trim_of(all[k]) != m by {
                if k > 0 {
                    assert(all[k] == rest[k - 1]);
                } else {
                    assert(all[0] == ls[i]);
                }
            }
        }
    }
}

proof fn lemma_comments_part(ls: Seq<Seq<char>>)
    ensures
        forall|k: int|
            0 <= k < comments_of(ls).len() ==> ls.contains(#[trigger] comments_of(ls)[k]),
        rows_of(comments_of(ls)).len() == 0,
    decreases ls.len(),
{
    if ls.len() > 0 {
        let d = ls.drop_last();
        lemma_comments_part(d);
        let before = comments_of(d);
        let now = comments_of(ls);
        assert forall|k: int| 0 <= k < now.len() implies ls.contains(#[trigger] now[k]) by {
            if k < before.len() {
                assert(now[k] == before[k]);
                let j = choose|j: int| 0 <= j < d.len() && d[j] == before[k];
                assert(ls[j] == now[k]);
            } else {
                assert(ls[ls.len() - 1] == now[k]);
            }
        }
        if now.len() > before.len() {
            assert(now.drop_last() =~= before);
        }
    }
}

proof fn lemma_base(content: Seq<char>, m: Seq<char>)
    ensures
        no_feeds(base_of(lines_of(content), m)),
        no_feeds(kept(lines_of(content), m)),
        !marked(base_of(lines_of(content), m), m),
        !marked(kept(lines_of(content), m), m),
        no_entries(kept(lines_of(content), m)) ==> rows_of(base_of(lines_of(content), m)).len()
            == 0,
{
    let ls = lines_of(content);
    let k = kept(ls, m);
    let b = base_of(ls, m);
    lemma_lines_no_feeds(content);
    lemma_kept_part(ls, 0, m);
    lemma_comments_part(k);
    assert(no_feeds(k)) by {
        assert forall|i: int| 0 <= i < k.len() implies !(#[trigger] k[i]).contains('\n') by {
            assert(ls.contains(k[i]));
        }
    }
    assert forall|i: int| 0 <= i < b.len() implies !(#[trigger] b[i]).contains('\n') && trim_of(
        b[i],
    ) != m by {
        if no_entries(k) {
            assert(k.contains(b[i]));
        }
    }
}

proof fn lemma_gap(base: Seq<Seq<char>>)
    ensures
        rows_of(gap_of(base)).len() == 0,
        no_feeds(gap_of(base)),
{
    lemma_rows_one(Seq::empty());
    assert(rows_of(Seq::empty()).len() == 0);
}

proof fn lemma_blocks_at(ids: Seq<Seq<char>>, m: Seq<char>, k: int)
    requires
        0 <= k < ids.len(),
    ensures
        blocks_of(ids, m).len() == 3 * ids.len(),
        blocks_of(ids, m)[3 * k] == m,
        blocks_of(ids, m)[3 * k + 1] == id_line(ids[k]),
        blocks_of(ids, m)[3 * k + 2] == "  disabled: true"@,
    decreases ids.len(),
{
    lemma_blocks_len(ids, m);
    lemma_blocks_len(ids.drop_last(), m);
    if k < ids.len() - 1 {
        lemma_blocks_at(ids.drop_last(), m, k);
        assert(ids.drop_last()[k] == ids[k]);
    }
}

proof fn lemma_blocks_len(ids: Seq<Seq<char>>, m: Seq<char>)
    ensures
        blocks_of(ids, m).len() == 3 * ids.len(),
    decreases ids.len(),
{
    if ids.len() > 0 {
        lemma_blocks_len(ids.drop_last(), m);
    }
}

proof fn lemma_blocks_no_feeds(ids: Seq<Seq<char>>, m: Seq<char>)
    requires
        !m.contains('\n'),
        no_feeds(ids),
    ensures
        no_feeds(blocks_of(ids, m)),
{
    lemma_blocks_len(ids, m);
    let b = blocks_of(ids, m);
    assert forall|i: int| 0 <= i < b.len() implies !(#[trigger] b[i]).contains('\n') by {
        let k = i / 3;
        lemma_blocks_at(ids, m, k);
        assert(!ids[k].contains('\n'));
        lemma_id_line(ids[k]);
        lemma_disabled_line();
        assert(i == 3 * k || i == 3 * k + 1 || i == 3 * k + 2);
    }
}

/// What the launcher's blocks say: an id line and a `disabled: true` for each id.
proof fn lemma_blocks_rows(ids: Seq<Seq<char>>, m: Seq<char>, k: int)
    requires
        trim_of(m).len() > 0,
        trim_of(m)[0] == '#',
        no_feeds(ids),
        0 <= k < ids.len(),
    ensures
        rows_of(blocks_of(ids, m)).len() == 2 * ids.len(),
        rows_of(blocks_of(ids, m))[2 * k] == (0int, trim_of(id_line(ids[k]))),
        rows_of(blocks_of(ids, m))[2 * k + 1].1 == "disabled: true"@,
    decreases ids.len(),
{
    let d = ids.drop_last();
    let l = id_line(ids.last());
    assert(!ids[ids.len() - 1].contains('\n'));
    lemma_id_line(ids.last());
    lemma_disabled_line();
    let three = seq![m, l, "  disabled: true"@];
    lemma_rows_add(blocks_of(d, m), three);
    assert(three =~= (seq![m] + seq![l]) + seq!["  disabled: true"@]);
    lemma_rows_add(seq![m] + seq![l], seq!["  disabled: true"@]);
    lemma_rows_add(seq![m], seq![l]);
    lemma_rows_one(m);
    lemma_rows_one(l);
    lemma_rows_one("  disabled: true"@);
    assert(rows_of(three).len() == 2);
    assert(rows_of(three)[0] == (0int, trim_of(l)));
    assert(rows_of(three)[1].1 == "disabled: true"@);
    assert forall|i: int| 0 <= i < d.len() implies !(#[trigger] d[i]).contains('\n') by {
        assert(d[i] == ids[i]);
    }
    lemma_blocks_rows_len(d, m);
    if k < d.len() {
        lemma_blocks_rows(d, m, k);
        assert(d[k] == ids[k]);
    }
}

proof fn lemma_blocks_rows_len(ids: Seq<Seq<char>>, m: Seq<char>)
    requires
        trim_of(m).len() > 0,
        trim_of(m)[0] == '#',
        no_feeds(ids),
    ensures
        rows_of(blocks_of(ids, m)).len() == 2 * ids.len(),
    decreases ids.len(),
{
    if ids.len() > 0 {
        let d = ids.drop_last();
        let l = id_line(ids.last());
        assert(!ids[ids.len() - 1].contains('\n'));
        lemma_id_line(ids.last());
        lemma_disabled_line();
        let three = seq![m, l, "  disabled: true"@];
        lemma_rows_add(blocks_of(d, m), three);
        assert(three =~= (seq![m] + seq![l]) + seq!["  disabled: true"@]);
        lemma_rows_add(seq![m] + seq![l], seq!["  disabled: true"@]);
        lemma_rows_add(seq![m], seq![l]);
        lemma_rows_one(m);
        lemma_rows_one(l);
        lemma_rows_one("  disabled: true"@);
        assert forall|i: int| 0 <= i < d.len() implies !(#[trigger] d[i]).contains('\n') by {
            assert(d[i] == ids[i]);
        }
        lemma_blocks_rows_len(d, m);
    }
}

/// Rows followed by the rows of blocks for `add`: an id of `add` that is read back, or one disabled
/// before, is disabled.
proof fn lemma_off_behind_blocks(
    base: Seq<(int, Seq<char>)>,
    add: Seq<Seq<char>>,
    m: Seq<char>,
    j: int,
    id: Seq<char>,
)
    requires
        trim_of(m).len() > 0,
        trim_of(m)[0] == '#',
        no_feeds(add),
        0 <= j <= add.len(),
        (add.take(j).contains(id) && reads_back(id)) || (!add.contains(id) && last_off(
            base,
            base.len() as int,
            id,
        )),
    ensures
        last_off(base + rows_of(blocks_of(add, m)), base.len() + 2 * j, id),
    decreases j,
{
    let more = rows_of(blocks_of(add, m));
    let all = base + more;
    let n = base.len() + 2 * j;
    if j == 0 {
        assert(!add.take(0).contains(id));
        lemma_last_off_grows(base, more, base.len() as int, id);
    } else {
        lemma_blocks_rows(add, m, j - 1);
        lemma_disabled_line();
        assert(!add[j - 1].contains('\n'));
        lemma_id_line(add[j - 1]);
        assert(all[n - 1] == more[2 * (j - 1) + 1]);
        assert(all[n - 2] == more[2 * (j - 1)]);
        assert(entry_at(all, n - 1) is None);
        assert(entry_at(all, n - 2) == entry_id(trim_of(id_line(add[j - 1]))));
        assert(last_off(all, n, id) == last_off(all, n - 1, id));
        if entry_at(all, n - 2) == Some(id) {
            assert(block_off(all, n - 1, all[n - 2].0));
        } else {
            if add.take(j).contains(id) {
                let k = choose|k: int| 0 <= k < j && add.take(j)[k] == id;
                assert(add.take(j)[k] == add[k]);
                assert(add.take(j - 1)[k] == id);
            }
            lemma_off_behind_blocks(base, add, m, j - 1, id);
        }
    }
}

/// The text of a patch file behind [`manage_disabled_blocks`](crate::patch::manage_disabled_blocks).
pub open spec fn file_after(
    content: Seq<char>,
    name: Seq<char>,
    ids: Seq<Seq<char>>,
    enable: bool,
) -> Seq<char> {
    match managed(content, name, ids, enable) {
        Some(t) => t,
        None => content,
    }
}

/// The ids that a patch file disables.
pub open spec fn off_ids(content: Seq<char>) -> Seq<Seq<char>> {
    disabled_ids(rows_of(lines_of(content)))
}

proof fn lemma_unmarked_kept(ls: Seq<Seq<char>>, i: int, m: Seq<char>)
    requires
        !marked(ls, m),
        0 <= i <= ls.len(),
    ensures
        kept_from(ls, i, m) == ls.skip(i),
    decreases ls.len() - i,
{
    if i < ls.len() {
        assert(trim_of(ls[i]) != m);
        lemma_unmarked_kept(ls, i + 1, m);
        assert(seq![ls[i]] + ls.skip(i + 1) =~= ls.skip(i));
    } else {
        assert(ls.skip(i) =~= Seq::empty());
    }
}

proof fn lemma_disabled_lines(content: Seq<char>, name: Seq<char>, ids: Seq<Seq<char>>)
    requires
        !name.contains('\n'),
        no_feeds(ids),
    ensures
        ({
            let m = marker_of(name);
            let ls = lines_of(content);
            let base = base_of(ls, m);
            let add = needed_of(ls, m, ids);
            &&& no_feeds(disabled_lines(ls, m, ids))
            &&& rows_of(disabled_lines(ls, m, ids)) == rows_of(base) + rows_of(blocks_of(add, m))
            &&& no_feeds(add)
            &&& forall|id: Seq<char>| #[trigger]
                add.contains(id) <==> ids.contains(id) && !disabled_ids(rows_of(base)).contains(id)
        }),
{
    let m = marker_of(name);
    let ls = lines_of(content);
    let base = base_of(ls, m);
    let add = needed_of(ls, m, ids);
    lemma_marker(name);
    lemma_base(content, m);
    lemma_rows_of_join(base);
    let off = disabled_ids(rows_of(base));
    assert(add == missing_of(ids, off));
    assert forall|id: Seq<char>| #[trigger] add.contains(id) <==> ids.contains(id)
        && !off.contains(id) by {
        lemma_missing(ids, off, id);
    }
    assert forall|i: int| 0 <= i < add.len() implies !(#[trigger] add[i]).contains('\n') by {
        assert(add.contains(add[i]));
        let k = choose|k: int| 0 <= k < ids.len() && ids[k] == add[i];
        assert(!ids[k].contains('\n'));
    }
    lemma_gap(base);
    lemma_blocks_no_feeds(add, m);
    let gap = gap_of(base);
    let blocks = blocks_of(add, m);
    lemma_rows_add(base + gap, blocks);
    lemma_rows_add(base, gap);
    assert(rows_of(base) + rows_of(gap) =~= rows_of(base));
    if add.len() == 0 {
        assert(blocks =~= Seq::empty());
        assert(rows_of(base) + rows_of(blocks) =~= rows_of(base));
    } else {
        let all = base + gap + blocks;
        assert forall|i: int| 0 <= i < all.len() implies !(#[trigger] all[i]).contains('\n') by {
            if i < base.len() {
                assert(all[i] == base[i]);
            } else if i < base.len() + gap.len() {
                assert(all[i] == gap[i - base.len()]);
            } else {
                assert(all[i] == blocks[i - base.len() - gap.len()]);
            }
        }
    }
}

/// Behind a disabling every id of the plugin is disabled, unless the launcher has to write a line for
/// it that is read as something else.
pub proof fn law_disabling_disables(
    content: Seq<char>,
    name: Seq<char>,
    ids: Seq<Seq<char>>,
    id: Seq<char>,
)
    requires
        !name.contains('\n'),
        no_feeds(ids),
        ids.contains(id),
        reads_back(id) || !needed_of(lines_of(content), marker_of(name), ids).contains(id),
    ensures
        off_ids(file_after(content, name, ids, false)).contains(id),
{
    let m = marker_of(name);
    let ls = lines_of(content);
    let base = base_of(ls, m);
    let add = needed_of(ls, m, ids);
    let rows = rows_of(base);
    lemma_marker(name);
    lemma_base(content, m);
    lemma_disabled_lines(content, name, ids);
    let out = disabled_lines(ls, m, ids);
    lemma_rows_of_text(out);
    law_last_entry_decides(rows, id);
    assert(add.contains(id) || disabled_ids(rows).contains(id));
    assert(add.take(add.len() as int) =~= add);
    lemma_off_behind_blocks(rows, add, m, add.len() as int, id);
    lemma_blocks_rows_len(add, m);
    law_last_entry_decides(rows_of(out), id);
    if settled(ls, m, ids) {
        lemma_missing(ids, off_ids(content), id);
    }
}

proof fn lemma_marks(ls: Seq<Seq<char>>, i: int, m: Seq<char>)
    requires
        0 <= i,
    ensures
        marks_from(ls, i, m).len() == 0 <==> forall|j: int|
            i <= j < ls.len() ==> trim_of(#[trigger] ls[j]) != m,
    decreases ls.len() - i,
{
    if i < ls.len() {
        if trim_of(ls[i]) != m {
            lemma_marks(ls, i + 1, m);
        }
    }
}

/// A settled file is marked exactly where the launcher has blocks to write.
proof fn lemma_settled_marked(ls: Seq<Seq<char>>, m: Seq<char>, ids: Seq<Seq<char>>)
    requires
        settled(ls, m, ids),
    ensures
        marked(ls, m) <==> needed_of(ls, m, ids).len() > 0,
        !marked(ls, m) ==> kept(ls, m) == ls,
{
    lemma_marks(ls, 0, m);
    if !marked(ls, m) {
        lemma_unmarked_kept(ls, 0, m);
        assert(ls.skip(0) =~= ls);
    }
}

pub proof fn lemma_kept_shift(a: Seq<Seq<char>>, b: Seq<Seq<char>>, i: int, m: Seq<char>)
    requires
        0 <= i,
    ensures
        kept_from(a + b, a.len() + i, m) == kept_from(b, i, m),
    decreases b.len() - i,
{
    let all = a + b;
    if i < b.len() {
        assert(all[a.len() + i] == b[i]);
        if i + 2 < b.len() {
            assert(all[a.len() + i + 1] == b[i + 1]);
            assert(all[a.len() + i + 2] == b[i + 2]);
        }
        if trim_of(b[i]) == m {
            if own_block(b, i) {
                lemma_kept_shift(a, b, i + 3, m);
            } else {
                lemma_kept_shift(a, b, i + 1, m);
            }
        } else {
            lemma_kept_shift(a, b, i + 1, m);
        }
    }
}

pub proof fn lemma_kept_behind_unmarked(a: Seq<Seq<char>>, b: Seq<Seq<char>>, i: int, m: Seq<char>)
    requires
        !marked(a, m),
        0 <= i <= a.len(),
    ensures
        kept_from(a + b, i, m) == a.skip(i) + kept_from(b, 0, m),
    decreases a.len() - i,
{
    if i == a.len() {
        lemma_kept_shift(a, b, 0, m);
        assert(a.skip(i) + kept_from(b, 0, m) =~= kept_from(b, 0, m));
    } else {
        assert((a + b)[i] == a[i]);
        assert(trim_of(a[i]) != m);
        lemma_kept_behind_unmarked(a, b, i + 1, m);
        assert(seq![a[i]] + (a.skip(i + 1) + kept_from(b, 0, m)) =~= a.skip(i) + kept_from(
            b,
            0,
            m,
        ));
    }
}

proof fn lemma_kept_blocks(ids: Seq<Seq<char>>, k: int, m: Seq<char>)
    requires
        trim_of(m) == m,
        forall|i: int| 0 <= i < ids.len() ==> starts_entry(#[trigger] ids[i]),
        0 <= k <= ids.len(),
    ensures
        kept_from(blocks_of(ids, m), 3 * k, m) == Seq::<Seq<char>>::empty(),
    decreases ids.len() - k,
{
    lemma_blocks_len(ids, m);
    if k < ids.len() {
        lemma_blocks_at(ids, m, k);
        lemma_disabled_line();
        assert(starts_entry(ids[k]));
        lemma_kept_blocks(ids, k + 1, m);
    }
}

proof fn lemma_kept_without_crs(ls: Seq<Seq<char>>, i: int, m: Seq<char>)
    requires
        0 <= i,
    ensures
        kept_from(without_crs(ls), i, m) == without_crs(kept_from(ls, i, m)),
    decreases ls.len() - i,
{
    let w = without_crs(ls);
    if i < ls.len() {
        lemma_trim_without_cr(ls[i]);
        if i + 2 < ls.len() {
            lemma_trim_without_cr(ls[i + 1]);
            lemma_trim_without_cr(ls[i + 2]);
        }
        if trim_of(ls[i]) == m {
            if own_block(ls, i) {
                lemma_kept_without_crs(ls, i + 3, m);
            } else {
                lemma_kept_without_crs(ls, i + 1, m);
            }
        } else {
            lemma_kept_without_crs(ls, i + 1, m);
            assert(without_crs(kept_from(ls, i, m)) =~= seq![w[i]] + without_crs(
                kept_from(ls, i + 1, m),
            ));
        }
    } else {
        assert(without_crs(kept_from(ls, i, m)) =~= Seq::empty());
    }
}

/// The empty list as a row.
pub open spec fn empty_list() -> Seq<(int, Seq<char>)> {
    seq![(0int, "[]"@)]
}

proof fn lemma_enabled_lines(ls: Seq<Seq<char>>, m: Seq<char>)
    requires
        no_feeds(kept(ls, m)),
    ensures
        no_feeds(enabled_lines(ls, m)),
        rows_of(enabled_lines(ls, m)) == (if rows_of(kept(ls, m)).len() == 0 {
            empty_list()
        } else {
            rows_of(kept(ls, m))
        }),
{
    let k = kept(ls, m);
    reveal_strlit("[]");
    let e = "[]"@;
    lemma_untrimmed(e, Strip::Space);
    assert(indent_of(e) == 0);
    lemma_rows_one(e);
    lemma_rows_one(Seq::empty());
    assert(!e.contains('\n')) by {
        if e.contains('\n') {
            let i = choose|i: int| 0 <= i < e.len() && e[i] == '\n';
            assert(false);
        }
    }
    if rows_of(k).len() == 0 {
        let gap = if k.len() > 0 {
            seq![Seq::<char>::empty()]
        } else {
            Seq::<Seq<char>>::empty()
        };
        lemma_rows_add(k + gap, seq![e]);
        lemma_rows_add(k, gap);
        assert(rows_of(gap).len() == 0);
        assert(rows_of(k + gap + seq![e]) =~= empty_list());
        let all = k + gap + seq![e];
        assert forall|i: int| 0 <= i < all.len() implies !(#[trigger] all[i]).contains('\n') by {
            if i < k.len() {
                assert(all[i] == k[i]);
            }
        }
    }
}

/// Enabling keeps all that the user's lines say, and leaves a list in any case.
pub proof fn law_enabling_keeps_user_entries(
    content: Seq<char>,
    name: Seq<char>,
    ids: Seq<Seq<char>>,
)
    requires
        managed(content, name, ids, true) is Some,
    ensures
        ({
            let user = rows_of(kept(lines_of(content), marker_of(name)));
            rows_of(lines_of(file_after(content, name, ids, true))) == (if user.len() == 0 {
                empty_list()
            } else {
                user
            })
        }),
{
    let ls = lines_of(content);
    let m = marker_of(name);
    lemma_base(content, m);
    lemma_enabled_lines(ls, m);
    lemma_rows_of_text(enabled_lines(ls, m));
}

/// The lines of a file that a disabling wrote, and what is kept of them.
proof fn lemma_written(content: Seq<char>, name: Seq<char>, ids: Seq<Seq<char>>)
    requires
        !name.contains('\n'),
        no_feeds(ids),
        needed_of(lines_of(content), marker_of(name), ids).len() > 0,
        forall|i: int|
            0 <= i < needed_of(lines_of(content), marker_of(name), ids).len() ==> starts_entry(
                #[trigger] needed_of(lines_of(content), marker_of(name), ids)[i],
            ),
    ensures
        ({
            let m = marker_of(name);
            let ls = lines_of(content);
            let base = base_of(ls, m);
            let front = base + gap_of(base);
            let out = disabled_lines(ls, m, ids);
            let written = lines_of(text_of(out));
            &&& out == front + blocks_of(needed_of(ls, m, ids), m)
            &&& written == without_crs(out)
            &&& kept(written, m) == without_crs(front)
            &&& rows_of(kept(written, m)) == rows_of(base)
            &&& !marked(front, m)
            &&& marked(written, m)
        }),
{
    let m = marker_of(name);
    let ls = lines_of(content);
    let base = base_of(ls, m);
    let add = needed_of(ls, m, ids);
    let gap = gap_of(base);
    let blocks = blocks_of(add, m);
    let out = base + gap + blocks;
    let w = without_crs(out);
    lemma_marker(name);
    lemma_base(content, m);
    lemma_disabled_lines(content, name, ids);
    lemma_blocks_at(add, m, add.len() - 1);
    lemma_text_of_blocks(base + gap, add, m);
    lemma_kept_without_crs(out, 0, m);
    lemma_gap(base);
    assert(!marked(base + gap, m)) by {
        assert forall|i: int| 0 <= i < (base + gap).len() implies trim_of(
            #[trigger] (base + gap)[i],
        ) != m by {
            if i < base.len() {
                assert((base + gap)[i] == base[i]);
            }
        }
    }
    lemma_kept_behind_unmarked(base + gap, blocks, 0, m);
    lemma_kept_blocks(add, 0, m);
    assert((base + gap).skip(0) + Seq::<Seq<char>>::empty() =~= base + gap);
    lemma_rows_without_crs(base + gap);
    lemma_rows_add(base, gap);
    assert(rows_of(base) + rows_of(gap) =~= rows_of(base));
    assert(marked(w, m)) by {
        let i = base.len() + gap.len();
        assert(out[i as int] == blocks[0]);
        lemma_blocks_at(add, m, 0);
        lemma_trim_without_cr(m);
        assert(trim_of(w[i as int]) == m);
    }
}

/// A plugin with ids has blocks to be written in a file without entries.
proof fn lemma_needed_in_empty(content: Seq<char>, name: Seq<char>, ids: Seq<Seq<char>>)
    requires
        !name.contains('\n'),
        no_feeds(ids),
        ids.len() > 0,
        no_entries(kept(lines_of(content), marker_of(name))),
    ensures
        needed_of(lines_of(content), marker_of(name), ids).len() > 0,
        rows_of(base_of(lines_of(content), marker_of(name))).len() == 0,
{
    let m = marker_of(name);
    let base = base_of(lines_of(content), m);
    lemma_base(content, m);
    lemma_disabled_lines(content, name, ids);
    assert(rows_of(base) =~= Seq::empty());
    assert(ids.contains(ids[0]));
    law_last_entry_decides(rows_of(base), ids[0]);
    assert(needed_of(lines_of(content), m, ids).contains(ids[0]));
}

/// Enabling undoes a disabling: what the user's lines say stands as before. A file without entries
/// ends as an empty list. The lines that the launcher writes must be read as entries.
pub proof fn law_enabling_undoes_disabling(
    content: Seq<char>,
    name: Seq<char>,
    ids: Seq<Seq<char>>,
)
    requires
        !name.contains('\n'),
        ids.len() > 0,
        no_feeds(ids),
        forall|i: int|
            0 <= i < needed_of(lines_of(content), marker_of(name), ids).len() ==> starts_entry(
                #[trigger] needed_of(lines_of(content), marker_of(name), ids)[i],
            ),
    ensures
        ({
            let user = kept(lines_of(content), marker_of(name));
            let back = file_after(file_after(content, name, ids, false), name, ids, true);
            rows_of(lines_of(back)) == (if no_entries(user) {
                empty_list()
            } else {
                rows_of(user)
            })
        }),
        needed_of(lines_of(content), marker_of(name), ids).len() > 0 ==> managed(
            file_after(content, name, ids, false),
            name,
            ids,
            true,
        ) is Some,
{
    let m = marker_of(name);
    let ls = lines_of(content);
    let user = kept(ls, m);
    let base = base_of(ls, m);
    let add = needed_of(ls, m, ids);
    let mid = file_after(content, name, ids, false);
    lemma_marker(name);
    lemma_base(content, m);
    if no_entries(user) {
        lemma_needed_in_empty(content, name, ids);
        assert(rows_of(base) =~= Seq::empty());
    } else {
        assert(rows_of(user).len() > 0);
    }
    if settled(ls, m, ids) {
        lemma_settled_marked(ls, m, ids);
        if add.len() > 0 {
            law_enabling_keeps_user_entries(content, name, ids);
        }
    } else if add.len() == 0 {
        lemma_text_marked(base, m);
        lemma_rows_of_text(base);
    } else {
        lemma_written(content, name, ids);
        law_enabling_keeps_user_entries(mid, name, ids);
    }
}

proof fn lemma_text_of_blocks(front: Seq<Seq<char>>, add: Seq<Seq<char>>, m: Seq<char>)
    requires
        add.len() > 0,
        no_feeds(front + blocks_of(add, m)),
    ensures
        lines_of(text_of(front + blocks_of(add, m))) == without_crs(front + blocks_of(add, m)),
{
    let out = front + blocks_of(add, m);
    lemma_blocks_at(add, m, add.len() - 1);
    let t = join_of(out, "\n"@);
    assert(out.last() == "  disabled: true"@);
    reveal_strlit("  disabled: true");
    reveal_strlit("\n");
    assert(t.last() == 'e');
    if "\n"@.is_suffix_of(t) {
        assert(t.subrange(t.len() - 1, t.len() as int)[0] == t.last());
    }
    lemma_lines_of_join_feed(out);
}

/// The lines of a text written from lines are marked only where these are.
proof fn lemma_text_marked(ls: Seq<Seq<char>>, m: Seq<char>)
    requires
        no_feeds(ls),
        !marked(ls, m),
        m.len() > 0,
    ensures
        !marked(lines_of(text_of(ls)), m),
{
    let t = join_of(ls, "\n"@);
    if "\n"@.is_suffix_of(t) {
        lemma_join_marked(ls, m);
    } else if ls.len() == 0 {
        lemma_lines_cons(Seq::empty(), Seq::empty());
        assert(Seq::<char>::empty() + "\n"@ + Seq::<char>::empty() =~= t + "\n"@);
        assert(seq![Seq::<char>::empty()] + Seq::<Seq<char>>::empty() =~= seq![
            Seq::<char>::empty(),
        ]);
    } else {
        lemma_lines_of_join_feed(ls);
        assert forall|i: int| 0 <= i < ls.len() implies trim_of(#[trigger] without_crs(ls)[i])
            != m by {
            lemma_trim_without_cr(ls[i]);
            assert(trim_of(ls[i]) != m);
        }
    }
}

proof fn lemma_join_marked(ls: Seq<Seq<char>>, m: Seq<char>)
    requires
        no_feeds(ls),
        !marked(ls, m),
        m.len() > 0,
    ensures
        !marked(lines_of(join_of(ls, "\n"@)), m),
    decreases ls.len(),
{
    let t = join_of(ls, "\n"@);
    if ls.len() == 0 {
        assert(lines_of(t) =~= Seq::empty());
    } else if ls.len() == 1 {
        assert(!ls[0].contains('\n'));
        crate::text::lemma_find_char(ls[0], '\n');
        assert(trim_of(ls[0]) != m);
    } else {
        lemma_rest_no_feeds(ls);
        let rest = ls.skip(1);
        assert forall|i: int| 0 <= i < rest.len() implies trim_of(#[trigger] rest[i]) != m by {
            assert(rest[i] == ls[i + 1]);
        }
        lemma_join_marked(rest, m);
        lemma_join_front(ls, "\n"@);
        let u = join_of(rest, "\n"@);
        lemma_lines_cons(ls[0], u);
        lemma_trim_without_cr(ls[0]);
        assert(trim_of(ls[0]) != m);
        let all = seq![without_cr(ls[0])] + lines_of(u);
        assert forall|i: int| 0 <= i < all.len() implies trim_of(#[trigger] all[i]) != m by {
            if i > 0 {
                assert(all[i] == lines_of(u)[i - 1]);
            }
        }
    }
}

/// A second enabling has nothing left to do.
pub proof fn law_enabling_twice(content: Seq<char>, name: Seq<char>, ids: Seq<Seq<char>>)
    ensures
        managed(file_after(content, name, ids, true), name, ids, true) is None,
{
    let m = marker_of(name);
    let ls = lines_of(content);
    lemma_marker(name);
    lemma_base(content, m);
    if marked(ls, m) {
        lemma_enabled_lines(ls, m);
        let out = enabled_lines(ls, m);
        let k = kept(ls, m);
        reveal_strlit("[]");
        lemma_untrimmed("[]"@, Strip::Space);
        assert forall|i: int| 0 <= i < out.len() implies trim_of(#[trigger] out[i]) != m by {
            if i < k.len() {
                assert(out[i] == k[i]);
            }
        }
        lemma_text_marked(out, m);
    }
}

/// Where nothing is said beside the launcher's blocks, each row is part of a block.
proof fn lemma_rows_left_out(ls: Seq<Seq<char>>, i: int, m: Seq<char>, k: int)
    requires
        0 <= i <= ls.len(),
        trim_of(m) == m,
        m.len() > 0,
        m[0] == '#',
        rows_of(kept_from(ls, i, m)).len() == 0,
        0 <= k < rows_of(ls.skip(i)).len(),
    ensures
        rows_of(ls.skip(i))[k].1 != "[]"@,
        rows_of(ls.skip(i))[k].1 != "---"@,
    decreases ls.len() - i,
{
    let rest = ls.skip(i);
    if i < ls.len() {
        lemma_rows_cons(rest);
        lemma_rows_one(ls[i]);
        assert(rest.skip(1) =~= ls.skip(i + 1));
        if trim_of(ls[i]) == m {
            assert(rows_of(rest) =~= rows_of(ls.skip(i + 1)));
            if own_block(ls, i) {
                let a = ls.skip(i + 1);
                let b = ls.skip(i + 2);
                lemma_rows_cons(a);
                lemma_rows_one(ls[i + 1]);
                assert(a.skip(1) =~= b);
                lemma_rows_cons(b);
                lemma_rows_one(ls[i + 2]);
                assert(b.skip(1) =~= ls.skip(i + 3));
                let t = trim_of(ls[i + 1]);
                let d = trim_of(ls[i + 2]);
                lemma_block_text(t);
                lemma_block_text(d);
                if k >= 2 {
                    lemma_rows_left_out(ls, i + 3, m, k - 2);
                }
            } else {
                lemma_rows_left_out(ls, i + 1, m, k);
            }
        } else {
            let tail = kept_from(ls, i + 1, m);
            lemma_rows_add(seq![ls[i]], tail);
            assert(rows_of(rest) =~= rows_of(ls.skip(i + 1)));
            lemma_rows_left_out(ls, i + 1, m, k);
        }
    }
}

/// The rows of a block are no empty list and no line between documents.
proof fn lemma_block_text(t: Seq<char>)
    requires
        entry_id(t) is Some || says_disabled(t),
    ensures
        t != "[]"@,
        t != "---"@,
        says(t),
{
    reveal_strlit("[]");
    reveal_strlit("---");
    reveal_strlit("- id:");
    reveal_strlit("disabled:");
    if entry_id(t) is Some {
        assert(t.subrange(0, 5) == "- id:"@);
        assert(t.subrange(0, 5)[0] == t[0]);
        assert(t.subrange(0, 5)[1] == t[1]);
    } else {
        assert(t.subrange(0, 9) == "disabled:"@);
        assert(t.subrange(0, 9)[0] == t[0]);
    }
}

/// Disabling in a file without entries writes a list of entries that no `[]` or `---` disturbs.
pub proof fn law_disabling_replaces_empty_list(
    content: Seq<char>,
    name: Seq<char>,
    ids: Seq<Seq<char>>,
    i: int,
)
    requires
        !name.contains('\n'),
        ids.len() > 0,
        no_feeds(ids),
        no_entries(kept(lines_of(content), marker_of(name))),
        0 <= i < rows_of(lines_of(file_after(content, name, ids, false))).len(),
    ensures
        rows_of(lines_of(file_after(content, name, ids, false)))[i].1 != "[]"@,
        rows_of(lines_of(file_after(content, name, ids, false)))[i].1 != "---"@,
{
    let m = marker_of(name);
    let ls = lines_of(content);
    let base = base_of(ls, m);
    let add = needed_of(ls, m, ids);
    lemma_marker(name);
    lemma_needed_in_empty(content, name, ids);
    lemma_disabled_lines(content, name, ids);
    assert(rows_of(base) =~= Seq::empty());
    if settled(ls, m, ids) {
        assert(ls.skip(0) =~= ls);
        lemma_rows_left_out(ls, 0, m, i);
    } else {
        let out = disabled_lines(ls, m, ids);
        lemma_rows_of_text(out);
        let rows = rows_of(out);
        assert(rows =~= rows_of(blocks_of(add, m)));
        lemma_blocks_rows_len(add, m);
        let k = i / 2;
        lemma_blocks_rows(add, m, k);
        assert(!add[k].contains('\n'));
        lemma_id_line(add[k]);
        reveal_strlit("[]");
        reveal_strlit("---");
        reveal_strlit("disabled: true");
        reveal_strlit("- id:");
        assert(add.len() > 0);
        assert(file_after(content, name, ids, false) == text_of(out));
        assert(rows_of(lines_of(file_after(content, name, ids, false))) == rows);
        if i == 2 * k {
            let t = trim_of(id_line(add[k]));
            assert("- id:"@.is_prefix_of(t));
            assert(t.subrange(0, 5)[1] == t[1]);
            assert(t[1] == ' ');
            assert("[]"@[1] == ']' && "---"@[1] == '-');
            assert(rows[i].1 == t);
        } else {
            assert(i == 2 * k + 1);
            assert(rows[i].1.len() == 14);
        }
    }
}

proof fn lemma_comment_at(v: Seq<char>, i: int, st: Scan)
    requires
        0 <= i <= v.len(),
    ensures
        i <= comment_at(v, i, st) <= v.len(),
    decreases v.len() - i,
{
    if i < v.len() {
        lemma_comment_at(v, i + 1, scan_next(st, v[i]));
    }
}

proof fn lemma_entry_id_part(line: Seq<char>, c: char)
    requires
        entry_id(line) is Some,
        entry_id(line)->0.contains(c),
    ensures
        line.contains(c),
{
    let rest = line.skip("- id:"@.len() as int);
    let n = comment_at(rest, 0, Scan::Plain);
    let v = rest.take(n);
    lemma_comment_at(rest, 0, Scan::Plain);
    lemma_trim_part(trim_of(v), c, Strip::Quote);
    lemma_trim_part(v, c, Strip::Space);
    let k = choose|k: int| 0 <= k < v.len() && v[k] == c;
    assert(line[k + "- id:"@.len()] == c);
}

proof fn lemma_rows_part(ls: Seq<Seq<char>>, i: int)
    requires
        no_feeds(ls),
        0 <= i < rows_of(ls).len(),
    ensures
        !rows_of(ls)[i].1.contains('\n'),
    decreases ls.len(),
{
    let d = ls.drop_last();
    assert forall|k: int| 0 <= k < d.len() implies !(#[trigger] d[k]).contains('\n') by {
        assert(d[k] == ls[k]);
    }
    if i < rows_of(d).len() {
        lemma_rows_part(d, i);
    } else {
        assert(!ls[ls.len() - 1].contains('\n'));
        lemma_trim_part(ls.last(), '\n', Strip::Space);
    }
}

proof fn lemma_inserted(rows: Seq<(int, Seq<char>)>, open: Option<int>, i: int)
    requires
        forall|k: int| 0 <= k < rows.len() ==> !(#[trigger] rows[k]).1.contains('\n'),
        0 <= i < insert_ids(rows, open).len(),
    ensures
        !insert_ids(rows, open)[i].contains('\n'),
    decreases rows.len(),
{
    let (n, t) = rows[0];
    let rest = rows.skip(1);
    assert(!rows[0].1.contains('\n'));
    assert forall|k: int| 0 <= k < rest.len() implies !(#[trigger] rest[k]).1.contains('\n') by {
        assert(rest[k] == rows[k + 1]);
    }
    let reopened = if opens_insert(t) {
        Some(n)
    } else {
        None
    };
    match open {
        None => {
            lemma_inserted(rest, reopened, i);
        },
        Some(k) => {
            if "- id:"@.is_prefix_of(t) && n > k {
                match entry_id(t) {
                    Some(id) => {
                        if i == 0 {
                            if id.contains('\n') {
                                lemma_entry_id_part(t, '\n');
                            }
                            assert(insert_ids(rows, open)[0] == id);
                        } else {
                            lemma_inserted(rest, open, i - 1);
                        }
                    },
                    None => {
                        assert(insert_ids(rows, open) =~= insert_ids(rest, open));
                        lemma_inserted(rest, open, i);
                    },
                }
            } else if n <= k {
                lemma_inserted(rest, reopened, i);
            } else {
                lemma_inserted(rest, open, i);
            }
        },
    }
}

/// The ids that a bundle inserts stand in one line each, so that blocks can be written for them.
pub proof fn law_inserted_ids_are_lines(content: Seq<char>)
    ensures
        no_feeds(insert_ids(rows_of(lines_of(content)), None)),
{
    let rows = rows_of(lines_of(content));
    lemma_lines_no_feeds(content);
    assert forall|k: int| 0 <= k < rows.len() implies !(#[trigger] rows[k]).1.contains('\n') by {
        lemma_rows_part(lines_of(content), k);
    }
    let ids = insert_ids(rows, None);
    assert forall|i: int| 0 <= i < ids.len() implies !(#[trigger] ids[i]).contains('\n') by {
        lemma_inserted(rows, None, i);
    }
}

/// What the comment lines say.
pub open spec fn comment_texts(ls: Seq<Seq<char>>) -> Seq<Seq<char>>
    decreases ls.len(),
{
    if ls.len() == 0 {
        Seq::empty()
    } else {
        let before = comment_texts(ls.drop_last());
        let t = trim_of(ls.last());
        if t.len() > 0 && t[0] == '#' {
            before.push(t)
        } else {
            before
        }
    }
}

proof fn lemma_comments_add(a: Seq<Seq<char>>, b: Seq<Seq<char>>)
    ensures
        comment_texts(a + b) == comment_texts(a) + comment_texts(b),
    decreases b.len(),
{
    if b.len() == 0 {
        assert(a + b =~= a);
        assert(comment_texts(a) + comment_texts(b) =~= comment_texts(a));
    } else {
        assert((a + b).drop_last() =~= a + b.drop_last());
        assert((a + b).last() == b.last());
        lemma_comments_add(a, b.drop_last());
        assert(comment_texts(a + b) =~= comment_texts(a) + comment_texts(b));
    }
}

proof fn lemma_comments_without_crs(ls: Seq<Seq<char>>)
    ensures
        comment_texts(without_crs(ls)) == comment_texts(ls),
    decreases ls.len(),
{
    if ls.len() > 0 {
        lemma_comments_without_crs(ls.drop_last());
        assert(without_crs(ls).drop_last() =~= without_crs(ls.drop_last()));
        lemma_trim_without_cr(ls.last());
    }
}

proof fn lemma_comments_of_comments(ls: Seq<Seq<char>>)
    ensures
        comment_texts(comments_of(ls)) == comment_texts(ls),
    decreases ls.len(),
{
    if ls.len() > 0 {
        let before = comments_of(ls.drop_last());
        lemma_comments_of_comments(ls.drop_last());
        if comments_of(ls).len() > before.len() {
            assert(comments_of(ls).drop_last() =~= before);
        }
    }
}

proof fn lemma_comments_of_join(ls: Seq<Seq<char>>)
    requires
        no_feeds(ls),
    ensures
        comment_texts(lines_of(join_of(ls, "\n"@))) == comment_texts(ls),
    decreases ls.len(),
{
    if ls.len() == 0 {
        assert(lines_of(join_of(ls, "\n"@)) =~= ls);
    } else if ls.len() == 1 {
        let l = ls[0];
        assert(!l.contains('\n'));
        crate::text::lemma_find_char(l, '\n');
        assert(ls =~= seq![l]);
        lemma_comment_line(l);
    } else {
        lemma_rest_no_feeds(ls);
        let rest = ls.skip(1);
        lemma_join_front(ls, "\n"@);
        lemma_comments_of_join(rest);
        let t = join_of(rest, "\n"@);
        lemma_lines_cons(ls[0], t);
        lemma_comments_add(seq![without_cr(ls[0])], lines_of(t));
        lemma_comment_line(ls[0]);
        lemma_comments_add(seq![ls[0]], rest);
        assert(seq![ls[0]] + rest =~= ls);
    }
}

proof fn lemma_comment_line(l: Seq<char>)
    ensures
        comment_texts(seq![l]) == (if trim_of(l).len() > 0 && trim_of(l)[0] == '#' {
            seq![trim_of(l)]
        } else {
            Seq::empty()
        }),
        comment_texts(seq![without_cr(l)]) == comment_texts(seq![l]),
{
    let none = Seq::<Seq<char>>::empty();
    lemma_trim_without_cr(l);
    assert(seq![l].drop_last() =~= none);
    assert(seq![without_cr(l)].drop_last() =~= none);
    assert(comment_texts(none) =~= none);
    assert(none.push(trim_of(l)) =~= seq![trim_of(l)]);
}

/// A text written from lines has the comments of the lines.
proof fn lemma_comments_of_text(ls: Seq<Seq<char>>)
    requires
        no_feeds(ls),
    ensures
        comment_texts(lines_of(text_of(ls))) == comment_texts(ls),
{
    let t = join_of(ls, "\n"@);
    if "\n"@.is_suffix_of(t) {
        lemma_comments_of_join(ls);
    } else if ls.len() == 0 {
        lemma_lines_cons(Seq::empty(), Seq::empty());
        assert(Seq::<char>::empty() + "\n"@ + Seq::<char>::empty() =~= t + "\n"@);
        lemma_comment_line(Seq::empty());
        assert(seq![Seq::<char>::empty()] + Seq::<Seq<char>>::empty() =~= seq![
            Seq::<char>::empty(),
        ]);
    } else {
        lemma_lines_of_join_feed(ls);
        lemma_comments_without_crs(ls);
    }
}

/// The comments of a file behind an enabling are the user's.
proof fn lemma_comments_enabled(ls: Seq<Seq<char>>, m: Seq<char>)
    ensures
        comment_texts(enabled_lines(ls, m)) == comment_texts(kept(ls, m)),
{
    let k = kept(ls, m);
    if rows_of(k).len() == 0 {
        let gap = if k.len() > 0 {
            seq![Seq::<char>::empty()]
        } else {
            Seq::<Seq<char>>::empty()
        };
        reveal_strlit("[]");
        lemma_untrimmed("[]"@, Strip::Space);
        lemma_comment_line("[]"@);
        lemma_comment_line(Seq::empty());
        lemma_comments_add(k + gap, seq!["[]"@]);
        lemma_comments_add(k, gap);
        assert(comment_texts(k) + comment_texts(gap) + comment_texts(seq!["[]"@])
            =~= comment_texts(k));
    }
}

/// The user's comments survive a disabling and the enabling behind it, all of them and in their
/// order.
pub proof fn law_comments_survive(content: Seq<char>, name: Seq<char>, ids: Seq<Seq<char>>)
    requires
        !name.contains('\n'),
        no_feeds(ids),
        forall|i: int|
            0 <= i < needed_of(lines_of(content), marker_of(name), ids).len() ==> starts_entry(
                #[trigger] needed_of(lines_of(content), marker_of(name), ids)[i],
            ),
    ensures
        ({
            let ls = lines_of(content);
            let m = marker_of(name);
            let back = file_after(file_after(content, name, ids, false), name, ids, true);
            &&& comment_texts(lines_of(back)) == comment_texts(kept(ls, m))
            &&& !marked(ls, m) ==> comment_texts(lines_of(back)) == comment_texts(ls)
        }),
{
    let m = marker_of(name);
    let ls = lines_of(content);
    let user = kept(ls, m);
    let base = base_of(ls, m);
    let add = needed_of(ls, m, ids);
    let mid = file_after(content, name, ids, false);
    lemma_marker(name);
    lemma_base(content, m);
    lemma_comments_of_comments(user);
    assert(comment_texts(base) == comment_texts(user));
    if !marked(ls, m) {
        lemma_unmarked_kept(ls, 0, m);
        assert(ls.skip(0) =~= ls);
    }
    if settled(ls, m, ids) {
        lemma_settled_marked(ls, m, ids);
        lemma_comments_enabled(ls, m);
        lemma_enabled_lines(ls, m);
        lemma_comments_of_text(enabled_lines(ls, m));
    } else if add.len() == 0 {
        lemma_text_marked(base, m);
        lemma_comments_of_text(base);
    } else {
        lemma_written(content, name, ids);
        let mls = lines_of(mid);
        let gap = gap_of(base);
        lemma_base(mid, m);
        lemma_comments_enabled(mls, m);
        lemma_enabled_lines(mls, m);
        lemma_comments_of_text(enabled_lines(mls, m));
        lemma_comments_without_crs(base + gap);
        lemma_comments_add(base, gap);
        lemma_comment_line(Seq::empty());
        assert(comment_texts(base) + comment_texts(gap) =~= comment_texts(base));
    }
}

/// Whether no line ends with a carriage return.
pub open spec fn no_crs(ls: Seq<Seq<char>>) -> bool {
    forall|i: int| 0 <= i < ls.len() ==> without_cr(#[trigger] ls[i]) == ls[i]
}

proof fn lemma_marks_shift(a: Seq<Seq<char>>, b: Seq<Seq<char>>, i: int, m: Seq<char>)
    requires
        0 <= i,
    ensures
        marks_from(a + b, a.len() + i, m) == marks_from(b, i, m),
    decreases b.len() - i,
{
    let all = a + b;
    if i < b.len() {
        assert(all[a.len() + i] == b[i]);
        if i + 2 < b.len() {
            assert(all[a.len() + i + 1] == b[i + 1]);
            assert(all[a.len() + i + 2] == b[i + 2]);
        }
        if trim_of(b[i]) == m && own_block(b, i) {
            lemma_marks_shift(a, b, i + 3, m);
        } else {
            lemma_marks_shift(a, b, i + 1, m);
        }
    }
}

proof fn lemma_marks_behind_unmarked(a: Seq<Seq<char>>, b: Seq<Seq<char>>, i: int, m: Seq<char>)
    requires
        !marked(a, m),
        0 <= i <= a.len(),
    ensures
        marks_from(a + b, i, m) == marks_from(b, 0, m),
    decreases a.len() - i,
{
    if i == a.len() {
        lemma_marks_shift(a, b, 0, m);
    } else {
        assert((a + b)[i] == a[i]);
        assert(trim_of(a[i]) != m);
        lemma_marks_behind_unmarked(a, b, i + 1, m);
    }
}

proof fn lemma_marks_without_crs(ls: Seq<Seq<char>>, i: int, m: Seq<char>)
    requires
        0 <= i,
    ensures
        marks_from(without_crs(ls), i, m) == marks_from(ls, i, m),
    decreases ls.len() - i,
{
    if i < ls.len() {
        lemma_trim_without_cr(ls[i]);
        if i + 2 < ls.len() {
            lemma_trim_without_cr(ls[i + 1]);
            lemma_trim_without_cr(ls[i + 2]);
        }
        if trim_of(ls[i]) == m && own_block(ls, i) {
            lemma_marks_without_crs(ls, i + 3, m);
        } else {
            lemma_marks_without_crs(ls, i + 1, m);
        }
    }
}

proof fn lemma_marks_blocks(ids: Seq<Seq<char>>, k: int, m: Seq<char>)
    requires
        trim_of(m) == m,
        forall|i: int| 0 <= i < ids.len() ==> reads_back(#[trigger] ids[i]),
        0 <= k <= ids.len(),
    ensures
        marks_from(blocks_of(ids, m), 3 * k, m) == Seq::new(
            (ids.len() - k) as nat,
            |i: int| Some(ids[k + i]),
        ),
    decreases ids.len() - k,
{
    lemma_blocks_len(ids, m);
    let want = Seq::new((ids.len() - k) as nat, |i: int| Some(ids[k + i]));
    if k < ids.len() {
        lemma_blocks_at(ids, m, k);
        lemma_disabled_line();
        assert(reads_back(ids[k]));
        lemma_marks_blocks(ids, k + 1, m);
        assert(want =~= seq![Some(ids[k])] + Seq::new(
            (ids.len() - (k + 1)) as nat,
            |i: int| Some(ids[k + 1 + i]),
        ));
    } else {
        assert(want =~= Seq::empty());
    }
}

proof fn lemma_nothing_missing(ids: Seq<Seq<char>>, off: Seq<Seq<char>>)
    requires
        forall|id: Seq<char>| #[trigger] ids.contains(id) ==> off.contains(id),
    ensures
        missing_of(ids, off).len() == 0,
{
    let x = missing_of(ids, off);
    if x.len() > 0 {
        assert(x.contains(x[0]));
        lemma_missing(ids, off, x[0]);
    }
}

/// What a disabling would write is the same behind a disabling.
proof fn lemma_needed_again(content: Seq<char>, name: Seq<char>, ids: Seq<Seq<char>>)
    requires
        !name.contains('\n'),
        no_feeds(ids),
        forall|i: int|
            0 <= i < needed_of(lines_of(content), marker_of(name), ids).len() ==> starts_entry(
                #[trigger] needed_of(lines_of(content), marker_of(name), ids)[i],
            ),
    ensures
        ({
            let m = marker_of(name);
            let ls = lines_of(content);
            let written = lines_of(text_of(disabled_lines(ls, m, ids)));
            &&& needed_of(written, m, ids) == needed_of(ls, m, ids)
            &&& needed_of(ls, m, ids).len() > 0 && no_entries(kept(written, m)) ==> no_entries(
                kept(ls, m),
            ) && rows_of(kept(written, m)).len() == 0
        }),
{
    let m = marker_of(name);
    let ls = lines_of(content);
    let base = base_of(ls, m);
    let add = needed_of(ls, m, ids);
    let out = disabled_lines(ls, m, ids);
    let text = text_of(out);
    let written = lines_of(text);
    let k = kept(written, m);
    lemma_marker(name);
    lemma_base(content, m);
    lemma_base(text, m);
    lemma_disabled_lines(content, name, ids);
    if add.len() == 0 {
        lemma_text_marked(base, m);
        lemma_unmarked_kept(written, 0, m);
        assert(written.skip(0) =~= written);
        lemma_rows_of_text(base);
    } else {
        lemma_written(content, name, ids);
    }
    assert(rows_of(k) == rows_of(base));
    if no_entries(k) {
        if ids.len() == 0 {
            assert(needed_of(written, m, ids) =~= add);
        } else {
            assert(rows_of(base_of(written, m)).len() == 0);
            if no_entries(kept(ls, m)) {
                assert(rows_of(base) =~= rows_of(base_of(written, m)));
            } else {
                assert(base == kept(ls, m));
                assert forall|i: int| 0 <= i < rows_of(base).len() implies ({
                    let t = (#[trigger] rows_of(base)[i]).1;
                    t == "[]"@ || t == "---"@
                }) by {
                    assert(rows_of(k)[i] == rows_of(base)[i]);
                }
            }
        }
    }
    lemma_rows_of_join(base);
    lemma_rows_of_join(base_of(written, m));
}

/// A second disabling has nothing left to do. The lines that the launcher writes must be read as
/// entries; where one is read as the entry of another id, no line may end with a carriage return
/// beside that of its end.
pub proof fn law_disabling_twice(content: Seq<char>, name: Seq<char>, ids: Seq<Seq<char>>)
    requires
        !name.contains('\n'),
        no_feeds(ids),
        forall|i: int|
            0 <= i < needed_of(lines_of(content), marker_of(name), ids).len() ==> starts_entry(
                #[trigger] needed_of(lines_of(content), marker_of(name), ids)[i],
            ),
        (forall|i: int|
            0 <= i < needed_of(lines_of(content), marker_of(name), ids).len() ==> reads_back(
                #[trigger] needed_of(lines_of(content), marker_of(name), ids)[i],
            )) || (no_crs(lines_of(content)) && no_crs(ids)),
    ensures
        managed(file_after(content, name, ids, false), name, ids, false) is None,
{
    let m = marker_of(name);
    let ls = lines_of(content);
    let base = base_of(ls, m);
    let add = needed_of(ls, m, ids);
    let out = disabled_lines(ls, m, ids);
    let text = text_of(out);
    let written = lines_of(text);
    if managed(content, name, ids, false) is Some {
        lemma_marker(name);
        lemma_base(content, m);
        lemma_disabled_lines(content, name, ids);
        lemma_needed_again(content, name, ids);
        if add.len() == 0 {
            lemma_text_marked(base, m);
            lemma_marks(written, 0, m);
            lemma_rows_of_text(base);
            assert(marks_from(written, 0, m) =~= Seq::new(add.len(), |k: int| Some(add[k])));
            assert forall|id: Seq<char>| #[trigger] ids.contains(id) implies off_ids(
                text,
            ).contains(id) by {
                assert(!add.contains(id));
            }
            lemma_nothing_missing(ids, off_ids(text));
        } else if forall|i: int| 0 <= i < add.len() ==> reads_back(#[trigger] add[i]) {
            let front = base + gap_of(base);
            lemma_written(content, name, ids);
            lemma_marks_without_crs(out, 0, m);
            lemma_marks_behind_unmarked(front, blocks_of(add, m), 0, m);
            lemma_marks_blocks(add, 0, m);
            assert(marks_from(written, 0, m) =~= Seq::new(add.len(), |k: int| Some(add[k])));
            assert forall|id: Seq<char>| #[trigger] ids.contains(id) implies off_ids(
                text,
            ).contains(id) by {
                if add.contains(id) {
                    let k = choose|k: int| 0 <= k < add.len() && add[k] == id;
                    assert(reads_back(add[k]));
                }
                law_disabling_disables(content, name, ids, id);
            }
            lemma_nothing_missing(ids, off_ids(text));
        } else {
            lemma_same_text_again(content, name, ids);
        }
    }
}

proof fn lemma_comments_gap(ls: Seq<Seq<char>>)
    ensures
        comments_of(comments_of(ls)) == comments_of(ls),
        comments_of(comments_of(ls) + gap_of(comments_of(ls))) == comments_of(ls),
    decreases ls.len(),
{
    let c = comments_of(ls);
    if ls.len() > 0 {
        let before = comments_of(ls.drop_last());
        lemma_comments_gap(ls.drop_last());
        if c.len() > before.len() {
            assert(c.drop_last() =~= before);
        }
    }
    let g = gap_of(c);
    if g.len() > 0 {
        let w = c + g;
        assert(g =~= seq![Seq::<char>::empty()]);
        assert(w.drop_last() =~= c);
        assert(trim_of(Seq::<char>::empty()).len() == 0);
        assert(w.last() == Seq::<char>::empty());
        assert(comments_of(w) == comments_of(c));
    } else {
        assert(c + g =~= c);
    }
}

/// Without stray carriage returns a second disabling writes the same text.
proof fn lemma_same_text_again(content: Seq<char>, name: Seq<char>, ids: Seq<Seq<char>>)
    requires
        !name.contains('\n'),
        no_feeds(ids),
        needed_of(lines_of(content), marker_of(name), ids).len() > 0,
        forall|i: int|
            0 <= i < needed_of(lines_of(content), marker_of(name), ids).len() ==> starts_entry(
                #[trigger] needed_of(lines_of(content), marker_of(name), ids)[i],
            ),
        no_crs(lines_of(content)),
        no_crs(ids),
    ensures
        ({
            let m = marker_of(name);
            let out = disabled_lines(lines_of(content), m, ids);
            disabled_lines(lines_of(text_of(out)), m, ids) == out
        }),
{
    let m = marker_of(name);
    let ls = lines_of(content);
    let user = kept(ls, m);
    let base = base_of(ls, m);
    let gap = gap_of(base);
    let add = needed_of(ls, m, ids);
    let blocks = blocks_of(add, m);
    let front = base + gap;
    let out = disabled_lines(ls, m, ids);
    let written = lines_of(text_of(out));
    lemma_marker(name);
    lemma_base(content, m);
    lemma_disabled_lines(content, name, ids);
    lemma_written(content, name, ids);
    lemma_needed_again(content, name, ids);
    lemma_kept_part(ls, 0, m);
    lemma_comments_part(user);
    assert forall|i: int| 0 <= i < front.len() implies without_cr(#[trigger] front[i]) == front[i] by {
        if i < base.len() {
            assert(front[i] == base[i]);
            if no_entries(user) {
                assert(user.contains(base[i]));
                let k = choose|k: int| 0 <= k < user.len() && user[k] == base[i];
                assert(ls.contains(user[k]));
            } else {
                assert(ls.contains(user[i]));
            }
            let j = choose|j: int| 0 <= j < ls.len() && ls[j] == base[i];
            assert(without_cr(ls[j]) == ls[j]);
        }
    }
    assert(without_crs(front) =~= front);
    lemma_comments_gap(user);
    let again = base_of(written, m);
    if no_entries(user) {
        lemma_comments_part(user);
        assert(rows_of(kept(written, m)).len() == 0);
        assert(again =~= base);
    } else {
        assert(!no_entries(front)) by {
            if no_entries(front) {
                assert(no_entries(kept(written, m)));
            }
        }
        assert(again == front);
        if gap.len() > 0 {
            assert(front.last() == Seq::<char>::empty());
        } else {
            assert(front =~= base);
        }
        assert(gap_of(front) =~= Seq::empty());
        assert(front + gap_of(front) =~= front);
    }
}

/// The rows of a patch file without the launcher's blocks for `name`; none where they are no more
/// than `[]` and `---`.
pub open spec fn user_rows(content: Seq<char>, name: Seq<char>) -> Seq<(int, Seq<char>)> {
    let r = rows_of(kept(lines_of(content), marker_of(name)));
    if forall|i: int| 0 <= i < r.len() ==> (#[trigger] r[i]).1 == "[]"@ || r[i].1 == "---"@ {
        Seq::empty()
    } else {
        r
    }
}

proof fn lemma_user_rows(content: Seq<char>, name: Seq<char>)
    ensures
        rows_of(base_of(lines_of(content), marker_of(name))) == user_rows(content, name),
{
    let m = marker_of(name);
    let k = kept(lines_of(content), m);
    lemma_base(content, m);
    let r = rows_of(k);
    if no_entries(k) {
        assert forall|i: int| 0 <= i < r.len() implies (#[trigger] r[i]).1 == "[]"@ || r[i].1
            == "---"@ by {}
        assert(rows_of(base_of(lines_of(content), m)) =~= Seq::empty());
    } else {
        assert(!(forall|i: int|
            0 <= i < r.len() ==> (#[trigger] r[i]).1 == "[]"@ || r[i].1 == "---"@)) by {
            if forall|i: int|
                0 <= i < r.len() ==> (#[trigger] r[i]).1 == "[]"@ || r[i].1 == "---"@ {
                assert forall|i: int| 0 <= i < rows_of(k).len() implies ({
                    let t = (#[trigger] rows_of(k)[i]).1;
                    t == "[]"@ || t == "---"@
                }) by {}
            }
        }
    }
}

/// A disabling that writes a file leaves what the user's lines say and puts one entry behind it for
/// each id that they do not disable, in the order of the ids, and no other. The entry names the id
/// and disables it.
pub proof fn law_disabling_writes_what_is_missing(
    content: Seq<char>,
    name: Seq<char>,
    ids: Seq<Seq<char>>,
    k: int,
)
    requires
        !name.contains('\n'),
        forall|i: int| 0 <= i < ids.len() ==> reads_back(#[trigger] ids[i]),
        managed(content, name, ids, false) is Some,
    ensures
        ({
            let user = user_rows(content, name);
            let add = missing_of(ids, disabled_ids(user));
            let now = rows_of(lines_of(managed(content, name, ids, false)->0));
            let n = user.len() as int;
            &&& now.len() == n + 2 * add.len()
            &&& now.take(n) == user
            &&& 0 <= k < add.len() ==> now[n + 2 * k].0 == 0 && entry_id(now[n + 2 * k].1) == Some(
                add[k],
            ) && now[n + 2 * k + 1].1 == "disabled: true"@
        }),
{
    let m = marker_of(name);
    let ls = lines_of(content);
    let base = base_of(ls, m);
    let user = user_rows(content, name);
    let add = needed_of(ls, m, ids);
    let out = disabled_lines(ls, m, ids);
    lemma_user_rows(content, name);
    lemma_base(content, m);
    lemma_rows_of_join(base);
    assert(add == missing_of(ids, disabled_ids(user)));
    assert(no_feeds(ids)) by {
        assert forall|i: int| 0 <= i < ids.len() implies !(#[trigger] ids[i]).contains('\n') by {
            assert(reads_back(ids[i]));
        }
    }
    lemma_marker(name);
    lemma_disabled_lines(content, name, ids);
    lemma_rows_of_text(out);
    lemma_blocks_rows_len(add, m);
    let now = rows_of(out);
    assert(now.take(user.len() as int) =~= user);
    if 0 <= k < add.len() {
        lemma_blocks_rows(add, m, k);
        assert(add.contains(add[k]));
        let j = choose|j: int| 0 <= j < ids.len() && ids[j] == add[k];
        assert(reads_back(ids[j]));
        let b = rows_of(blocks_of(add, m));
        assert(now[user.len() + 2 * k] == b[2 * k]);
        assert(now[user.len() + 2 * k + 1] == b[2 * k + 1]);
    }
}

proof fn lemma_unnamed_behind(
    all: Seq<(int, Seq<char>)>,
    n: int,
    add: Seq<Seq<char>>,
    j: int,
    x: Seq<char>,
)
    requires
        0 <= n,
        0 <= j <= add.len(),
        all.len() == n + 2 * add.len(),
        forall|k: int|
            0 <= k < add.len() ==> entry_id(#[trigger] all[n + 2 * k].1) == Some(add[k]) && all[n + 2
                * k + 1].1 == "disabled: true"@,
        !add.contains(x),
    ensures
        last_off(all, n + 2 * j, x) == last_off(all, n, x),
    decreases j,
{
    if j > 0 {
        lemma_disabled_line();
        let k = j - 1;
        assert(entry_id(all[n + 2 * k].1) == Some(add[k]));
        assert(add.contains(add[k]));
        assert(entry_at(all, n + 2 * k + 1) is None);
        assert(last_off(all, n + 2 * j, x) == last_off(all, n + 2 * j - 1, x));
        assert(entry_at(all, n + 2 * k) != Some(x));
        assert(last_off(all, n + 2 * k + 1, x) == last_off(all, n + 2 * k, x));
        lemma_unnamed_behind(all, n, add, j - 1, x);
    }
}

/// A disabling changes nothing for the ids of others: one that is none of the plugin's is disabled
/// behind it if and only if the user's lines disable it.
pub proof fn law_disabling_leaves_other_ids(
    content: Seq<char>,
    name: Seq<char>,
    ids: Seq<Seq<char>>,
    x: Seq<char>,
)
    requires
        !name.contains('\n'),
        forall|i: int| 0 <= i < ids.len() ==> reads_back(#[trigger] ids[i]),
        managed(content, name, ids, false) is Some,
        !ids.contains(x),
    ensures
        off_ids(managed(content, name, ids, false)->0).contains(x) <==> disabled_ids(
            user_rows(content, name),
        ).contains(x),
{
    let t = managed(content, name, ids, false)->0;
    let user = user_rows(content, name);
    let add = missing_of(ids, disabled_ids(user));
    let all = rows_of(lines_of(t));
    let n = user.len() as int;
    law_disabling_writes_what_is_missing(content, name, ids, 0);
    assert forall|k: int| 0 <= k < add.len() implies entry_id(#[trigger] all[n + 2 * k].1) == Some(
        add[k],
    ) && all[n + 2 * k + 1].1 == "disabled: true"@ by {
        law_disabling_writes_what_is_missing(content, name, ids, k);
    }
    lemma_missing(ids, disabled_ids(user), x);
    lemma_unnamed_behind(all, n, add, add.len() as int, x);
    law_last_entry_decides(all, x);
    law_last_entry_decides(user, x);
    if add.len() > 0 {
        assert forall|i: int| 0 <= i < user.len() implies (#[trigger] user[i]).0 >= 0 by {
            lemma_indents(kept(lines_of(content), marker_of(name)), i);
        }
        let h = all[n].1;
        assert(entry_id(all[n + 2 * 0].1) == Some(add[0]));
        reveal_strlit("- id:");
        reveal_strlit("-");
        assert("- id:"@.is_prefix_of(h));
        assert(h.subrange(0, 1) =~= "-"@) by {
            assert(h.subrange(0, 5)[0] == "- id:"@[0]);
        }
        lemma_before_entry(user, all, n, x);
    } else {
        assert(all =~= user);
    }
}

/// Of a list of ids those stay that the other list does not hold, in their order.
pub proof fn law_missing_ids_one_by_one(
    a: Seq<Seq<char>>,
    x: Seq<char>,
    b: Seq<Seq<char>>,
    off: Seq<Seq<char>>,
)
    ensures
        missing_of(a + b, off) == missing_of(a, off) + missing_of(b, off),
        missing_of(seq![x], off) == if off.contains(x) {
            Seq::empty()
        } else {
            seq![x]
        },
    decreases b.len(),
{
    let none = Seq::<Seq<char>>::empty();
    assert(missing_of(none, off) =~= none);
    assert(seq![x].drop_last() =~= none);
    assert(none.push(x) =~= seq![x]);
    if b.len() == 0 {
        assert(a + b =~= a);
        assert(missing_of(a, off) + missing_of(b, off) =~= missing_of(a, off));
    } else {
        assert((a + b).drop_last() =~= a + b.drop_last());
        law_missing_ids_one_by_one(a, x, b.drop_last(), off);
        assert(missing_of(a + b, off) =~= missing_of(a, off) + missing_of(b, off));
    }
}

/// Enabling changes a file if and only if one of its lines is the launcher's marker for the plugin,
/// whatever its ids are. Whatever is written ends with a line feed.
pub proof fn law_enabling_looks_for_the_marker(
    content: Seq<char>,
    name: Seq<char>,
    ids: Seq<Seq<char>>,
    enable: bool,
)
    ensures
        managed(content, name, ids, true) is Some <==> exists|i: int|
            0 <= i < lines_of(content).len() && trim_of(#[trigger] lines_of(content)[i])
                == "# --- 由 DSH 启动器管理：禁用 "@ + name + " ---"@,
        managed(content, name, ids, enable) is Some ==> managed(
            content,
            name,
            ids,
            enable,
        )->0.len() > 0 && managed(content, name, ids, enable)->0.last() == '\n',
        managed(content, name, ids, false) is Some ==> managed(content, name, ids, false)->0
            != content,
{
    reveal_strlit("\n");
    let ls = lines_of(content);
    let m = marker_of(name);
    let out = if enable {
        enabled_lines(ls, m)
    } else {
        disabled_lines(ls, m, ids)
    };
    let t = join_of(out, "\n"@);
    if "\n"@.is_suffix_of(t) {
        assert(t.subrange(t.len() - 1, t.len() as int)[0] == t.last());
    }
}

/// The lines that a disabling writes: the user's lines as they are, but for a file without entries,
/// of which the comments stay; an empty line where the last of them says something; and for each
/// entry the marker, the line with the id and the line that disables.
pub proof fn law_lines_of_a_disabling(
    content: Seq<char>,
    name: Seq<char>,
    ids: Seq<Seq<char>>,
    k: int,
)
    requires
        !name.contains('\n'),
        forall|i: int| 0 <= i < ids.len() ==> reads_back(#[trigger] ids[i]),
        managed(content, name, ids, false) is Some,
        missing_of(ids, disabled_ids(user_rows(content, name))).len() > 0,
    ensures
        ({
            let user = kept(lines_of(content), marker_of(name));
            let add = missing_of(ids, disabled_ids(user_rows(content, name)));
            let now = lines_of(managed(content, name, ids, false)->0);
            let n = now.len() - 3 * add.len();
            &&& n >= 0
            &&& 0 <= k < add.len() ==> {
                &&& trim_of(now[n + 3 * k]) == "# --- 由 DSH 启动器管理：禁用 "@ + name + " ---"@
                &&& trim_of(now[n + 3 * k + 1]) == trim_of("- id: "@ + add[k])
                &&& now[n + 3 * k + 2] == "  disabled: true"@
            }
            &&& user_rows(content, name).len() > 0 ==> {
                &&& n == user.len() || (n == user.len() + 1 && now[user.len() as int].len() == 0)
                &&& n == user.len() + 1 <==> trim_of(user.last()).len() > 0
                &&& forall|i: int| 0 <= i < user.len() ==> #[trigger] now[i] == without_cr(user[i])
            }
        }),
{
    let m = marker_of(name);
    let ls = lines_of(content);
    let base = base_of(ls, m);
    let user = kept(ls, m);
    let add = needed_of(ls, m, ids);
    let gap = gap_of(base);
    let blocks = blocks_of(add, m);
    let out = disabled_lines(ls, m, ids);
    lemma_user_rows(content, name);
    lemma_base(content, m);
    lemma_rows_of_join(base);
    assert(add == missing_of(ids, disabled_ids(user_rows(content, name))));
    assert(no_feeds(ids)) by {
        assert forall|i: int| 0 <= i < ids.len() implies !(#[trigger] ids[i]).contains('\n') by {
            assert(reads_back(ids[i]));
        }
    }
    lemma_marker(name);
    lemma_disabled_lines(content, name, ids);
    lemma_text_of_blocks(base + gap, add, m);
    let now = lines_of(text_of(out));
    lemma_blocks_len(add, m);
    let n = (base.len() + gap.len()) as int;
    assert(now == without_crs(out));
    if 0 <= k < add.len() {
        lemma_blocks_at(add, m, k);
        assert(out[n + 3 * k] == blocks[3 * k]);
        assert(out[n + 3 * k + 1] == blocks[3 * k + 1]);
        assert(out[n + 3 * k + 2] == blocks[3 * k + 2]);
        lemma_trim_without_cr(m);
        lemma_trim_without_cr(id_line(add[k]));
        reveal_strlit("  disabled: true");
        assert(without_cr("  disabled: true"@) == "  disabled: true"@);
    }
    if user_rows(content, name).len() > 0 {
        assert(base == user);
        assert(user.len() > 0) by {
            if user.len() == 0 {
                assert(rows_of(user).len() == 0);
            }
        }
        assert forall|i: int| 0 <= i < user.len() implies #[trigger] now[i] == without_cr(user[i]) by {
            assert(out[i] == base[i]);
        }
        if gap.len() > 0 {
            assert(out[user.len() as int] == gap[0]);
        }
    }
}

/// The lines that an enabling writes are the user's lines as they are. Where these say nothing, an
/// empty list follows them, behind an empty line if there are any.
pub proof fn law_lines_of_an_enabling(content: Seq<char>, name: Seq<char>, ids: Seq<Seq<char>>)
    requires
        managed(content, name, ids, true) is Some,
    ensures
        ({
            let user = kept(lines_of(content), marker_of(name));
            let now = lines_of(managed(content, name, ids, true)->0);
            &&& rows_of(user).len() > 0 && user.last().len() > 0 ==> now == without_crs(user)
            &&& rows_of(user).len() == 0 && user.len() > 0 ==> now == without_crs(user) + seq![
                Seq::<char>::empty(),
                "[]"@,
            ]
            &&& user.len() == 0 ==> now == seq!["[]"@]
        }),
{
    let m = marker_of(name);
    let ls = lines_of(content);
    let user = kept(ls, m);
    let out = enabled_lines(ls, m);
    lemma_base(content, m);
    reveal_strlit("[]");
    reveal_strlit("\n");
    let none = Seq::<char>::empty();
    if rows_of(user).len() > 0 && user.last().len() > 0 {
        assert(user.len() > 0) by {
            if user.len() == 0 {
                assert(rows_of(user).len() == 0);
            }
        }
        assert(!user[user.len() - 1].contains('\n'));
        lemma_feed_at_the_end(user);
        lemma_lines_of_join_feed(user);
    }
    if rows_of(user).len() == 0 {
        let tail = if user.len() > 0 {
            seq![none, "[]"@]
        } else {
            seq!["[]"@]
        };
        assert(out =~= user + tail);
        assert(no_feeds(out)) by {
            assert forall|i: int| 0 <= i < out.len() implies !(#[trigger] out[i]).contains('\n') by {
                if i < user.len() {
                    assert(out[i] == user[i]);
                } else {
                    assert(out[i] == tail[i - user.len()]);
                }
            }
        }
        assert(out.last() == "[]"@);
        lemma_feed_at_the_end(out);
        lemma_lines_of_join_feed(out);
        assert(without_crs(out) =~= without_crs(user) + tail);
        if user.len() == 0 {
            assert(without_crs(user) + tail =~= tail);
        }
    } else if user.len() == 0 {
        assert(rows_of(user).len() == 0);
    }
}

proof fn lemma_feed_at_the_end(ls: Seq<Seq<char>>)
    requires
        ls.len() > 0,
        ls.last().len() > 0,
        !ls.last().contains('\n'),
    ensures
        text_of(ls) == join_of(ls, "\n"@) + "\n"@,
{
    reveal_strlit("\n");
    let t = join_of(ls, "\n"@);
    let l = ls.last();
    assert(t.len() > 0 && t.last() == l.last());
    assert(l[l.len() - 1] == l.last());
    assert(t.last() != '\n');
    if "\n"@.is_suffix_of(t) {
        assert(t.subrange(t.len() - 1, t.len() as int)[0] == t.last());
    }
}

} // verus!
