//! The part of a `cordis.patch.yml` that the launcher reads and writes.
//!
//! A patch file is a list of entries. The launcher reads which ids a bundle inserts and which ids
//! a profile disables, and it writes disabling blocks of its own, each under a marker comment, so
//! that it can take them out again without touching what the user wrote.

use crate::text::{
    chars_of, drop_both, indent, indent_of, join, join_of, lines, lines_of, lower, lower_of,
    opt_view, same, starts, strip_both, trim, trim_of, views, without_prefix, Strip,
};
use vstd::prelude::*;

verus! {

/// Where a scan of a YAML value stands.
#[derive(Clone, Copy)]
pub enum Scan {
    /// Outside quotation marks.
    Plain,
    /// Inside single quotation marks.
    Single,
    /// Inside double quotation marks.
    Double,
    /// Behind a backslash inside double quotation marks.
    Escape,
}

/// Where the scan stands behind `c`.
pub open spec fn scan_next(st: Scan, c: char) -> Scan {
    match st {
        Scan::Plain => if c == '\'' {
            Scan::Single
        } else if c == '"' {
            Scan::Double
        } else {
            Scan::Plain
        },
        Scan::Single => if c == '\'' {
            Scan::Plain
        } else {
            Scan::Single
        },
        Scan::Double => if c == '\\' {
            Scan::Escape
        } else if c == '"' {
            Scan::Plain
        } else {
            Scan::Double
        },
        Scan::Escape => Scan::Double,
    }
}

/// Whether a comment starts at `i`: a `#` that starts the value or follows white space.
pub open spec fn hash_at(v: Seq<char>, i: int) -> bool {
    v[i] == '#' && (i == 0 || crate::text::is_space(v[i - 1]))
}

/// Where the first comment outside quotation marks starts at or behind `i`, or the end of `v`.
pub open spec fn comment_at(v: Seq<char>, i: int, st: Scan) -> int
    decreases v.len() - i,
{
    if i >= v.len() {
        v.len() as int
    } else if st is Plain && hash_at(v, i) {
        i
    } else {
        comment_at(v, i + 1, scan_next(st, v[i]))
    }
}

/// A YAML value without its comment.
pub open spec fn uncommented(v: Seq<char>) -> Seq<char> {
    v.take(comment_at(v, 0, Scan::Plain))
}

/// A YAML value without its comment; a `#` between quotation marks is none.
pub fn strip_yaml_comment(value: &str) -> (r: &str)
    ensures
        r@ == uncommented(value@),
{
    let cs = chars_of(value);
    let mut st = Scan::Plain;
    let mut i: usize = 0;
    while i < cs.len()
        invariant
            cs@ == value@,
            i <= cs@.len(),
            comment_at(value@, 0, Scan::Plain) == comment_at(value@, i as int, st),
        decreases cs@.len() - i,
    {
        let c = cs[i];
        let next = match st {
            Scan::Plain => {
                if c == '#' && (i == 0 || crate::text::white_space(cs[i - 1])) {
                    return value.substring_char(0, i);
                }
                if c == '\'' {
                    Scan::Single
                } else if c == '"' {
                    Scan::Double
                } else {
                    Scan::Plain
                }
            },
            Scan::Single => if c == '\'' {
                Scan::Plain
            } else {
                Scan::Single
            },
            Scan::Double => if c == '\\' {
                Scan::Escape
            } else if c == '"' {
                Scan::Plain
            } else {
                Scan::Double
            },
            Scan::Escape => Scan::Double,
        };
        st = next;
        i += 1;
    }
    proof {
        assert(value@.take(value@.len() as int) =~= value@);
    }
    value
}

/// A YAML scalar behind its key: without comment, surrounding space and quotation marks.
pub open spec fn scalar_of(rest: Seq<char>) -> Seq<char> {
    drop_both(trim_of(uncommented(rest)), Strip::Quote)
}

fn scalar(rest: &str) -> (r: &str)
    ensures
        r@ == scalar_of(rest@),
{
    strip_both(trim(strip_yaml_comment(rest)), Strip::Quote)
}

/// The id of a trimmed line `- id: <value>`.
pub open spec fn entry_id(line: Seq<char>) -> Option<Seq<char>> {
    if "- id:"@.is_prefix_of(line) {
        let id = scalar_of(line.skip("- id:"@.len() as int));
        if id.len() == 0 {
            None
        } else {
            Some(id)
        }
    } else {
        None
    }
}

/// Whether a trimmed line is `disabled: <value>` with a true value.
pub open spec fn says_disabled(line: Seq<char>) -> bool {
    &&& "disabled:"@.is_prefix_of(line)
    &&& {
        let v = lower_of(scalar_of(line.skip("disabled:"@.len() as int)));
        v == "true"@ || v == "yes"@ || v == "on"@
    }
}

/// The id of a trimmed list item line `- id: <value>`.
///
/// White space behind the colon, quotation marks round the value and a comment are tolerated.
pub fn entry_id_of(trimmed_line: &str) -> (r: Option<String>)
    ensures
        opt_view(r) == entry_id(trimmed_line@),
{
    match without_prefix(trimmed_line, "- id:") {
        None => None,
        Some(rest) => {
            let id = scalar(rest);
            if id.is_empty() {
                None
            } else {
                Some(id.to_owned())
            }
        },
    }
}

/// Whether a trimmed line is `disabled:` with `true`, `yes` or `on`, in any case.
pub fn disabled_flag(trimmed_line: &str) -> (r: bool)
    ensures
        r == says_disabled(trimmed_line@),
{
    match without_prefix(trimmed_line, "disabled:") {
        None => false,
        Some(rest) => {
            let v = lower(scalar(rest));
            same(v.as_str(), "true") || same(v.as_str(), "yes") || same(v.as_str(), "on")
        },
    }
}

/// Whether a trimmed line says something: it is neither empty nor a comment.
pub open spec fn says(t: Seq<char>) -> bool {
    t.len() > 0 && t[0] != '#'
}

fn line_says(t: &str) -> (r: bool)
    ensures
        r == says(t@),
{
    !t.is_empty() && t.get_char(0) != '#'
}

/// The lines that say something, each with its indentation and its trimmed text.
pub open spec fn rows_of(ls: Seq<Seq<char>>) -> Seq<(int, Seq<char>)>
    decreases ls.len(),
{
    if ls.len() == 0 {
        Seq::empty()
    } else {
        let before = rows_of(ls.drop_last());
        let t = trim_of(ls.last());
        if says(t) {
            before.push((indent_of(ls.last()), t))
        } else {
            before
        }
    }
}

/// A line that says something.
pub struct Row {
    /// How many bytes of white space stand before the text.
    pub indent: usize,
    /// The trimmed text.
    pub text: String,
}

/// The views of a list of rows.
pub open spec fn row_views(v: Seq<Row>) -> Seq<(int, Seq<char>)> {
    Seq::new(v.len(), |i: int| (v[i].indent as int, v[i].text@))
}

fn rows(ls: &Vec<String>) -> (r: Vec<Row>)
    ensures
        row_views(r@) == rows_of(views(ls@)),
{
    let mut out: Vec<Row> = Vec::new();
    let mut i: usize = 0;
    proof {
        assert(row_views(out@) =~= Seq::empty());
    }
    while i < ls.len()
        invariant
            i <= ls@.len(),
            row_views(out@) == rows_of(views(ls@).take(i as int)),
        decreases ls@.len() - i,
    {
        let t = trim(ls[i].as_str());
        let ghost before = out@;
        let ghost next = views(ls@).take(i + 1);
        proof {
            assert(next.drop_last() =~= views(ls@).take(i as int));
            assert(next.last() == ls@[i as int]@);
        }
        if line_says(t) {
            out.push(Row { indent: indent(ls[i].as_str()), text: t.to_owned() });
            proof {
                assert(row_views(out@) =~= row_views(before).push(
                    (indent_of(next.last()), trim_of(next.last())),
                ));
            }
        }
        i += 1;
    }
    proof {
        assert(views(ls@).take(ls@.len() as int) =~= views(ls@));
    }
    out
}

/// Whether a trimmed line opens an `insert` block.
pub open spec fn opens_insert(t: Seq<char>) -> bool {
    "- insert:"@.is_prefix_of(t) || "insert:"@.is_prefix_of(t)
}

/// The ids inserted by `rows`, where `open` is the indentation of the insert block that is open.
///
/// A block holds the deeper indented lines that follow it.
pub open spec fn insert_ids(rows: Seq<(int, Seq<char>)>, open: Option<int>) -> Seq<Seq<char>>
    decreases rows.len(),
{
    if rows.len() == 0 {
        Seq::empty()
    } else {
        let (n, t) = rows[0];
        let rest = rows.skip(1);
        let reopened = if opens_insert(t) {
            Some(n)
        } else {
            None
        };
        match open {
            None => insert_ids(rest, reopened),
            Some(k) => if "- id:"@.is_prefix_of(t) && n > k {
                (match entry_id(t) {
                    Some(id) => seq![id],
                    None => Seq::empty(),
                }) + insert_ids(rest, open)
            } else if n <= k {
                insert_ids(rest, reopened)
            } else {
                insert_ids(rest, open)
            },
        }
    }
}

/// The ids that the `insert` blocks of a bundle's patch file declare.
pub fn extract_insert_ids(content: &str) -> (r: Vec<String>)
    ensures
        views(r@) == insert_ids(rows_of(lines_of(content@)), None),
{
    let ls = lines(content);
    let rs = rows(&ls);
    let mut ids: Vec<String> = Vec::new();
    let mut open: Option<usize> = None;
    let mut i: usize = 0;
    let ghost all = row_views(rs@);
    let ghost want = insert_ids(all, None);
    proof {
        assert(all.skip(0) =~= all);
        assert(views(ids@) + want =~= want);
    }
    while i < rs.len()
        invariant
            i <= rs@.len(),
            all == row_views(rs@),
            want == views(ids@) + insert_ids(
                all.skip(i as int),
                match open {
                    Some(k) => Some(k as int),
                    None => None,
                },
            ),
        decreases rs@.len() - i,
    {
        let t = rs[i].text.as_str();
        let n: usize = rs[i].indent;
        let ghost cur = all.skip(i as int);
        proof {
            assert(cur[0] == (n as int, t@));
            assert(cur.skip(1) =~= all.skip(i + 1));
        }
        let opens = starts(t, "- insert:") || starts(t, "insert:");
        match open {
            None => {
                open = if opens {
                    Some(n)
                } else {
                    None
                };
            },
            Some(k) => {
                if n > k && starts(t, "- id:") {
                    if let Some(id) = entry_id_of(t) {
                        let ghost before = ids@;
                        ids.push(id);
                        proof {
                            crate::text::lemma_views_push(before, ids@.last());
                            assert(views(before) + (seq![id@] + insert_ids(
                                all.skip(i + 1),
                                Some(k as int),
                            )) =~= views(ids@) + insert_ids(all.skip(i + 1), Some(k as int)));
                        }
                    } else {
                        proof {
                            assert(Seq::<Seq<char>>::empty() + insert_ids(
                                all.skip(i + 1),
                                Some(k as int),
                            ) =~= insert_ids(all.skip(i + 1), Some(k as int)));
                        }
                    }
                } else if n <= k {
                    open = if opens {
                        Some(n)
                    } else {
                        None
                    };
                }
            },
        }
        i += 1;
    }
    proof {
        assert(views(ids@) + Seq::<Seq<char>>::empty() =~= views(ids@));
    }
    ids
}

/// The id that the row `i` names.
pub open spec fn entry_at(rows: Seq<(int, Seq<char>)>, i: int) -> Option<Seq<char>> {
    entry_id(rows[i].1)
}

/// Whether a true `disabled:` stands at or behind `j`, before the entry with the indentation
/// `base` ends. It ends with the next list item that is not indented deeper.
pub open spec fn block_off(rows: Seq<(int, Seq<char>)>, j: int, base: int) -> bool
    decreases rows.len() - j,
{
    if j >= rows.len() {
        false
    } else {
        let (n, t) = rows[j];
        if "-"@.is_prefix_of(t) && n <= base {
            false
        } else {
            says_disabled(t) || block_off(rows, j + 1, base)
        }
    }
}

/// Whether the entry that starts with the row `i` is disabled.
pub open spec fn off_at(rows: Seq<(int, Seq<char>)>, i: int) -> bool {
    block_off(rows, i + 1, rows[i].0)
}

/// The ids that the first `n` rows name, in the order in which they first come.
pub open spec fn ids_upto(rows: Seq<(int, Seq<char>)>, n: int) -> Seq<Seq<char>>
    decreases n,
{
    if n <= 0 {
        Seq::empty()
    } else {
        let before = ids_upto(rows, n - 1);
        match entry_at(rows, n - 1) {
            Some(id) => if before.contains(id) {
                before
            } else {
                before.push(id)
            },
            None => before,
        }
    }
}

/// Whether the last entry for `id` in the first `n` rows is disabled.
pub open spec fn last_off(rows: Seq<(int, Seq<char>)>, n: int, id: Seq<char>) -> bool
    decreases n,
{
    if n <= 0 {
        false
    } else if entry_at(rows, n - 1) == Some(id) {
        off_at(rows, n - 1)
    } else {
        last_off(rows, n - 1, id)
    }
}

/// Those of `ids` whose last entry is disabled.
pub open spec fn still_off(rows: Seq<(int, Seq<char>)>, ids: Seq<Seq<char>>) -> Seq<Seq<char>>
    decreases ids.len(),
{
    if ids.len() == 0 {
        Seq::empty()
    } else {
        let before = still_off(rows, ids.drop_last());
        if last_off(rows, rows.len() as int, ids.last()) {
            before.push(ids.last())
        } else {
            before
        }
    }
}

/// The disabled ids: the last entry for an id decides.
pub open spec fn disabled_ids(rows: Seq<(int, Seq<char>)>) -> Seq<Seq<char>> {
    still_off(rows, ids_upto(rows, rows.len() as int))
}

fn block_disabled(rs: &Vec<Row>, from: usize, base: usize) -> (r: bool)
    requires
        from <= rs@.len(),
    ensures
        r == block_off(row_views(rs@), from as int, base as int),
{
    let mut j: usize = from;
    while j < rs.len()
        invariant
            j <= rs@.len(),
            block_off(row_views(rs@), from as int, base as int) == block_off(
                row_views(rs@),
                j as int,
                base as int,
            ),
        decreases rs@.len() - j,
    {
        let t = rs[j].text.as_str();
        proof {
            assert(row_views(rs@)[j as int] == (rs@[j as int].indent as int, t@));
        }
        if rs[j].indent <= base && starts(t, "-") {
            return false;
        }
        if disabled_flag(t) {
            return true;
        }
        j += 1;
    }
    false
}

fn position(v: &Vec<String>, x: &str) -> (r: Option<usize>)
    ensures
        match r {
            Some(i) => i < v@.len() && v@[i as int]@ == x@,
            None => !views(v@).contains(x@),
        },
{
    let mut i: usize = 0;
    while i < v.len()
        invariant
            i <= v@.len(),
            forall|j: int| 0 <= j < i ==> views(v@)[j] != x@,
        decreases v@.len() - i,
    {
        if same(v[i].as_str(), x) {
            return Some(i);
        }
        i += 1;
    }
    None
}

/// No id is named twice.
pub proof fn lemma_ids_unique(rows: Seq<(int, Seq<char>)>, n: int)
    ensures
        forall|a: int, b: int|
            0 <= a < b < ids_upto(rows, n).len() ==> ids_upto(rows, n)[a] != ids_upto(rows, n)[b],
    decreases n,
{
    if n > 0 {
        lemma_ids_unique(rows, n - 1);
        let before = ids_upto(rows, n - 1);
        let now = ids_upto(rows, n);
        assert forall|a: int, b: int| 0 <= a < b < now.len() implies now[a] != now[b] by {
            if b == before.len() {
                assert(before.contains(before[a]));
            }
        }
    }
}

/// The ids that a patch file disables, in the order in which it first names them.
pub fn read_disabled_ids(content: &str) -> (r: Vec<String>)
    ensures
        views(r@) == disabled_ids(rows_of(lines_of(content@))),
{
    let ls = lines(content);
    let rs = rows(&ls);
    let ghost all = row_views(rs@);
    let mut ids: Vec<String> = Vec::new();
    let mut offs: Vec<bool> = Vec::new();
    let mut i: usize = 0;
    proof {
        assert(views(ids@) =~= Seq::empty());
    }
    while i < rs.len()
        invariant
            i <= rs@.len(),
            all == row_views(rs@),
            views(ids@) == ids_upto(all, i as int),
            offs@.len() == ids@.len(),
            forall|k: int|
                0 <= k < ids@.len() ==> offs@[k] == last_off(all, i as int, #[trigger] ids@[k]@),
        decreases rs@.len() - i,
    {
        proof {
            assert(all[i as int] == (rs@[i as int].indent as int, rs@[i as int].text@));
            lemma_ids_unique(all, i as int);
        }
        if let Some(id) = entry_id_of(rs[i].text.as_str()) {
            let off = block_disabled(&rs, i + 1, rs[i].indent);
            let ghost before = ids@;
            match position(&ids, id.as_str()) {
                Some(k) => {
                    offs.set(k, off);
                    proof {
                        assert(views(ids@)[k as int] == id@);
                        assert(ids_upto(all, i as int).contains(id@));
                        assert forall|m: int| 0 <= m < ids@.len() implies offs@[m] == last_off(
                            all,
                            i + 1,
                            #[trigger] ids@[m]@,
                        ) by {
                            assert(views(ids@)[m] == ids@[m]@);
                        }
                    }
                },
                None => {
                    ids.push(id);
                    offs.push(off);
                    proof {
                        crate::text::lemma_views_push(before, ids@.last());
                        assert forall|m: int| 0 <= m < ids@.len() implies offs@[m] == last_off(
                            all,
                            i + 1,
                            #[trigger] ids@[m]@,
                        ) by {
                            if m < before.len() {
                                assert(views(before)[m] == before[m]@);
                                assert(views(before).contains(before[m]@));
                            }
                        }
                    }
                },
            }
        }
        i += 1;
    }
    let mut out: Vec<String> = Vec::new();
    let mut k: usize = 0;
    proof {
        assert(views(out@) =~= Seq::empty());
    }
    while k < ids.len()
        invariant
            k <= ids@.len(),
            all == row_views(rs@),
            offs@.len() == ids@.len(),
            forall|m: int|
                0 <= m < ids@.len() ==> offs@[m] == last_off(
                    all,
                    rs@.len() as int,
                    #[trigger] ids@[m]@,
                ),
            views(out@) == still_off(all, views(ids@).take(k as int)),
        decreases ids@.len() - k,
    {
        let ghost before = out@;
        let ghost next = views(ids@).take(k + 1);
        proof {
            assert(next.drop_last() =~= views(ids@).take(k as int));
            assert(next.last() == ids@[k as int]@);
        }
        if offs[k] {
            out.push(ids[k].clone());
            proof {
                crate::text::lemma_views_push(before, out@.last());
            }
        }
        k += 1;
    }
    proof {
        assert(views(ids@).take(ids@.len() as int) =~= views(ids@));
    }
    out
}

/// The comment line over the blocks that the launcher writes for the plugin `name`.
pub open spec fn marker_of(name: Seq<char>) -> Seq<char> {
    "# --- 由 DSH 启动器管理：禁用 "@ + name + " ---"@
}

/// The comment line over the blocks that the launcher writes for the plugin `name`.
pub fn marker(name: &str) -> (r: String)
    ensures
        r@ == marker_of(name@),
{
    "# --- 由 DSH 启动器管理：禁用 ".to_owned().concat(name).concat(" ---")
}

/// Whether a block of the launcher starts with the marker line `i`: an id line and a true
/// `disabled:` follow it.
pub open spec fn own_block(ls: Seq<Seq<char>>, i: int) -> bool {
    &&& i + 2 < ls.len()
    &&& entry_id(trim_of(ls[i + 1])) is Some
    &&& says_disabled(trim_of(ls[i + 2]))
}

/// The lines at and behind `i` without the launcher's blocks under the marker `m`.
///
/// A marker without its block goes alone: what follows it is the user's.
pub open spec fn kept_from(ls: Seq<Seq<char>>, i: int, m: Seq<char>) -> Seq<Seq<char>>
    decreases ls.len() - i,
{
    if i >= ls.len() {
        Seq::empty()
    } else if trim_of(ls[i]) == m {
        if own_block(ls, i) {
            kept_from(ls, i + 3, m)
        } else {
            kept_from(ls, i + 1, m)
        }
    } else {
        seq![ls[i]] + kept_from(ls, i + 1, m)
    }
}

/// The lines without the launcher's blocks under the marker `m`.
pub open spec fn kept(ls: Seq<Seq<char>>, m: Seq<char>) -> Seq<Seq<char>> {
    kept_from(ls, 0, m)
}

/// Whether a line is the marker `m`.
pub open spec fn marked(ls: Seq<Seq<char>>, m: Seq<char>) -> bool {
    exists|i: int| 0 <= i < ls.len() && trim_of(#[trigger] ls[i]) == m
}

/// Whether a file has no entries: what it says is `[]` or `---` only.
pub open spec fn no_entries(ls: Seq<Seq<char>>) -> bool {
    forall|i: int|
        0 <= i < rows_of(ls).len() ==> {
            let t = (#[trigger] rows_of(ls)[i]).1;
            t == "[]"@ || t == "---"@
        }
}

/// The comment lines.
pub open spec fn comments_of(ls: Seq<Seq<char>>) -> Seq<Seq<char>>
    decreases ls.len(),
{
    if ls.len() == 0 {
        Seq::empty()
    } else {
        let before = comments_of(ls.drop_last());
        let t = trim_of(ls.last());
        if t.len() > 0 && t[0] == '#' {
            before.push(ls.last())
        } else {
            before
        }
    }
}

/// Those of `ids` that `off` does not hold.
pub open spec fn missing_of(ids: Seq<Seq<char>>, off: Seq<Seq<char>>) -> Seq<Seq<char>>
    decreases ids.len(),
{
    if ids.len() == 0 {
        Seq::empty()
    } else {
        let before = missing_of(ids.drop_last(), off);
        if off.contains(ids.last()) {
            before
        } else {
            before.push(ids.last())
        }
    }
}

/// The line that names `id`.
pub open spec fn id_line(id: Seq<char>) -> Seq<char> {
    "- id: "@ + id
}

/// The launcher's blocks for `ids` under the marker `m`.
pub open spec fn blocks_of(ids: Seq<Seq<char>>, m: Seq<char>) -> Seq<Seq<char>>
    decreases ids.len(),
{
    if ids.len() == 0 {
        Seq::empty()
    } else {
        blocks_of(ids.drop_last(), m) + seq![m, id_line(ids.last()), "  disabled: true"@]
    }
}

/// An empty line where `ls` does not end with one.
pub open spec fn gap_of(ls: Seq<Seq<char>>) -> Seq<Seq<char>> {
    if ls.len() > 0 && trim_of(ls.last()).len() > 0 {
        seq![Seq::empty()]
    } else {
        Seq::empty()
    }
}

/// The user's lines that a disabling keeps: in a file without entries the comments alone, so that
/// no `[]` stands before the entries that follow.
pub open spec fn base_of(ls: Seq<Seq<char>>, m: Seq<char>) -> Seq<Seq<char>> {
    let k = kept(ls, m);
    if no_entries(k) {
        comments_of(k)
    } else {
        k
    }
}

/// The ids that a disabling has to write blocks for: those not disabled without the launcher.
pub open spec fn needed_of(
    ls: Seq<Seq<char>>,
    m: Seq<char>,
    ids: Seq<Seq<char>>,
) -> Seq<Seq<char>> {
    missing_of(ids, disabled_ids(rows_of(lines_of(join_of(base_of(ls, m), "\n"@)))))
}

/// The lines of the file behind a disabling.
pub open spec fn disabled_lines(
    ls: Seq<Seq<char>>,
    m: Seq<char>,
    ids: Seq<Seq<char>>,
) -> Seq<Seq<char>> {
    let base = base_of(ls, m);
    let add = needed_of(ls, m, ids);
    if add.len() == 0 {
        base
    } else {
        base + gap_of(base) + blocks_of(add, m)
    }
}

/// The lines of the file behind an enabling. A file that says nothing any more gets an empty list.
pub open spec fn enabled_lines(ls: Seq<Seq<char>>, m: Seq<char>) -> Seq<Seq<char>> {
    let k = kept(ls, m);
    if rows_of(k).len() == 0 {
        k + (if k.len() > 0 {
            seq![Seq::<char>::empty()]
        } else {
            Seq::<Seq<char>>::empty()
        }) + seq!["[]"@]
    } else {
        k
    }
}

/// The lines as one text that ends with a line feed.
pub open spec fn text_of(ls: Seq<Seq<char>>) -> Seq<char> {
    let t = join_of(ls, "\n"@);
    if "\n"@.is_suffix_of(t) {
        t
    } else {
        t + "\n"@
    }
}

/// What the markers `m` at and behind the line `i` stand over: the id of a block, or nothing where
/// a marker has lost its block.
pub open spec fn marks_from(ls: Seq<Seq<char>>, i: int, m: Seq<char>) -> Seq<Option<Seq<char>>>
    decreases ls.len() - i,
{
    if i >= ls.len() {
        Seq::empty()
    } else if trim_of(ls[i]) == m {
        if own_block(ls, i) {
            seq![entry_id(trim_of(ls[i + 1]))] + marks_from(ls, i + 3, m)
        } else {
            seq![None::<Seq<char>>] + marks_from(ls, i + 1, m)
        }
    } else {
        marks_from(ls, i + 1, m)
    }
}

/// Whether the launcher's blocks in a file are those for `ids`, in their order.
pub open spec fn blocks_stand(ls: Seq<Seq<char>>, m: Seq<char>, ids: Seq<Seq<char>>) -> bool {
    marks_from(ls, 0, m) == Seq::new(ids.len(), |k: int| Some(ids[k]))
}

/// Whether there is nothing to disable: all of `ids` are disabled, the launcher's blocks are those
/// that it would write, and no `[]` has to make room for them.
pub open spec fn settled(ls: Seq<Seq<char>>, m: Seq<char>, ids: Seq<Seq<char>>) -> bool {
    let k = kept(ls, m);
    &&& blocks_stand(ls, m, needed_of(ls, m, ids))
    &&& missing_of(ids, disabled_ids(rows_of(ls))).len() == 0
    &&& needed_of(ls, m, ids).len() > 0 && no_entries(k) ==> rows_of(k).len() == 0
}

/// The new text of a patch file when the plugin `name` with the entries `ids` is enabled or
/// disabled, where the file changes.
pub open spec fn managed(
    content: Seq<char>,
    name: Seq<char>,
    ids: Seq<Seq<char>>,
    enable: bool,
) -> Option<Seq<char>> {
    let ls = lines_of(content);
    let m = marker_of(name);
    if enable {
        if marked(ls, m) {
            Some(text_of(enabled_lines(ls, m)))
        } else {
            None
        }
    } else {
        let t = text_of(disabled_lines(ls, m, ids));
        if settled(ls, m, ids) || t == content {
            None
        } else {
            Some(t)
        }
    }
}

fn has_blocks(ls: &Vec<String>, m: &str, ids: &Vec<String>) -> (r: bool)
    ensures
        r == blocks_stand(views(ls@), m@, views(ids@)),
{
    let ghost all = views(ls@);
    let ghost want = Seq::new(ids@.len(), |k: int| Some(views(ids@)[k]));
    let ghost marks = marks_from(all, 0, m@);
    let mut k: usize = 0;
    let mut i: usize = 0;
    proof {
        assert(want.take(0) + marks =~= marks);
    }
    while i < ls.len()
        invariant
            i <= ls@.len(),
            k <= ids@.len(),
            all == views(ls@),
            marks == marks_from(all, 0, m@),
            want == Seq::new(ids@.len(), |k: int| Some(views(ids@)[k])),
            marks == want.take(k as int) + marks_from(all, i as int, m@),
        decreases ls@.len() - i,
    {
        proof {
            assert(all[i as int] == ls@[i as int]@);
        }
        if !same(trim(ls[i].as_str()), m) {
            i += 1;
            continue;
        }
        let ghost rest = marks_from(all, i as int, m@);
        proof {
            if i + 2 < ls@.len() {
                assert(all[i + 1] == ls@[i + 1]@);
                assert(all[i + 2] == ls@[i + 2]@);
            }
            assert(marks[k as int] == rest[0]);
        }
        if k == ids.len() || ls.len() - i <= 2 {
            proof {
                assert(marks.len() > k);
            }
            return false;
        }
        match entry_id_of(trim(ls[i + 1].as_str())) {
            None => {
                proof {
                    assert(want[k as int] is Some);
                }
                return false;
            },
            Some(id) => {
                if !disabled_flag(trim(ls[i + 2].as_str())) || !same(id.as_str(), ids[k].as_str()) {
                    proof {
                        assert(want[k as int] == Some(ids@[k as int]@));
                    }
                    return false;
                }
                proof {
                    assert(want.take(k + 1) =~= want.take(k as int).push(Some(ids@[k as int]@)));
                    assert(rest == seq![Some(id@)] + marks_from(all, i + 3, m@));
                    assert(marks =~= want.take(k + 1) + marks_from(all, i + 3, m@));
                }
            },
        }
        k += 1;
        i += 3;
    }
    proof {
        assert(marks =~= want.take(k as int));
        if k == ids@.len() {
            assert(want.take(k as int) =~= want);
        }
    }
    k == ids.len()
}

fn keep_lines(ls: &Vec<String>, m: &str) -> (r: (Vec<String>, bool))
    ensures
        views(r.0@) == kept(views(ls@), m@),
        r.1 == marked(views(ls@), m@),
{
    let ghost all = views(ls@);
    let mut out: Vec<String> = Vec::new();
    let mut found = false;
    let mut i: usize = 0;
    proof {
        assert(views(out@) + kept(all, m@) =~= kept(all, m@));
    }
    while i < ls.len()
        invariant
            i <= ls@.len(),
            all == views(ls@),
            kept(all, m@) == views(out@) + kept_from(all, i as int, m@),
            found ==> marked(all, m@),
            !found ==> forall|j: int| 0 <= j < i ==> trim_of(#[trigger] all[j]) != m@,
        decreases ls@.len() - i,
    {
        proof {
            assert(all[i as int] == ls@[i as int]@);
        }
        if same(trim(ls[i].as_str()), m) {
            found = true;
            proof {
                if i + 2 < ls@.len() {
                    assert(all[i + 1] == ls@[i + 1]@);
                    assert(all[i + 2] == ls@[i + 2]@);
                }
            }
            if ls.len() - i > 2 && entry_id_of(trim(ls[i + 1].as_str())).is_some()
                && disabled_flag(trim(ls[i + 2].as_str())) {
                i += 3;
            } else {
                i += 1;
            }
            continue;
        }
        let ghost before = out@;
        out.push(ls[i].clone());
        proof {
            crate::text::lemma_views_push(before, out@.last());
            assert(views(before) + (seq![all[i as int]] + kept_from(all, i + 1, m@)) =~= views(
                out@,
            ) + kept_from(all, i + 1, m@));
        }
        i += 1;
    }
    proof {
        assert(views(out@) + Seq::<Seq<char>>::empty() =~= views(out@));
    }
    (out, found)
}

fn has_no_entries(ls: &Vec<String>) -> (r: bool)
    ensures
        r == no_entries(views(ls@)),
{
    let rs = rows(ls);
    let ghost all = row_views(rs@);
    let mut i: usize = 0;
    while i < rs.len()
        invariant
            i <= rs@.len(),
            all == row_views(rs@),
            all == rows_of(views(ls@)),
            forall|j: int|
                0 <= j < i ==> {
                    let t = (#[trigger] all[j]).1;
                    t == "[]"@ || t == "---"@
                },
        decreases rs@.len() - i,
    {
        let t = rs[i].text.as_str();
        proof {
            assert(all[i as int].1 == t@);
        }
        if !same(t, "[]") && !same(t, "---") {
            return false;
        }
        i += 1;
    }
    true
}

fn comment_lines(ls: &Vec<String>) -> (r: Vec<String>)
    ensures
        views(r@) == comments_of(views(ls@)),
{
    let mut out: Vec<String> = Vec::new();
    let mut i: usize = 0;
    proof {
        assert(views(out@) =~= Seq::empty());
    }
    while i < ls.len()
        invariant
            i <= ls@.len(),
            views(out@) == comments_of(views(ls@).take(i as int)),
        decreases ls@.len() - i,
    {
        let t = trim(ls[i].as_str());
        let ghost before = out@;
        let ghost next = views(ls@).take(i + 1);
        proof {
            assert(next.drop_last() =~= views(ls@).take(i as int));
            assert(next.last() == ls@[i as int]@);
        }
        if !t.is_empty() && t.get_char(0) == '#' {
            out.push(ls[i].clone());
            proof {
                crate::text::lemma_views_push(before, out@.last());
            }
        }
        i += 1;
    }
    proof {
        assert(views(ls@).take(ls@.len() as int) =~= views(ls@));
    }
    out
}

fn missing_ids(ids: &Vec<String>, off: &Vec<String>) -> (r: Vec<String>)
    ensures
        views(r@) == missing_of(views(ids@), views(off@)),
{
    let mut out: Vec<String> = Vec::new();
    let mut i: usize = 0;
    proof {
        assert(views(out@) =~= Seq::empty());
    }
    while i < ids.len()
        invariant
            i <= ids@.len(),
            views(out@) == missing_of(views(ids@).take(i as int), views(off@)),
        decreases ids@.len() - i,
    {
        let ghost before = out@;
        let ghost next = views(ids@).take(i + 1);
        proof {
            assert(next.drop_last() =~= views(ids@).take(i as int));
            assert(next.last() == ids@[i as int]@);
        }
        if !crate::text::list_has(off, ids[i].as_str()) {
            out.push(ids[i].clone());
            proof {
                crate::text::lemma_views_push(before, out@.last());
            }
        }
        i += 1;
    }
    proof {
        assert(views(ids@).take(ids@.len() as int) =~= views(ids@));
    }
    out
}

fn push_blocks(ls: &mut Vec<String>, ids: &Vec<String>, m: &str)
    ensures
        views(final(ls)@) == views(old(ls)@) + blocks_of(views(ids@), m@),
{
    let mut i: usize = 0;
    proof {
        assert(views(ls@) + blocks_of(views(ids@).take(0), m@) =~= views(ls@));
    }
    while i < ids.len()
        invariant
            i <= ids@.len(),
            views(ls@) == views(old(ls)@) + blocks_of(views(ids@).take(i as int), m@),
        decreases ids@.len() - i,
    {
        let ghost next = views(ids@).take(i + 1);
        proof {
            assert(next.drop_last() =~= views(ids@).take(i as int));
            assert(next.last() == ids@[i as int]@);
        }
        let ghost l0 = ls@;
        ls.push(m.to_owned());
        let ghost l1 = ls@;
        ls.push("- id: ".to_owned().concat(ids[i].as_str()));
        let ghost l2 = ls@;
        ls.push("  disabled: true".to_owned());
        proof {
            crate::text::lemma_views_push(l0, l1.last());
            crate::text::lemma_views_push(l1, l2.last());
            crate::text::lemma_views_push(l2, ls@.last());
            assert(views(ls@) =~= views(old(ls)@) + (blocks_of(views(ids@).take(i as int), m@)
                + seq![m@, id_line(ids@[i as int]@), "  disabled: true"@]));
        }
        i += 1;
    }
    proof {
        assert(views(ids@).take(ids@.len() as int) =~= views(ids@));
    }
}

fn to_text(ls: &Vec<String>) -> (r: String)
    ensures
        r@ == text_of(views(ls@)),
{
    let t = join(ls, "\n");
    if crate::text::ends(t.as_str(), "\n") {
        t
    } else {
        t.concat("\n")
    }
}

fn changed(text: String, content: &str) -> (r: Option<String>)
    ensures
        opt_view(r) == if text@ == content@ {
            None
        } else {
            Some(text@)
        },
{
    if same(text.as_str(), content) {
        None
    } else {
        Some(text)
    }
}

/// The new text of the patch file `content` when the plugin `name`, whose bundle inserts `ids`, is
/// enabled or disabled; `None` where the file stays as it is.
///
/// Enabling takes out the launcher's own blocks and leaves entries that the user disabled.
/// Disabling writes a block for each id that is not disabled already, and leaves a file that has
/// all of them.
pub fn manage_disabled_blocks(
    content: &str,
    name: &str,
    ids: &Vec<String>,
    enable: bool,
) -> (r: Option<String>)
    ensures
        opt_view(r) == managed(content@, name@, views(ids@), enable),
{
    let ls = lines(content);
    let m = marker(name);
    let (user, found) = keep_lines(&ls, m.as_str());
    if enable {
        if !found {
            return None;
        }
        let rs = rows(&user);
        let mut out = user;
        let ghost k = views(out@);
        if rs.len() == 0 {
            if out.len() > 0 {
                let ghost before = out@;
                out.push(String::new());
                proof {
                    crate::text::lemma_views_push(before, out@.last());
                    assert(views(out@) =~= k + seq![Seq::<char>::empty()]);
                }
            } else {
                proof {
                    assert(k + Seq::<Seq<char>>::empty() =~= k);
                }
            }
            let ghost before = out@;
            out.push("[]".to_owned());
            proof {
                crate::text::lemma_views_push(before, out@.last());
                assert(views(out@) =~= enabled_lines(views(ls@), m@));
            }
        } else {
            proof {
                assert(row_views(rs@).len() > 0);
            }
        }
        return Some(to_text(&out));
    }
    let bare = has_no_entries(&user);
    let user_rows = rows(&user);
    let mut out = if bare {
        comment_lines(&user)
    } else {
        user
    };
    let ghost base = views(out@);
    let off = read_disabled_ids(join(&out, "\n").as_str());
    let add = missing_ids(ids, &off);
    let now_off = read_disabled_ids(content);
    let missing = missing_ids(ids, &now_off);
    proof {
        assert(views(add@).len() == add@.len());
        assert(views(missing@).len() == missing@.len());
        assert(row_views(user_rows@).len() == user_rows@.len());
    }
    if has_blocks(&ls, m.as_str(), &add) && missing.len() == 0 && !(add.len() > 0 && bare
        && user_rows.len() > 0) {
        return None;
    }
    if add.len() == 0 {
        return changed(to_text(&out), content);
    }
    if out.len() > 0 && !trim(out[out.len() - 1].as_str()).is_empty() {
        let ghost before = out@;
        out.push(String::new());
        proof {
            crate::text::lemma_views_push(before, out@.last());
            assert(views(out@) =~= base + gap_of(base));
        }
    } else {
        proof {
            assert(base + gap_of(base) =~= base);
        }
    }
    push_blocks(&mut out, &add, m.as_str());
    changed(to_text(&out), content)
}

} // verus!
