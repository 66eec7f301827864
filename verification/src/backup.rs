//! Backups of the DSH data: their names, their contents, and which of them are kept.

use crate::clock::{lemma_stamp, stamp_of, stampable, Moment};
use crate::json::{
    as_text, depth, empty_object, field, field_at, fields_depth, fields_whole, json_compact,
    json_text, json_tree, list_depth, list_value, list_whole, set_field, text_value, unescaped,
    value_trees, whole, with_field, write_compact, JsonTree,
};
use crate::numbers::{decimal, digits_of};
use crate::order::{
    ascending, by_name, comes_before, lemma_before_chain, lemma_before_one_way, lemma_before_total,
    lemma_by_name, lemma_place_of, sort_by_name, sort_strings, text_before,
};
use crate::text::{
    chars_of, control, ends, find_char, has_sub, is_ctrl, is_digit, join, join_of, lemma_find_char,
    lemma_find_char_is, length, part, same, split, split_of, starts, swap_char, swap_of, upper,
    upper_of, views, without_prefix, without_suffix,
};
use crate::text_laws::{lemma_split_end, lemma_split_join, lemma_split_pieces};
use crate::util::{human_size, size_text};
use serde_json::Value;
use vstd::prelude::*;

verus! {

/// What a copy of the data takes and leaves out, as options of `robocopy`: all directories, but no
/// installed packages, no junctions and no list of an earlier backup; one further try, and no
/// listing.
pub fn robocopy_options() -> (r: Vec<String>)
    ensures
        views(r@) == seq![
            "/E"@,
            "/XD"@,
            "node_modules"@,
            "/XF"@,
            "dsh-backup.json"@,
            "/XJ"@,
            "/NFL"@,
            "/NDL"@,
            "/NJH"@,
            "/NJS"@,
            "/R:1"@,
            "/W:1"@,
        ],
{
    let r = vec![
        "/E".to_owned(),
        "/XD".to_owned(),
        "node_modules".to_owned(),
        "/XF".to_owned(),
        "dsh-backup.json".to_owned(),
        "/XJ".to_owned(),
        "/NFL".to_owned(),
        "/NDL".to_owned(),
        "/NJH".to_owned(),
        "/NJS".to_owned(),
        "/R:1".to_owned(),
        "/W:1".to_owned(),
    ];
    proof {
        assert(views(r@) =~= seq![
            "/E"@,
            "/XD"@,
            "node_modules"@,
            "/XF"@,
            "dsh-backup.json"@,
            "/XJ"@,
            "/NFL"@,
            "/NDL"@,
            "/NJH"@,
            "/NJS"@,
            "/R:1"@,
            "/W:1"@,
        ]);
    }
    r
}

/// What a copy of the data came to. Codes of `robocopy` below 8 tell of success.
pub fn run_robocopy(code: Option<i32>) -> (r: Result<(), String>)
    ensures
        r is Err <==> code is Some && code->0 >= 8,
        r matches Err(m) ==> m@ == "robocopy 复制失败（退出码 "@ + digits_of(code->0 as nat)
            + "）"@,
{
    match code {
        Some(c) => if c >= 8 {
            Err(
                "robocopy 复制失败（退出码 ".to_owned().concat(decimal(c as u64).as_str()).concat(
                    "）",
                ),
            )
        } else {
            Ok(())
        },
        None => Ok(()),
    }
}

/// What a thing in the data is.
#[derive(PartialEq, Eq, Structural, Clone, Copy)]
pub enum Kind {
    /// A file.
    File,
    /// A directory.
    Dir,
    /// A link, which is not followed.
    Link,
}

/// A thing in the data.
pub struct Found {
    /// The names on the way to it, its own last.
    pub segs: Vec<String>,
    /// What it is.
    pub kind: Kind,
}

/// An entry of a backup.
pub struct ZipItem {
    /// Its name in the archive.
    pub name: String,
    /// Whether it is a directory.
    pub is_dir: bool,
    /// Which of the things found it is.
    pub source: usize,
}

/// The name of a thing in an archive: a directory ends with a slash.
pub open spec fn zip_name(segs: Seq<Seq<char>>, is_dir: bool) -> Seq<char> {
    if is_dir {
        join_of(segs, "/"@) + "/"@
    } else {
        join_of(segs, "/"@)
    }
}

/// The things that go into an archive, each under the names on the way to it, in the order in which
/// they were found. Links do not.
pub open spec fn packed(v: Seq<Found>) -> Seq<(Seq<char>, usize)>
    decreases v.len(),
{
    if v.len() == 0 {
        Seq::empty()
    } else if v.last().kind == Kind::Link {
        packed(v.drop_last())
    } else {
        packed(v.drop_last()).push(
            (join_of(views(v.last().segs@), "\0"@), (v.len() - 1) as usize),
        )
    }
}

/// The keys and values of a list of named numbers.
pub open spec fn key_views(v: Seq<(String, usize)>) -> Seq<(Seq<char>, usize)> {
    Seq::new(v.len(), |i: int| (v[i].0@, v[i].1))
}

/// Whether the entries of a backup are those of the things with the keys `keyed`, in the order of
/// the keys.
pub open spec fn items_of(found: Seq<Found>, keyed: Seq<(String, usize)>, r: Seq<ZipItem>) -> bool {
    &&& key_views(keyed) == packed(found)
    &&& r.len() == keyed.len()
    &&& forall|i: int|
        0 <= i < r.len() ==> {
            let src = #[trigger] by_name(keyed)[i].1;
            &&& src < found.len()
            &&& r[i].source == src
            &&& r[i].is_dir == (found[src as int].kind == Kind::Dir)
            &&& r[i].name@ == zip_name(
                views(found[src as int].segs@),
                found[src as int].kind == Kind::Dir,
            )
        }
}

/// Whether `r` are the entries of a backup of the things found.
pub open spec fn collected(found: Seq<Found>, r: Seq<ZipItem>) -> bool {
    exists|keyed: Seq<(String, usize)>| items_of(found, keyed, r)
}

/// The entries of a backup: everything but links, directories before what is in them, in the order
/// of the names on the way. Directories are entries too, so that empty ones are not lost.
pub fn collect_zip_entries(found: &Vec<Found>) -> (r: Vec<ZipItem>)
    ensures
        collected(found@, r@),
{
    let mut keyed: Vec<(String, usize)> = Vec::new();
    let mut i: usize = 0;
    proof {
        assert(key_views(keyed@) =~= Seq::empty());
    }
    while i < found.len()
        invariant
            i <= found@.len(),
            key_views(keyed@) == packed(found@.take(i as int)),
            forall|k: int| 0 <= k < keyed@.len() ==> (#[trigger] keyed@[k]).1 < found@.len(),
        decreases found@.len() - i,
    {
        let ghost before = keyed@;
        proof {
            let next = found@.take(i + 1);
            assert(next.drop_last() =~= found@.take(i as int));
            assert(next.last() == found@[i as int]);
        }
        match found[i].kind {
            Kind::Link => {},
            _ => {
                keyed.push((join(&found[i].segs, "\0"), i));
                proof {
                    assert(key_views(keyed@) =~= key_views(before).push(
                        (keyed@.last().0@, keyed@.last().1),
                    ));
                }
            },
        }
        i += 1;
    }
    proof {
        assert(found@.take(found@.len() as int) =~= found@);
    }
    let ghost all = keyed@;
    let sorted = sort_by_name(keyed);
    proof {
        lemma_by_name(all);
        assert forall|k: int| 0 <= k < sorted@.len() implies (#[trigger] sorted@[k]).1
            < found@.len() by {
            broadcast use vstd::seq_lib::group_to_multiset_ensures;

            assert(sorted@.to_multiset().count(sorted@[k]) > 0);
            assert(all.contains(sorted@[k]));
            let j = choose|j: int| 0 <= j < all.len() && all[j] == sorted@[k];
            assert(all[j].1 < found@.len());
        }
    }
    let mut out: Vec<ZipItem> = Vec::new();
    let mut k: usize = 0;
    while k < sorted.len()
        invariant
            k <= sorted@.len(),
            out@.len() == k,
            sorted@ == by_name(all),
            forall|j: int| 0 <= j < sorted@.len() ==> (#[trigger] sorted@[j]).1 < found@.len(),
            forall|j: int|
                0 <= j < k ==> {
                    let src = #[trigger] by_name(all)[j].1;
                    &&& src < found@.len()
                    &&& out@[j].source == src
                    &&& out@[j].is_dir == (found@[src as int].kind == Kind::Dir)
                    &&& out@[j].name@ == zip_name(
                        views(found@[src as int].segs@),
                        found@[src as int].kind == Kind::Dir,
                    )
                },
        decreases sorted@.len() - k,
    {
        let src: usize = sorted[k].1;
        proof {
            assert(sorted@[k as int].1 < found@.len());
        }
        let is_dir = match found[src].kind {
            Kind::Dir => true,
            _ => false,
        };
        let base = join(&found[src].segs, "/");
        let name = if is_dir {
            base.concat("/")
        } else {
            base
        };
        out.push(ZipItem { name, is_dir, source: src });
        k += 1;
    }
    proof {
        assert(items_of(found@, all, out@));
    }
    out
}

/// Whether the thing `k` has an entry.
pub open spec fn has_entry(items: Seq<ZipItem>, k: int) -> bool {
    exists|i: int| 0 <= i < items.len() && (#[trigger] items[i]).source == k
}

/// The sizes of the things that go into an archive, `sizes` being those of all that was found.
pub open spec fn packed_sizes(v: Seq<Found>, sizes: Seq<u64>) -> Seq<u64> {
    Seq::new(packed(v).len(), |i: int| sizes[packed(v)[i].1 as int])
}

pub proof fn lemma_packed(v: Seq<Found>)
    requires
        v.len() <= usize::MAX,
    ensures
        forall|i: int|
            0 <= i < packed(v).len() ==> (#[trigger] packed(v)[i]).1 < v.len() && v[packed(
                v,
            )[i].1 as int].kind != Kind::Link,
        forall|i: int, j: int|
            0 <= i < j < packed(v).len() ==> (#[trigger] packed(v)[i]).1 < (#[trigger] packed(
                v,
            )[j]).1,
    decreases v.len(),
{
    if v.len() > 0 {
        let d = v.drop_last();
        lemma_packed(d);
        let before = packed(d);
        assert forall|i: int| 0 <= i < before.len() implies (#[trigger] before[i]).1 < d.len()
            && v[before[i].1 as int].kind != Kind::Link by {
            assert(d[before[i].1 as int] == v[before[i].1 as int]);
        }
    }
}

proof fn lemma_packed_holds(v: Seq<Found>, k: int) -> (i: int)
    requires
        v.len() <= usize::MAX,
        0 <= k < v.len(),
        v[k].kind != Kind::Link,
    ensures
        0 <= i < packed(v).len(),
        packed(v)[i].1 == k,
    decreases v.len(),
{
    if k == v.len() - 1 {
        packed(v).len() - 1
    } else {
        assert(v.drop_last()[k] == v[k]);
        lemma_packed_holds(v.drop_last(), k)
    }
}

proof fn lemma_sum_insert(v: Seq<u64>, n: int, x: u64)
    requires
        0 <= n <= v.len(),
    ensures
        sum_of(v.insert(n, x)) == sum_of(v) + x,
    decreases v.len(),
{
    let w = v.insert(n, x);
    if n == v.len() {
        assert(w.drop_last() =~= v);
    } else {
        lemma_sum_insert(v.drop_last(), n, x);
        assert(w.drop_last() =~= v.drop_last().insert(n, x));
        assert(w.last() == v.last());
    }
}

/// The sizes of keyed things.
pub open spec fn keyed_sizes(v: Seq<(String, usize)>, sizes: Seq<u64>) -> Seq<u64> {
    Seq::new(v.len(), |i: int| sizes[v[i].1 as int])
}

proof fn lemma_sum_by_name(v: Seq<(String, usize)>, sizes: Seq<u64>)
    ensures
        sum_of(keyed_sizes(by_name(v), sizes)) == sum_of(keyed_sizes(v, sizes)),
    decreases v.len(),
{
    if v.len() > 0 {
        let d = v.drop_last();
        let x = v.last();
        lemma_sum_by_name(d, sizes);
        let n = lemma_place_of(by_name(d), x);
        lemma_sum_insert(keyed_sizes(by_name(d), sizes), n, sizes[x.1 as int]);
        assert(keyed_sizes(by_name(v), sizes) =~= keyed_sizes(by_name(d), sizes).insert(
            n,
            sizes[x.1 as int],
        ));
        assert(keyed_sizes(v, sizes).drop_last() =~= keyed_sizes(d, sizes));
    } else {
        assert(by_name(v) =~= v);
    }
}

proof fn lemma_by_name_apart(v: Seq<(String, usize)>)
    requires
        forall|i: int, j: int| 0 <= i < j < v.len() ==> (#[trigger] v[i]).1 < (#[trigger] v[j]).1,
    ensures
        forall|i: int, j: int|
            0 <= i < j < v.len() ==> (#[trigger] by_name(v)[i]).1 != (#[trigger] by_name(v)[j]).1,
        forall|i: int| 0 <= i < v.len() ==> v.contains(#[trigger] by_name(v)[i]),
        by_name(v).len() == v.len(),
    decreases v.len(),
{
    if v.len() > 0 {
        let d = v.drop_last();
        let x = v.last();
        assert forall|i: int, j: int| 0 <= i < j < d.len() implies (#[trigger] d[i]).1 < (
        #[trigger] d[j]).1 by {
            assert(d[i] == v[i] && d[j] == v[j]);
        }
        lemma_by_name_apart(d);
        let s = by_name(d);
        let n = lemma_place_of(s, x);
        let w = s.insert(n, x);
        assert forall|i: int| 0 <= i < s.len() implies (#[trigger] s[i]).1 < x.1 && v.contains(
            s[i],
        ) by {
            let k = choose|k: int| 0 <= k < d.len() && d[k] == s[i];
            assert(v[k] == s[i]);
            assert(v[k].1 < v[v.len() - 1].1);
        }
        assert(v[v.len() - 1] == x);
        assert forall|i: int, j: int| 0 <= i < j < w.len() implies (#[trigger] w[i]).1 != (
        #[trigger] w[j]).1 by {
            if i != n && j != n {
                let a = if i < n {
                    i
                } else {
                    i - 1
                };
                let b = if j < n {
                    j
                } else {
                    j - 1
                };
                assert(w[i] == s[a] && w[j] == s[b]);
            } else if i == n {
                assert(w[j] == s[j - 1]);
            } else {
                assert(w[i] == s[i]);
            }
        }
        assert forall|i: int| 0 <= i < w.len() implies v.contains(#[trigger] w[i]) by {
            if i < n {
                assert(w[i] == s[i]);
            } else if i > n {
                assert(w[i] == s[i - 1]);
            }
        }
    }
}

/// A backup has one entry for each thing found that is no link, and none besides; their sizes make
/// the same sum in both orders.
pub proof fn law_everything_is_packed_once(found: Seq<Found>, items: Seq<ZipItem>, sizes: Seq<u64>)
    requires
        found.len() <= usize::MAX,
        collected(found, items),
    ensures
        items.len() == packed(found).len(),
        forall|i: int|
            0 <= i < items.len() ==> (#[trigger] items[i]).source < found.len()
                && found[items[i].source as int].kind != Kind::Link && items[i].name@ == zip_name(
                views(found[items[i].source as int].segs@),
                found[items[i].source as int].kind == Kind::Dir,
            ),
        forall|i: int, j: int|
            0 <= i < j < items.len() ==> (#[trigger] items[i]).source != (
            #[trigger] items[j]).source,
        forall|k: int|
            0 <= k < found.len() && (#[trigger] found[k]).kind != Kind::Link ==> has_entry(items, k),
        sum_of(Seq::new(items.len(), |i: int| sizes[items[i].source as int])) == sum_of(
            packed_sizes(found, sizes),
        ),
{
    broadcast use vstd::seq_lib::group_to_multiset_ensures;

    let keyed = choose|keyed: Seq<(String, usize)>| items_of(found, keyed, items);
    let p = packed(found);
    let s = by_name(keyed);
    lemma_packed(found);
    lemma_by_name(keyed);
    assert forall|i: int| 0 <= i < keyed.len() implies (#[trigger] keyed[i]).1 == p[i].1 by {
        assert(key_views(keyed)[i] == (keyed[i].0@, keyed[i].1));
    }
    lemma_by_name_apart(keyed);
    assert forall|i: int| 0 <= i < items.len() implies (#[trigger] items[i]).source < found.len()
        && found[items[i].source as int].kind != Kind::Link && items[i].name@ == zip_name(
        views(found[items[i].source as int].segs@),
        found[items[i].source as int].kind == Kind::Dir,
    ) by {
        assert(keyed.contains(s[i]));
        let k = choose|k: int| 0 <= k < keyed.len() && keyed[k] == s[i];
        assert(p[k].1 == s[i].1);
    }
    assert forall|i: int, j: int| 0 <= i < j < items.len() implies (#[trigger] items[i]).source
        != (#[trigger] items[j]).source by {
        assert(s[i].1 != s[j].1);
    }
    assert forall|k: int| 0 <= k < found.len() && (#[trigger] found[k]).kind
        != Kind::Link implies has_entry(items, k) by {
        let a = lemma_packed_holds(found, k);
        assert(keyed[a].1 == k);
        assert(keyed.contains(keyed[a]));
        assert(keyed.to_multiset().count(keyed[a]) > 0);
        assert(s.contains(keyed[a]));
        let j = choose|j: int| 0 <= j < s.len() && s[j] == keyed[a];
        assert(items[j].source == s[j].1);
    }
    lemma_sum_by_name(keyed, sizes);
    assert(keyed_sizes(keyed, sizes) =~= packed_sizes(found, sizes));
    assert(Seq::new(items.len(), |i: int| sizes[items[i].source as int]) =~= keyed_sizes(s, sizes))
        by {
        assert forall|i: int| 0 <= i < items.len() implies (#[trigger] items[i]).source
            == s[i].1 by {}
    }
}

proof fn lemma_join_below(a: Seq<Seq<char>>, b: Seq<Seq<char>>, sep: Seq<char>) -> (rest: Seq<char>)
    requires
        0 < a.len() < b.len(),
        a == b.take(a.len() as int),
    ensures
        join_of(b, sep) == join_of(a, sep) + sep + rest,
    decreases b.len(),
{
    let d = b.drop_last();
    if d.len() == a.len() {
        assert(d =~= a);
        b.last()
    } else {
        assert(d.take(a.len() as int) =~= a);
        let more = lemma_join_below(a, d, sep);
        assert(join_of(b, sep) =~= join_of(a, sep) + sep + (more + sep + b.last()));
        more + sep + b.last()
    }
}

/// A directory comes before what is in it.
pub proof fn law_directories_come_first(dir: Seq<Seq<char>>, below: Seq<Seq<char>>)
    requires
        0 < dir.len() < below.len(),
        dir == below.take(dir.len() as int),
    ensures
        text_before(join_of(dir, "\0"@), join_of(below, "\0"@)),
{
    reveal_strlit("\0");
    let rest = lemma_join_below(dir, below, "\0"@);
    let x = join_of(dir, "\0"@);
    let q = "\0"@ + rest;
    assert(x + Seq::<char>::empty() =~= x);
    assert(x + q =~= join_of(below, "\0"@));
    crate::clock::lemma_before_joined(x, x, Seq::empty(), q);
}

/// The sum of a list of sizes.
pub open spec fn sum_of(v: Seq<u64>) -> nat
    decreases v.len(),
{
    if v.len() == 0 {
        0
    } else {
        sum_of(v.drop_last()) + v.last() as nat
    }
}

/// The beginning of a list has no larger sum.
pub proof fn lemma_sum_grows(v: Seq<u64>, n: int)
    requires
        0 <= n <= v.len(),
    ensures
        sum_of(v.take(n)) <= sum_of(v),
    decreases v.len() - n,
{
    if n < v.len() {
        assert(v.take(n + 1).drop_last() =~= v.take(n));
        lemma_sum_grows(v, n + 1);
    } else {
        assert(v.take(n) =~= v);
    }
}

/// The sum of a list of sizes, where it fits in 64 bits.
pub fn total_bytes(sizes: &Vec<u64>) -> (r: Option<u64>)
    ensures
        match r {
            Some(n) => n == sum_of(sizes@),
            None => sum_of(sizes@) > u64::MAX,
        },
{
    let mut n: u64 = 0;
    let mut i: usize = 0;
    while i < sizes.len()
        invariant
            i <= sizes@.len(),
            n == sum_of(sizes@.take(i as int)),
        decreases sizes@.len() - i,
    {
        proof {
            let next = sizes@.take(i + 1);
            assert(next.drop_last() =~= sizes@.take(i as int));
            assert(next.last() == sizes@[i as int]);
            lemma_sum_grows(sizes@, i + 1);
        }
        if sizes[i] > u64::MAX - n {
            return None;
        }
        n = n + sizes[i];
        i += 1;
    }
    proof {
        assert(sizes@.take(sizes@.len() as int) =~= sizes@);
    }
    Some(n)
}

/// What is told when a backup is packed.
pub fn packed_message(count: usize, bytes: u64, zip_size: u64) -> (r: String)
    ensures
        r@ == "压缩完成："@ + digits_of(count as nat) + " 个条目（原始 "@ + size_text(bytes as nat)
            + "）→ 备份文件 "@ + size_text(zip_size as nat),
{
    "压缩完成：".to_owned().concat(decimal(count as u64).as_str()).concat(" 个条目（原始 ").concat(
        human_size(bytes).as_str(),
    ).concat("）→ 备份文件 ").concat(human_size(zip_size).as_str())
}

/// The trees of a list of strings.
pub open spec fn text_trees(v: Seq<Seq<char>>) -> Seq<JsonTree> {
    Seq::new(v.len(), |i: int| JsonTree::Text(v[i]))
}

/// The document that tells what a backup is: of the launcher, its time, and what it holds.
pub open spec fn manifest_tree(ts: Seq<char>, names: Seq<Seq<char>>) -> JsonTree {
    JsonTree::Object(
        seq![
            ("app"@, JsonTree::Text("dsh-launcher"@)),
            ("time"@, JsonTree::Text(ts)),
            ("entries"@, JsonTree::List(text_trees(names))),
        ],
    )
}

proof fn lemma_text_trees(v: Seq<Seq<char>>)
    ensures
        list_depth(text_trees(v)) == 0,
        list_whole(text_trees(v)),
    decreases v.len(),
{
    if v.len() > 0 {
        lemma_text_trees(v.drop_last());
        let t = text_trees(v);
        assert(t.drop_last() =~= text_trees(v.drop_last()));
        assert(t.last() == JsonTree::Text(v.last()));
        assert(depth(t.last()) == 0 && whole(t.last()));
    }
}

proof fn lemma_manifest(ts: Seq<char>, names: Seq<Seq<char>>)
    ensures
        ({
            let a = with_field(Seq::empty(), "app"@, JsonTree::Text("dsh-launcher"@));
            let b = with_field(a, "time"@, JsonTree::Text(ts));
            let c = with_field(b, "entries"@, JsonTree::List(text_trees(names)));
            JsonTree::Object(c) == manifest_tree(ts, names)
        }),
        depth(manifest_tree(ts, names)) == 2,
        whole(manifest_tree(ts, names)),
        field(manifest_tree(ts, names), "app"@) == Some(JsonTree::Text("dsh-launcher"@)),
{
    reveal_strlit("app");
    reveal_strlit("time");
    reveal_strlit("entries");
    assert("app"@.len() == 3 && "time"@.len() == 4 && "entries"@.len() == 7);
    reveal_with_fuel(field_at, 3);
    let none = Seq::<(Seq<char>, JsonTree)>::empty();
    let x = ("app"@, JsonTree::Text("dsh-launcher"@));
    let y = ("time"@, JsonTree::Text(ts));
    let z = ("entries"@, JsonTree::List(text_trees(names)));
    assert(field_at(none, "app"@) == 0);
    let a = none.push(x);
    assert(with_field(none, "app"@, x.1) =~= a);
    assert(a.skip(1) =~= none);
    assert(field_at(a.skip(1), "time"@) == 0);
    assert(field_at(a, "time"@) == 1);
    let b = a.push(y);
    assert(with_field(a, "time"@, y.1) =~= b);
    assert(b.skip(1).skip(1) =~= none);
    assert(b.skip(1)[0] == y);
    assert(field_at(b.skip(1).skip(1), "entries"@) == 0);
    assert(field_at(b.skip(1), "entries"@) == 1);
    assert(field_at(b, "entries"@) == 2);
    let c = b.push(z);
    assert(with_field(b, "entries"@, z.1) =~= c);
    assert(c =~= seq![x, y, z]);
    lemma_text_trees(names);
    assert(c.drop_last() =~= b);
    assert(b.drop_last() =~= a);
    assert(a.drop_last() =~= none);
    reveal_with_fuel(fields_depth, 4);
    reveal_with_fuel(fields_whole, 4);
    assert(fields_depth(none) == 0);
    assert(fields_depth(a) == 0);
    assert(fields_depth(b) == 0);
    assert(depth(z.1) == 1);
    assert(fields_depth(c) == 1);
    assert(fields_whole(c));
}

/// The text of the document that tells what a backup is, `names` being what the backup holds.
pub fn write_backup_manifest(ts: &str, names: Vec<String>) -> (r: Result<String, String>)
    ensures
        r is Ok,
        exists|sorted: Seq<Seq<char>>|
            ascending(sorted) && sorted.to_multiset() == views(names@).to_multiset()
                && r->Ok_0@ == json_compact(#[trigger] manifest_tree(ts@, sorted)) && json_text(
                r->Ok_0@,
            ) == Some(manifest_tree(ts@, sorted)),
        has_sub(r->Ok_0@, "dsh-launcher"@),
{
    let sorted = sort_strings(names);
    let mut items: Vec<Value> = Vec::new();
    let ghost sv = views(sorted@);
    let mut i: usize = 0;
    while i < sorted.len()
        invariant
            i <= sorted@.len(),
            sv == views(sorted@),
            value_trees(items@) == text_trees(sv).take(i as int),
        decreases sorted@.len() - i,
    {
        let ghost before = items@;
        items.push(text_value(sorted[i].as_str()));
        proof {
            assert(value_trees(items@) =~= value_trees(before).push(json_tree(items@.last())));
            assert(json_tree(items@.last()) == text_trees(sv)[i as int]);
            assert(text_trees(sv).take(i + 1) =~= text_trees(sv).take(i as int).push(
                text_trees(sv)[i as int],
            ));
        }
        i += 1;
    }
    proof {
        assert(text_trees(sv).take(sv.len() as int) =~= text_trees(sv));
        lemma_manifest(ts@, sv);
    }
    let mut doc = empty_object();
    set_field(&mut doc, "app", text_value("dsh-launcher"));
    set_field(&mut doc, "time", text_value(ts));
    set_field(&mut doc, "entries", list_value(items));
    proof {
        assert(json_tree(doc) == manifest_tree(ts@, sv));
        reveal_strlit("dsh-launcher");
        assert(unescaped("dsh-launcher"@));
        assert(as_text(field(json_tree(doc), "app"@)) == Some("dsh-launcher"@));
    }
    write_compact(&doc)
}

/// What is wrong with a backup that was packed: it is not there, it cannot be read, or it is empty.
pub fn check_packed(is_file: bool, entries: &Result<usize, String>) -> (r: Result<(), String>)
    ensures
        if !is_file {
            r matches Err(m) && m@ == "压缩完成但未生成备份文件"@
        } else {
            match *entries {
                Err(e) => r matches Err(m) && m@ == e@,
                Ok(n) => if n == 0 {
                    r matches Err(m) && m@ == "压缩完成但备份为空"@
                } else {
                    r is Ok
                },
            }
        },
{
    if !is_file {
        return Err("压缩完成但未生成备份文件".to_owned());
    }
    match entries {
        Err(e) => Err(e.clone()),
        Ok(n) => if *n == 0 {
            Err("压缩完成但备份为空".to_owned())
        } else {
            Ok(())
        },
    }
}

/// Whether Windows does not take a character in a name.
pub open spec fn forbidden(c: char) -> bool {
    c == ':' || c == '*' || c == '?' || c == '"' || c == '<' || c == '>' || c == '|' || is_ctrl(c)
}

/// Whether a name is that of a device: `CON`, `NUL`, `COM1` and the like.
pub open spec fn device(stem: Seq<char>) -> bool {
    ||| stem == "CON"@ || stem == "PRN"@ || stem == "AUX"@ || stem == "NUL"@
    ||| stem.len() == 4 && (stem.take(3) == "COM"@ || stem.take(3) == "LPT"@) && '1' <= stem[3]
        <= '9'
}

/// Whether a name stands for a device, whatever its case and extension.
pub open spec fn reserved(seg: Seq<char>) -> bool {
    device(upper_of(split_of(seg, '.')[0]))
}

/// Whether a name goes up, or stands for a device.
pub open spec fn refused(seg: Seq<char>) -> bool {
    seg == ".."@ || reserved(seg)
}

/// The names among the pieces of a path, without empty ones and `.`.
pub open spec fn path_names(parts: Seq<Seq<char>>) -> Seq<Seq<char>>
    decreases parts.len(),
{
    if parts.len() == 0 {
        Seq::empty()
    } else {
        let before = path_names(parts.drop_last());
        if parts.last().len() == 0 || parts.last() == "."@ {
            before
        } else {
            before.push(parts.last())
        }
    }
}

/// Whether one of the names is refused.
pub open spec fn any_refused(names: Seq<Seq<char>>) -> bool {
    exists|i: int| 0 <= i < names.len() && refused(#[trigger] names[i])
}

/// The names on the way to an entry of an archive below the directory that it is unpacked to. There
/// are none for an entry that would lie elsewhere, or that Windows cannot hold.
pub open spec fn entry_path(name: Seq<char>) -> Option<Seq<Seq<char>>> {
    let n = swap_of(name, '\\', '/');
    let names = path_names(split_of(n, '/'));
    if n.len() == 0 || n[0] == '/' || (exists|i: int|
        0 <= i < n.len() && forbidden(#[trigger] n[i])) || any_refused(names) || names.len() == 0 {
        None
    } else {
        Some(names)
    }
}

fn is_device(stem: &str) -> (r: bool)
    ensures
        r == device(stem@),
{
    if same(stem, "CON") || same(stem, "PRN") || same(stem, "AUX") || same(stem, "NUL") {
        return true;
    }
    if length(stem) != 4 {
        return false;
    }
    let head = part(stem, 0, 3);
    proof {
        assert(head@ =~= stem@.take(3));
    }
    let last = stem.get_char(3);
    (same(head, "COM") || same(head, "LPT")) && '1' <= last && last <= '9'
}

fn is_refused(seg: &str) -> (r: bool)
    ensures
        r == refused(seg@),
{
    if same(seg, "..") {
        return true;
    }
    let parts = split(seg, '.');
    proof {
        assert(views(parts@)[0] == parts@[0]@);
    }
    is_device(upper(parts[0].as_str()).as_str())
}

fn any_forbidden(s: &str) -> (r: bool)
    ensures
        r == exists|i: int| 0 <= i < s@.len() && forbidden(#[trigger] s@[i]),
{
    let cs = chars_of(s);
    let mut i: usize = 0;
    while i < cs.len()
        invariant
            cs@ == s@,
            i <= cs@.len(),
            forall|k: int| 0 <= k < i ==> !forbidden(#[trigger] cs@[k]),
        decreases cs@.len() - i,
    {
        let c = cs[i];
        if c == ':' || c == '*' || c == '?' || c == '"' || c == '<' || c == '>' || c == '|'
            || control(c) {
            proof {
                assert(forbidden(s@[i as int]));
            }
            return true;
        }
        i += 1;
    }
    false
}

/// The names on the way to an entry of an archive below the directory that it is unpacked to, or
/// nothing where it is not safe to unpack.
pub fn sanitize_entry_name(name: &str) -> (r: Option<Vec<String>>)
    ensures
        match r {
            Some(v) => entry_path(name@) == Some(views(v@)),
            None => entry_path(name@) is None,
        },
{
    let n = swap_char(name, '\\', '/');
    let n = n.as_str();
    if n.is_empty() || n.get_char(0) == '/' || any_forbidden(n) {
        return None;
    }
    let parts = split(n, '/');
    let ghost all = views(parts@);
    let mut out: Vec<String> = Vec::new();
    let mut bad = false;
    let mut i: usize = 0;
    proof {
        assert(views(out@) =~= Seq::empty());
    }
    while i < parts.len()
        invariant
            i <= parts@.len(),
            all == views(parts@),
            views(out@) == path_names(all.take(i as int)),
            bad == any_refused(views(out@)),
        decreases parts@.len() - i,
    {
        let ghost before = out@;
        proof {
            let next = all.take(i + 1);
            assert(next.drop_last() =~= all.take(i as int));
            assert(next.last() == parts@[i as int]@);
        }
        let p = parts[i].as_str();
        if !p.is_empty() && !same(p, ".") {
            let refused_here = is_refused(p);
            out.push(p.to_owned());
            proof {
                let a = views(before);
                let b = views(out@);
                assert(b =~= a.push(p@));
                if bad {
                    let k = choose|k: int| 0 <= k < a.len() && refused(#[trigger] a[k]);
                    assert(refused(b[k]));
                }
                if refused_here {
                    assert(refused(b[a.len() as int]));
                }
                if any_refused(b) && !refused_here {
                    let k = choose|k: int| 0 <= k < b.len() && refused(#[trigger] b[k]);
                    assert(refused(a[k]));
                }
            }
            bad = bad || refused_here;
        }
        i += 1;
    }
    proof {
        assert(all.take(all.len() as int) =~= all);
    }
    if bad || out.len() == 0 {
        None
    } else {
        Some(out)
    }
}

/// The names that Windows keeps for devices.
pub open spec fn device_names() -> Seq<Seq<char>> {
    seq![
        "CON"@,
        "PRN"@,
        "AUX"@,
        "NUL"@,
        "COM1"@,
        "COM2"@,
        "COM3"@,
        "COM4"@,
        "COM5"@,
        "COM6"@,
        "COM7"@,
        "COM8"@,
        "COM9"@,
        "LPT1"@,
        "LPT2"@,
        "LPT3"@,
        "LPT4"@,
        "LPT5"@,
        "LPT6"@,
        "LPT7"@,
        "LPT8"@,
        "LPT9"@,
    ]
}

/// Whether Windows takes a character in a name.
pub open spec fn held_in_names(c: char) -> bool {
    &&& !seq![':', '*', '?', '"', '<', '>', '|'].contains(c)
    &&& c >= ' '
    &&& !('\u{7f}' <= c <= '\u{9f}')
}

/// Whether a name is one that an entry can have: it is not empty, neither `.` nor `..`, holds no
/// separator and nothing that Windows does not take, and what stands before its first dot is, in
/// capitals, none of the names of devices.
pub open spec fn plain_name(seg: Seq<char>) -> bool {
    &&& seg.len() > 0
    &&& seg != "."@
    &&& seg != ".."@
    &&& !seg.contains('/')
    &&& !seg.contains('\\')
    &&& forall|i: int| 0 <= i < seg.len() ==> held_in_names(#[trigger] seg[i])
    &&& forall|k: int|
        0 <= k <= seg.len() && (k == seg.len() || seg[k] == '.') && !(#[trigger] seg.take(
            k,
        )).contains('.') ==> !device_names().contains(upper_of(seg.take(k)))
}

pub proof fn lemma_devices(stem: Seq<char>)
    ensures
        device(stem) <==> device_names().contains(stem),
{
    reveal_strlit("CON");
    reveal_strlit("PRN");
    reveal_strlit("AUX");
    reveal_strlit("NUL");
    reveal_strlit("COM1");
    reveal_strlit("COM2");
    reveal_strlit("COM3");
    reveal_strlit("COM4");
    reveal_strlit("COM5");
    reveal_strlit("COM6");
    reveal_strlit("COM7");
    reveal_strlit("COM8");
    reveal_strlit("COM9");
    reveal_strlit("LPT1");
    reveal_strlit("LPT2");
    reveal_strlit("LPT3");
    reveal_strlit("LPT4");
    reveal_strlit("LPT5");
    reveal_strlit("LPT6");
    reveal_strlit("LPT7");
    reveal_strlit("LPT8");
    reveal_strlit("LPT9");
    reveal_strlit("COM");
    reveal_strlit("LPT");
    let v = device_names();
    assert(v[0] == "CON"@);
    assert(v[1] == "PRN"@);
    assert(v[2] == "AUX"@);
    assert(v[3] == "NUL"@);
    assert(v[4] == "COM1"@);
    assert(v[5] == "COM2"@);
    assert(v[6] == "COM3"@);
    assert(v[7] == "COM4"@);
    assert(v[8] == "COM5"@);
    assert(v[9] == "COM6"@);
    assert(v[10] == "COM7"@);
    assert(v[11] == "COM8"@);
    assert(v[12] == "COM9"@);
    assert(v[13] == "LPT1"@);
    assert(v[14] == "LPT2"@);
    assert(v[15] == "LPT3"@);
    assert(v[16] == "LPT4"@);
    assert(v[17] == "LPT5"@);
    assert(v[18] == "LPT6"@);
    assert(v[19] == "LPT7"@);
    assert(v[20] == "LPT8"@);
    assert(v[21] == "LPT9"@);
    if device(stem) && stem.len() == 4 {
        if stem.take(3) == "COM"@ {
            assert(stem[0] == stem.take(3)[0] && stem[1] == stem.take(3)[1] && stem[2] == stem.take(
                3,
            )[2]);
            if stem[3] == '1' {
                assert(stem =~= v[4]);
            }
            if stem[3] == '2' {
                assert(stem =~= v[5]);
            }
            if stem[3] == '3' {
                assert(stem =~= v[6]);
            }
            if stem[3] == '4' {
                assert(stem =~= v[7]);
            }
            if stem[3] == '5' {
                assert(stem =~= v[8]);
            }
            if stem[3] == '6' {
                assert(stem =~= v[9]);
            }
            if stem[3] == '7' {
                assert(stem =~= v[10]);
            }
            if stem[3] == '8' {
                assert(stem =~= v[11]);
            }
            if stem[3] == '9' {
                assert(stem =~= v[12]);
            }
        }
        if stem.take(3) == "LPT"@ {
            assert(stem[0] == stem.take(3)[0] && stem[1] == stem.take(3)[1] && stem[2] == stem.take(
                3,
            )[2]);
            if stem[3] == '1' {
                assert(stem =~= v[13]);
            }
            if stem[3] == '2' {
                assert(stem =~= v[14]);
            }
            if stem[3] == '3' {
                assert(stem =~= v[15]);
            }
            if stem[3] == '4' {
                assert(stem =~= v[16]);
            }
            if stem[3] == '5' {
                assert(stem =~= v[17]);
            }
            if stem[3] == '6' {
                assert(stem =~= v[18]);
            }
            if stem[3] == '7' {
                assert(stem =~= v[19]);
            }
            if stem[3] == '8' {
                assert(stem =~= v[20]);
            }
            if stem[3] == '9' {
                assert(stem =~= v[21]);
            }
        }
    }
    if v.contains(stem) {
        let k = choose|k: int| 0 <= k < v.len() && v[k] == stem;
        if stem == v[4] {
            assert(stem.take(3) =~= "COM"@);
        }
        if stem == v[5] {
            assert(stem.take(3) =~= "COM"@);
        }
        if stem == v[6] {
            assert(stem.take(3) =~= "COM"@);
        }
        if stem == v[7] {
            assert(stem.take(3) =~= "COM"@);
        }
        if stem == v[8] {
            assert(stem.take(3) =~= "COM"@);
        }
        if stem == v[9] {
            assert(stem.take(3) =~= "COM"@);
        }
        if stem == v[10] {
            assert(stem.take(3) =~= "COM"@);
        }
        if stem == v[11] {
            assert(stem.take(3) =~= "COM"@);
        }
        if stem == v[12] {
            assert(stem.take(3) =~= "COM"@);
        }
        if stem == v[13] {
            assert(stem.take(3) =~= "LPT"@);
        }
        if stem == v[14] {
            assert(stem.take(3) =~= "LPT"@);
        }
        if stem == v[15] {
            assert(stem.take(3) =~= "LPT"@);
        }
        if stem == v[16] {
            assert(stem.take(3) =~= "LPT"@);
        }
        if stem == v[17] {
            assert(stem.take(3) =~= "LPT"@);
        }
        if stem == v[18] {
            assert(stem.take(3) =~= "LPT"@);
        }
        if stem == v[19] {
            assert(stem.take(3) =~= "LPT"@);
        }
        if stem == v[20] {
            assert(stem.take(3) =~= "LPT"@);
        }
        if stem == v[21] {
            assert(stem.take(3) =~= "LPT"@);
        }
    }
}

pub proof fn lemma_held(c: char)
    ensures
        forbidden(c) <==> !held_in_names(c),
{
    let v = seq![':', '*', '?', '"', '<', '>', '|'];
    assert(v[0] == ':' && v[1] == '*' && v[2] == '?' && v[3] == '"' && v[4] == '<' && v[5] == '>'
        && v[6] == '|');
}

/// A name is kept for a device if and only if what stands before its first dot is, in capitals, one
/// of the names of devices. A name that only begins like one is an ordinary name.
pub proof fn law_devices_are_the_listed_names(stem: Seq<char>, rest: Seq<char>)
    requires
        !stem.contains('.'),
        rest.len() > 0 ==> rest[0] == '.',
    ensures
        reserved(stem + rest) <==> device_names().contains(upper_of(stem)),
        refused(stem + rest) <==> stem + rest == ".."@ || device_names().contains(upper_of(stem)),
{
    let seg = stem + rest;
    assert forall|j: int| 0 <= j < stem.len() implies seg[j] != '.' by {
        assert(seg[j] == stem[j]);
        assert(stem.contains(stem[j]));
    }
    lemma_find_char_is(seg, '.', stem.len() as int);
    assert(seg.take(stem.len() as int) =~= stem);
    lemma_devices(upper_of(stem));
}

proof fn lemma_plain(seg: Seq<char>)
    ensures
        plain_name(seg) <==> seg.len() > 0 && seg != "."@ && !refused(seg) && !seg.contains('/')
            && !seg.contains('\\') && forall|i: int|
            0 <= i < seg.len() ==> !forbidden(#[trigger] seg[i]),
{
    assert forall|i: int| 0 <= i < seg.len() implies forbidden(#[trigger] seg[i])
        == !held_in_names(seg[i]) by {
        lemma_held(seg[i]);
    }
    lemma_find_char(seg, '.');
    let n = find_char(seg, '.');
    let stem = seg.take(n);
    let rest = seg.skip(n);
    assert(seg =~= stem + rest);
    assert(!stem.contains('.')) by {
        if stem.contains('.') {
            let j = choose|j: int| 0 <= j < stem.len() && stem[j] == '.';
            assert(seg[j] == '.');
        }
    }
    law_devices_are_the_listed_names(stem, rest);
    assert forall|k: int|
        0 <= k <= seg.len() && (k == seg.len() || seg[k] == '.') && !(#[trigger] seg.take(
            k,
        )).contains('.') implies k == n by {
        if k > n {
            assert(seg.take(k)[n] == '.');
        }
    }
}

proof fn lemma_path_names(parts: Seq<Seq<char>>, i: int)
    requires
        0 <= i < path_names(parts).len(),
    ensures
        parts.contains(path_names(parts)[i]),
        path_names(parts)[i].len() > 0,
        path_names(parts)[i] != "."@,
    decreases parts.len(),
{
    if parts.len() > 0 {
        let d = parts.drop_last();
        let before = path_names(d);
        if i < before.len() {
            lemma_path_names(d, i);
            let k = choose|k: int| 0 <= k < d.len() && d[k] == before[i];
            assert(parts[k] == before[i]);
            assert(path_names(parts)[i] == before[i]);
        } else {
            assert(parts[parts.len() - 1] == parts.last());
        }
    }
}

/// What is unpacked lies below the directory that it is unpacked to: every name on the way is a
/// plain one, so that none goes up or names another root.
pub proof fn law_entries_stay_below(name: Seq<char>, i: int)
    requires
        entry_path(name) is Some,
        0 <= i < entry_path(name)->0.len(),
    ensures
        plain_name(entry_path(name)->0[i]),
{
    let n = swap_of(name, '\\', '/');
    let parts = split_of(n, '/');
    let names = path_names(parts);
    lemma_path_names(parts, i);
    let seg = names[i];
    let k = choose|k: int| 0 <= k < parts.len() && parts[k] == seg;
    lemma_split_pieces(n, '/', k);
    assert(!seg.contains('\\')) by {
        if seg.contains('\\') {
            assert(n.contains('\\'));
            let j = choose|j: int| 0 <= j < n.len() && n[j] == '\\';
            assert(false);
        }
    }
    assert forall|j: int| 0 <= j < seg.len() implies !forbidden(#[trigger] seg[j]) by {
        assert(seg.contains(seg[j]));
        assert(n.contains(seg[j]));
        let m = choose|m: int| 0 <= m < n.len() && n[m] == seg[j];
        assert(!forbidden(n[m]));
    }
    assert(!refused(names[i]));
    lemma_plain(seg);
}

proof fn lemma_all_names(parts: Seq<Seq<char>>)
    requires
        forall|i: int| 0 <= i < parts.len() ==> (#[trigger] parts[i]).len() > 0 && parts[i] != "."@,
    ensures
        path_names(parts) == parts,
    decreases parts.len(),
{
    if parts.len() > 0 {
        let d = parts.drop_last();
        assert forall|i: int| 0 <= i < d.len() implies (#[trigger] d[i]).len() > 0 && d[i]
            != "."@ by {
            assert(d[i] == parts[i]);
        }
        lemma_all_names(d);
        assert(parts[parts.len() - 1].len() > 0 && parts[parts.len() - 1] != "."@);
        assert(d.push(parts.last()) =~= parts);
    } else {
        assert(path_names(parts) =~= parts);
    }
}

proof fn lemma_join_holds(parts: Seq<Seq<char>>, sep: Seq<char>, i: int)
    requires
        0 <= i < join_of(parts, sep).len(),
    ensures
        sep.contains(join_of(parts, sep)[i]) || exists|k: int|
            0 <= k < parts.len() && (#[trigger] parts[k]).contains(join_of(parts, sep)[i]),
    decreases parts.len(),
{
    let s = join_of(parts, sep);
    if parts.len() == 1 {
        assert(parts[0].contains(parts[0][i]));
    } else if parts.len() > 1 {
        let d = parts.drop_last();
        let t = join_of(d, sep);
        if i < t.len() {
            lemma_join_holds(d, sep, i);
            assert(s[i] == t[i]);
            if !sep.contains(s[i]) {
                let k = choose|k: int| 0 <= k < d.len() && (#[trigger] d[k]).contains(t[i]);
                assert(parts[k].contains(s[i]));
            }
        } else if i < t.len() + sep.len() {
            assert(s[i] == sep[i - t.len()]);
        } else {
            assert(s[i] == parts.last()[i - t.len() - sep.len()]);
            assert(parts[parts.len() - 1].contains(s[i]));
        }
    }
}

/// What was packed is unpacked at its place: the name in the archive leads back to the names on the
/// way, for files and for directories.
pub proof fn law_packed_names_lead_back(segs: Seq<Seq<char>>, is_dir: bool)
    requires
        segs.len() > 0,
        forall|i: int| 0 <= i < segs.len() ==> plain_name(#[trigger] segs[i]),
    ensures
        entry_path(zip_name(segs, is_dir)) == Some(segs),
{
    assert forall|i: int| 0 <= i < segs.len() implies {
        &&& (#[trigger] segs[i]).len() > 0 && segs[i] != "."@ && !refused(segs[i])
        &&& !segs[i].contains('/') && !segs[i].contains('\\')
        &&& forall|j: int| 0 <= j < segs[i].len() ==> !forbidden(#[trigger] segs[i][j])
    } by {
        assert(plain_name(segs[i]));
        lemma_plain(segs[i]);
    }
    reveal_strlit("/");
    assert("/"@ =~= seq!['/']);
    let s = join_of(segs, "/"@);
    let n = zip_name(segs, is_dir);
    assert forall|i: int| 0 <= i < segs.len() implies !(#[trigger] segs[i]).contains('/') by {
        assert(plain_name(segs[i]));
    }
    lemma_split_join(segs, '/');
    assert forall|i: int| 0 <= i < s.len() implies s[i] != '\\' && !forbidden(#[trigger] s[i]) by {
        lemma_join_holds(segs, "/"@, i);
        if !"/"@.contains(s[i]) {
            let k = choose|k: int| 0 <= k < segs.len() && (#[trigger] segs[k]).contains(s[i]);
            assert(plain_name(segs[k]));
            let j = choose|j: int| 0 <= j < segs[k].len() && segs[k][j] == s[i];
            assert(!forbidden(segs[k][j]));
        } else {
            let j = choose|j: int| 0 <= j < "/"@.len() && "/"@[j] == s[i];
        }
    }
    assert(plain_name(segs[0]));
    lemma_join_starts(segs, "/"@);
    assert(segs[0][0] != '/') by {
        assert(segs[0].contains(segs[0][0]));
    }
    assert forall|i: int| 0 <= i < segs.len() implies (#[trigger] segs[i]).len() > 0 && segs[i]
        != "."@ by {
        assert(plain_name(segs[i]));
    }
    lemma_all_names(segs);
    assert(swap_of(n, '\\', '/') =~= n);
    if is_dir {
        assert(n =~= s.push('/'));
        lemma_split_end(s, '/');
        assert(split_of(n, '/').drop_last() =~= segs);
    } else {
        assert(n == s);
    }
    assert(path_names(split_of(n, '/')) == segs);
    assert(!any_refused(segs)) by {
        if any_refused(segs) {
            let k = choose|k: int| 0 <= k < segs.len() && refused(#[trigger] segs[k]);
            assert(plain_name(segs[k]));
        }
    }
    assert(n[0] == s[0]);
    assert forall|i: int| 0 <= i < n.len() implies !forbidden(#[trigger] n[i]) by {
        if i < s.len() {
            assert(n[i] == s[i]);
        }
    }
}

proof fn lemma_join_starts(parts: Seq<Seq<char>>, sep: Seq<char>)
    requires
        parts.len() > 0,
        parts[0].len() > 0,
    ensures
        join_of(parts, sep).len() > 0,
        join_of(parts, sep)[0] == parts[0][0],
    decreases parts.len(),
{
    if parts.len() > 1 {
        lemma_join_starts(parts.drop_last(), sep);
    }
}

/// The time in the name of a backup, without its beginning and end.
pub open spec fn stamp_in(file_name: Seq<char>) -> Option<Seq<char>> {
    let rest = if "dsh-backup-"@.is_prefix_of(file_name) {
        Some(file_name.skip("dsh-backup-"@.len() as int))
    } else if "pre-restore-"@.is_prefix_of(file_name) {
        Some(file_name.skip("pre-restore-"@.len() as int))
    } else {
        None
    };
    match rest {
        Some(t) => if ".zip"@.is_suffix_of(t) {
            Some(t.take(t.len() - ".zip"@.len()))
        } else {
            None
        },
        None => None,
    }
}

/// Whether a text has the shape of a stamp.
pub open spec fn stamp_shape(t: Seq<char>) -> bool {
    &&& t.len() == 17
    &&& t[10] == '_'
    &&& forall|i: int| 0 <= i < 10 ==> is_digit(#[trigger] t[i]) || t[i] == '-'
    &&& forall|i: int| 11 <= i < 17 ==> is_digit(#[trigger] t[i])
}

/// The time in the name of a backup for a reader, empty where there is none.
pub open spec fn backup_time(file_name: Seq<char>) -> Seq<char> {
    match stamp_in(file_name) {
        Some(t) => if stamp_shape(t) {
            t.take(10) + " "@ + t.subrange(11, 13) + ":"@ + t.subrange(13, 15)
        } else {
            Seq::empty()
        },
        None => Seq::empty(),
    }
}

fn has_stamp_shape(cs: &Vec<char>) -> (r: bool)
    ensures
        r == stamp_shape(cs@),
{
    if cs.len() != 17 || cs[10] != '_' {
        return false;
    }
    let mut i: usize = 0;
    while i < 17
        invariant
            i <= 17,
            cs@.len() == 17,
            cs@[10] == '_',
            forall|k: int|
                0 <= k < i && k < 10 ==> is_digit(#[trigger] cs@[k]) || cs@[k] == '-',
            forall|k: int| 11 <= k < i ==> is_digit(#[trigger] cs@[k]),
        decreases 17 - i,
    {
        let c = cs[i];
        let digit = '0' <= c && c <= '9';
        if i != 10 && !digit && !(i < 10 && c == '-') {
            return false;
        }
        i += 1;
    }
    true
}

/// The stamp in the name of a backup, empty where there is none.
pub open spec fn listed_stamp(file_name: Seq<char>) -> Seq<char> {
    match stamp_in(file_name) {
        Some(t) => if stamp_shape(t) {
            t
        } else {
            Seq::empty()
        },
        None => Seq::empty(),
    }
}

fn stamp_text(file_name: &str) -> (r: &str)
    ensures
        r@ == listed_stamp(file_name@),
{
    proof {
        reveal_strlit("");
        assert(""@ =~= Seq::<char>::empty());
    }
    let rest = match without_prefix(file_name, "dsh-backup-") {
        Some(t) => Some(t),
        None => without_prefix(file_name, "pre-restore-"),
    };
    let rest = match rest {
        Some(t) => t,
        None => {
            return "";
        },
    };
    let t = match without_suffix(rest, ".zip") {
        Some(t) => t,
        None => {
            return "";
        },
    };
    let cs = chars_of(t);
    if has_stamp_shape(&cs) {
        t
    } else {
        ""
    }
}

/// The time in the name of a backup for a reader, as `yyyy-MM-dd HH:mm`, empty where there is none.
pub fn format_backup_time(file_name: &str) -> (r: String)
    ensures
        r@ == backup_time(file_name@),
{
    let t = stamp_text(file_name);
    if t.is_empty() {
        return String::new();
    }
    let day = part(t, 0, 10);
    proof {
        assert(day@ =~= t@.take(10));
    }
    day.to_owned().concat(" ").concat(part(t, 11, 13)).concat(":").concat(part(t, 13, 15))
}

/// The name of a backup leads back to its time.
pub proof fn law_backup_name_shows_its_time(t: Moment)
    requires
        stampable(t),
    ensures
        ({
            let s = stamp_of(t);
            backup_time("dsh-backup-"@ + s + ".zip"@) == s.take(10) + " "@ + s.subrange(11, 13)
                + ":"@ + s.subrange(13, 15)
        }),
{
    let s = stamp_of(t);
    lemma_stamp(t);
    let p = "dsh-backup-"@;
    let z = ".zip"@;
    let name = p + s + z;
    assert(p.is_prefix_of(name)) by {
        assert(name.subrange(0, p.len() as int) =~= p);
    }
    let rest = name.skip(p.len() as int);
    assert(rest =~= s + z);
    assert(z.is_suffix_of(rest)) by {
        assert(rest.subrange(rest.len() - z.len(), rest.len() as int) =~= z);
    }
    assert(rest.take(rest.len() - z.len()) =~= s);
}

/// A file in the directory of the backups.
pub struct FileEntry {
    /// Its name.
    pub name: String,
    /// Its size, where it is a file.
    pub size: Option<u64>,
}

/// A backup.
pub struct BackupInfo {
    /// The name of its file.
    pub file_name: String,
    /// Its size.
    pub size: u64,
    /// Its time for a reader.
    pub modified: String,
    /// `backup`, or `pre-restore` for one that was made before a restore.
    pub kind: String,
}

/// Whether a backup is that of a file.
pub open spec fn tells_of(b: BackupInfo, name: Seq<char>, size: u64) -> bool {
    &&& b.file_name@ == name
    &&& b.size == size
    &&& b.modified@ == backup_time(name)
    &&& b.kind@ == if "pre-restore-"@.is_prefix_of(name) {
        "pre-restore"@
    } else {
        "backup"@
    }
}

/// The files that are backups, with their sizes.
pub open spec fn backup_files(v: Seq<FileEntry>) -> Seq<(Seq<char>, u64)>
    decreases v.len(),
{
    if v.len() == 0 {
        Seq::empty()
    } else {
        let before = backup_files(v.drop_last());
        if ".zip"@.is_suffix_of(v.last().name@) && v.last().size is Some {
            before.push((v.last().name@, v.last().size->0))
        } else {
            before
        }
    }
}

/// Whether the backup `a` is listed before `b`: the one with the later stamp, and of two with the
/// same stamp the one with the later name. One without a stamp comes last.
pub open spec fn listed_first(a: Seq<char>, b: Seq<char>) -> bool {
    ||| text_before(listed_stamp(b), listed_stamp(a))
    ||| listed_stamp(a) == listed_stamp(b) && text_before(b, a)
}

/// A list of backups in order with `x` at its place in it.
pub open spec fn at_place(v: Seq<(Seq<char>, u64)>, x: (Seq<char>, u64)) -> Seq<(Seq<char>, u64)>
    decreases v.len(),
{
    if v.len() == 0 || !listed_first(x.0, v.last().0) {
        v.push(x)
    } else {
        at_place(v.drop_last(), x).push(v.last())
    }
}

/// Backups in the order in which they are listed.
pub open spec fn newest_first(v: Seq<(Seq<char>, u64)>) -> Seq<(Seq<char>, u64)>
    decreases v.len(),
{
    if v.len() == 0 {
        Seq::empty()
    } else {
        at_place(newest_first(v.drop_last()), v.last())
    }
}

/// What a list of backups tells of.
pub open spec fn tells_all(r: Seq<BackupInfo>, v: Seq<(Seq<char>, u64)>) -> bool {
    &&& r.len() == v.len()
    &&& forall|i: int| 0 <= i < r.len() ==> tells_of(#[trigger] r[i], v[i].0, v[i].1)
}

fn comes_first(a: &str, b: &str) -> (r: bool)
    ensures
        r == listed_first(a@, b@),
{
    let x = stamp_text(a);
    let y = stamp_text(b);
    comes_before(y, x) || same(x, y) && comes_before(b, a)
}

proof fn lemma_at_place(v: Seq<(Seq<char>, u64)>, x: (Seq<char>, u64), n: int)
    requires
        0 <= n <= v.len(),
        forall|k: int| n <= k < v.len() ==> listed_first(x.0, (#[trigger] v[k]).0),
        n > 0 ==> !listed_first(x.0, v[n - 1].0),
    ensures
        at_place(v, x) == v.insert(n, x),
    decreases v.len(),
{
    if n == v.len() {
        assert(v.insert(n, x) =~= v.push(x));
    } else {
        assert(listed_first(x.0, v[v.len() - 1].0));
        let d = v.drop_last();
        assert forall|k: int| n <= k < d.len() implies listed_first(x.0, (#[trigger] d[k]).0) by {
            assert(d[k] == v[k]);
        }
        lemma_at_place(d, x, n);
        assert(d.insert(n, x).push(v.last()) =~= v.insert(n, x));
    }
}

fn backup_info(name: &str, size: u64) -> (r: BackupInfo)
    ensures
        tells_of(r, name@, size),
{
    BackupInfo {
        file_name: name.to_owned(),
        size,
        modified: format_backup_time(name),
        kind: (if starts(name, "pre-restore-") {
            "pre-restore"
        } else {
            "backup"
        }).to_owned(),
    }
}

/// The backups among the files, of all kinds together, the newest first.
pub fn list_backup_files(files: &Vec<FileEntry>) -> (r: Vec<BackupInfo>)
    ensures
        tells_all(r@, newest_first(backup_files(files@))),
{
    let mut out: Vec<BackupInfo> = Vec::new();
    let mut i: usize = 0;
    while i < files.len()
        invariant
            i <= files@.len(),
            tells_all(out@, newest_first(backup_files(files@.take(i as int)))),
        decreases files@.len() - i,
    {
        let ghost before = newest_first(backup_files(files@.take(i as int)));
        proof {
            let next = files@.take(i + 1);
            assert(next.drop_last() =~= files@.take(i as int));
            assert(next.last() == files@[i as int]);
        }
        let f = &files[i];
        if ends(f.name.as_str(), ".zip") {
            match f.size {
                Some(size) => {
                    let ghost x = (f.name@, size);
                    let mut n: usize = out.len();
                    while n > 0 && comes_first(f.name.as_str(), out[n - 1].file_name.as_str())
                        invariant
                            n <= out@.len(),
                            tells_all(out@, before),
                            x.0 == f.name@,
                            forall|k: int|
                                n <= k < before.len() ==> listed_first(
                                    x.0,
                                    (#[trigger] before[k]).0,
                                ),
                        decreases n,
                    {
                        proof {
                            assert(tells_of(out@[n - 1], before[n - 1].0, before[n - 1].1));
                        }
                        n -= 1;
                    }
                    proof {
                        if n > 0 {
                            assert(tells_of(out@[n - 1], before[n - 1].0, before[n - 1].1));
                        }
                        lemma_at_place(before, x, n as int);
                    }
                    let ghost listed = out@;
                    let info = backup_info(f.name.as_str(), size);
                    out.insert(n, info);
                    proof {
                        let now = backup_files(files@.take(i + 1));
                        assert(now.drop_last() =~= backup_files(files@.take(i as int)));
                        assert(newest_first(now) == before.insert(n as int, x));
                        assert forall|k: int| 0 <= k < out@.len() implies tells_of(
                            #[trigger] out@[k],
                            newest_first(now)[k].0,
                            newest_first(now)[k].1,
                        ) by {
                            if k < n {
                                assert(out@[k] == listed[k]);
                            } else if k > n {
                                assert(out@[k] == listed[k - 1]);
                            }
                        }
                    }
                },
                None => {},
            }
        }
        i += 1;
    }
    proof {
        assert(files@.take(files@.len() as int) =~= files@);
    }
    out
}

proof fn lemma_first_one_way(a: Seq<char>, b: Seq<char>)
    ensures
        !(listed_first(a, b) && listed_first(b, a)),
        listed_first(a, b) || listed_first(b, a) || a == b,
{
    lemma_before_one_way(a, b);
    lemma_before_one_way(listed_stamp(a), listed_stamp(b));
    lemma_before_total(a, b);
    lemma_before_total(listed_stamp(a), listed_stamp(b));
}

proof fn lemma_first_chain(a: Seq<char>, b: Seq<char>, c: Seq<char>)
    requires
        listed_first(a, b),
        listed_first(b, c),
    ensures
        listed_first(a, c),
{
    let x = listed_stamp(a);
    let y = listed_stamp(b);
    let z = listed_stamp(c);
    if text_before(y, x) && text_before(z, y) {
        lemma_before_chain(z, y, x);
    } else if x == y && y == z {
        lemma_before_chain(c, b, a);
    }
}

/// Whether no backup of the list belongs before an earlier one.
pub open spec fn in_listed_order(v: Seq<(Seq<char>, u64)>) -> bool {
    forall|i: int, j: int|
        0 <= i < j < v.len() ==> !listed_first((#[trigger] v[j]).0, (#[trigger] v[i]).0)
}

proof fn lemma_place_keeps_order(v: Seq<(Seq<char>, u64)>, x: (Seq<char>, u64))
    requires
        in_listed_order(v),
    ensures
        in_listed_order(at_place(v, x)),
        at_place(v, x).to_multiset() == v.to_multiset().insert(x),
        forall|k: int|
            0 <= k < at_place(v, x).len() ==> (#[trigger] at_place(v, x)[k]) == x || v.contains(
                at_place(v, x)[k],
            ),
    decreases v.len(),
{
    broadcast use vstd::seq_lib::group_to_multiset_ensures;

    let w = at_place(v, x);
    if v.len() == 0 || !listed_first(x.0, v.last().0) {
        assert forall|i: int, j: int| 0 <= i < j < w.len() implies !listed_first(
            (#[trigger] w[j]).0,
            (#[trigger] w[i]).0,
        ) by {
            if j == v.len() {
                let l = v.last();
                if i < v.len() - 1 && listed_first(x.0, v[i].0) {
                    assert(!listed_first(v[v.len() - 1].0, v[i].0));
                    lemma_first_one_way(l.0, v[i].0);
                    if listed_first(v[i].0, l.0) {
                        lemma_first_chain(x.0, v[i].0, l.0);
                    }
                }
            } else {
                assert(w[i] == v[i] && w[j] == v[j]);
            }
        }
    } else {
        let d = v.drop_last();
        assert forall|i: int, j: int| 0 <= i < j < d.len() implies !listed_first(
            (#[trigger] d[j]).0,
            (#[trigger] d[i]).0,
        ) by {
            assert(d[i] == v[i] && d[j] == v[j]);
        }
        lemma_place_keeps_order(d, x);
        let u = at_place(d, x);
        let l = v.last();
        assert(v =~= d.push(l));
        assert(w.to_multiset() =~= v.to_multiset().insert(x));
        assert forall|i: int, j: int| 0 <= i < j < w.len() implies !listed_first(
            (#[trigger] w[j]).0,
            (#[trigger] w[i]).0,
        ) by {
            if j == u.len() {
                assert(w[i] == u[i]);
                lemma_first_one_way(x.0, l.0);
                if u[i] != x {
                    assert(d.contains(u[i]));
                    let k = choose|k: int| 0 <= k < d.len() && d[k] == u[i];
                    assert(!listed_first(v[v.len() - 1].0, v[k].0));
                }
            } else {
                assert(w[i] == u[i] && w[j] == u[j]);
            }
        }
        assert forall|k: int| 0 <= k < w.len() implies (#[trigger] w[k]) == x || v.contains(
            w[k],
        ) by {
            if k < u.len() {
                assert(w[k] == u[k]);
                if u[k] != x {
                    let q = choose|q: int| 0 <= q < d.len() && d[q] == u[k];
                    assert(v[q] == w[k]);
                }
            } else {
                assert(v[v.len() - 1] == w[k]);
            }
        }
    }
}

/// The list of backups holds them all, and none comes before a newer one.
pub proof fn law_newest_backup_is_listed_first(v: Seq<(Seq<char>, u64)>)
    ensures
        in_listed_order(newest_first(v)),
        newest_first(v).to_multiset() == v.to_multiset(),
    decreases v.len(),
{
    broadcast use vstd::seq_lib::group_to_multiset_ensures;

    if v.len() > 0 {
        let d = v.drop_last();
        law_newest_backup_is_listed_first(d);
        lemma_place_keeps_order(newest_first(d), v.last());
        assert(v =~= d.push(v.last()));
    } else {
        assert(newest_first(v) =~= v);
    }
}

/// The names that start with `prefix` and end with `.zip`.
pub open spec fn matching(names: Seq<Seq<char>>, prefix: Seq<char>) -> Seq<Seq<char>>
    decreases names.len(),
{
    if names.len() == 0 {
        Seq::empty()
    } else {
        let before = matching(names.drop_last(), prefix);
        if prefix.is_prefix_of(names.last()) && ".zip"@.is_suffix_of(names.last()) {
            before.push(names.last())
        } else {
            before
        }
    }
}

/// Whether `gone` are the backups among `names` to be removed: in order, all but the last `keep`.
pub open spec fn to_be_removed(
    names: Seq<Seq<char>>,
    prefix: Seq<char>,
    keep: nat,
    gone: Seq<Seq<char>>,
) -> bool {
    exists|sorted: Seq<Seq<char>>| #[trigger]
        ascending(sorted) && sorted.to_multiset() == matching(names, prefix).to_multiset() && gone == (
        if sorted.len() > keep {
            sorted.take(sorted.len() - keep)
        } else {
            Seq::empty()
        })
}

/// The old backups of a kind: all but the last `keep` of their names in order.
pub fn cleanup_old_backups(names: &Vec<String>, prefix: &str, keep: usize) -> (r: Vec<String>)
    ensures
        to_be_removed(views(names@), prefix@, keep as nat, views(r@)),
{
    let ghost all = views(names@);
    let mut found: Vec<String> = Vec::new();
    let mut i: usize = 0;
    proof {
        assert(views(found@) =~= Seq::empty());
    }
    while i < names.len()
        invariant
            i <= names@.len(),
            all == views(names@),
            views(found@) == matching(all.take(i as int), prefix@),
        decreases names@.len() - i,
    {
        let ghost before = found@;
        proof {
            let next = all.take(i + 1);
            assert(next.drop_last() =~= all.take(i as int));
            assert(next.last() == names@[i as int]@);
        }
        if starts(names[i].as_str(), prefix) && ends(names[i].as_str(), ".zip") {
            found.push(names[i].clone());
            proof {
                assert(views(found@) =~= views(before).push(names@[i as int]@));
            }
        }
        i += 1;
    }
    proof {
        assert(all.take(all.len() as int) =~= all);
    }
    let sorted = sort_strings(found);
    let ghost sv = views(sorted@);
    let mut out: Vec<String> = Vec::new();
    proof {
        assert(views(out@) =~= Seq::empty());
    }
    if sorted.len() > keep {
        let n: usize = sorted.len() - keep;
        let mut k: usize = 0;
        while k < n
            invariant
                k <= n <= sorted@.len(),
                sv == views(sorted@),
                views(out@) == sv.take(k as int),
            decreases n - k,
        {
            let ghost before = out@;
            out.push(sorted[k].clone());
            proof {
                assert(views(out@) =~= views(before).push(sv[k as int]));
                assert(sv.take(k + 1) =~= sv.take(k as int).push(sv[k as int]));
            }
            k += 1;
        }
    }
    proof {
        assert(ascending(sv));
    }
    out
}

/// What is removed is never newer, by its name, than what is kept, and `keep` backups are kept
/// where there are so many.
pub proof fn law_newest_backups_are_kept(sorted: Seq<Seq<char>>, keep: nat, i: int, j: int)
    requires
        ascending(sorted),
        sorted.len() > keep,
        0 <= i < sorted.len() - keep,
        sorted.len() - keep <= j < sorted.len(),
    ensures
        !text_before(sorted[j], sorted[i]),
        sorted.len() - sorted.take(sorted.len() - keep).len() == keep,
{
}

/// Backups are in the order of their times, so that the names that come last are the newest.
pub proof fn law_backup_names_in_order_of_time(prefix: Seq<char>, a: Moment, b: Moment)
    requires
        stampable(a),
        stampable(b),
    ensures
        text_before(prefix + stamp_of(a) + ".zip"@, prefix + stamp_of(b) + ".zip"@)
            <==> crate::clock::earlier(a, b),
{
    lemma_stamp(a);
    lemma_stamp(b);
    let z = ".zip"@;
    let x = stamp_of(a);
    let y = stamp_of(b);
    crate::clock::law_stamps_in_order_of_time(a, b);
    crate::clock::lemma_before_joined(prefix, prefix, x + z, y + z);
    crate::clock::lemma_before_joined(x, y, z, z);
    crate::order::lemma_before_one_way(prefix, prefix);
    crate::order::lemma_before_one_way(z, z);
    assert(prefix + x + z =~= prefix + (x + z));
    assert(prefix + y + z =~= prefix + (y + z));
}

/// The name of a backup that is made before a restore or not.
pub open spec fn name_at(before_restore: bool, t: Moment) -> Seq<char> {
    (if before_restore {
        "pre-restore-"@
    } else {
        "dsh-backup-"@
    }) + stamp_of(t) + ".zip"@
}

proof fn lemma_listed_stamp(before_restore: bool, t: Moment)
    requires
        stampable(t),
    ensures
        listed_stamp(name_at(before_restore, t)) == stamp_of(t),
{
    let s = stamp_of(t);
    lemma_stamp(t);
    let p = if before_restore {
        "pre-restore-"@
    } else {
        "dsh-backup-"@
    };
    let z = ".zip"@;
    let name = name_at(before_restore, t);
    assert(p.is_prefix_of(name)) by {
        assert(name.subrange(0, p.len() as int) =~= p);
    }
    if before_restore {
        reveal_strlit("pre-restore-");
        reveal_strlit("dsh-backup-");
        assert(name[0] == 'p');
        if "dsh-backup-"@.is_prefix_of(name) {
            assert(name.subrange(0, "dsh-backup-"@.len() as int)[0] == 'd');
        }
    }
    let rest = name.skip(p.len() as int);
    assert(rest =~= s + z);
    assert(z.is_suffix_of(rest)) by {
        assert(rest.subrange(rest.len() - z.len(), rest.len() as int) =~= z);
    }
    assert(rest.take(rest.len() - z.len()) =~= s);
}

/// A backup made later is listed before one made earlier, whatever their kinds.
pub proof fn law_later_backup_is_listed_first(a_kind: bool, a: Moment, b_kind: bool, b: Moment)
    requires
        stampable(a),
        stampable(b),
        crate::clock::earlier(a, b),
    ensures
        listed_first(name_at(b_kind, b), name_at(a_kind, a)),
{
    lemma_listed_stamp(a_kind, a);
    lemma_listed_stamp(b_kind, b);
    crate::clock::law_stamps_in_order_of_time(a, b);
}

/// The name of the file of a new backup.
pub fn backup_file_name(prefix: &str, stamp: &str) -> (r: String)
    ensures
        r@ == prefix@ + stamp@ + ".zip"@,
{
    prefix.to_owned().concat(stamp).concat(".zip")
}

/// The values of a backup.
pub struct BackupView {
    /// The name of its file.
    pub file_name: Seq<char>,
    /// Its size.
    pub size: u64,
    /// Its time for a reader.
    pub modified: Seq<char>,
    /// `backup` or `pre-restore`.
    pub kind: Seq<char>,
}

impl View for BackupInfo {
    type V = BackupView;

    open spec fn view(&self) -> BackupView {
        BackupView {
            file_name: self.file_name@,
            size: self.size,
            modified: self.modified@,
            kind: self.kind@,
        }
    }
}

/// What a new backup is told as.
pub open spec fn new_backup(stamp: Seq<char>, size: u64) -> BackupView {
    let file_name = "dsh-backup-"@ + stamp + ".zip"@;
    BackupView { file_name, size, modified: backup_time(file_name), kind: "backup"@ }
}

/// What is told where another backup or restore is under way.
pub const BACKUP_BUSY_MSG: &'static str = "另一项备份/恢复操作正在进行，请稍候再试";

/// What was found out and done so far to back up the data.
pub struct BackupEvidence {
    /// Whether a DSH runs that the launcher started.
    pub running: Option<bool>,
    /// What came of making the directory of the backups.
    pub dir: Option<Result<(), String>>,
    /// What came of packing the data.
    pub packed: Option<Result<(), String>>,
    /// The size of the backup, once the old ones are removed.
    pub size: Option<u64>,
}

/// What to do next to back up the data.
pub enum BackupStep {
    /// Find out whether a DSH runs that the launcher started.
    AskRunning,
    /// Make the directory of the backups.
    MakeDir,
    /// Pack the data into a file of this name there.
    Pack(String),
    /// Remove the old backups, and find out the size of the new one.
    AskSize,
    /// It is over.
    Done(Result<BackupInfo, String>),
}

/// The values of a step.
pub enum BackupStepView {
    /// Find out whether DSH runs.
    AskRunning,
    /// Make the directory of the backups.
    MakeDir,
    /// Pack the data.
    Pack(Seq<char>),
    /// Remove the old backups, and find out the size of the new one.
    AskSize,
    /// It is over.
    Done(Result<BackupView, Seq<char>>),
}

impl View for BackupStep {
    type V = BackupStepView;

    open spec fn view(&self) -> BackupStepView {
        match self {
            BackupStep::AskRunning => BackupStepView::AskRunning,
            BackupStep::MakeDir => BackupStepView::MakeDir,
            BackupStep::Pack(n) => BackupStepView::Pack(n@),
            BackupStep::AskSize => BackupStepView::AskSize,
            BackupStep::Done(Ok(b)) => BackupStepView::Done(Ok(b@)),
            BackupStep::Done(Err(m)) => BackupStepView::Done(Err(m@)),
        }
    }
}

/// What to do next to back up the data at the time `stamp`.
pub open spec fn backup_next(stamp: Seq<char>, ev: BackupEvidence) -> BackupStepView {
    match ev.running {
        None => BackupStepView::AskRunning,
        Some(true) => BackupStepView::Done(
            Err(
                "启动器启动的 DSH 正在运行，请先停止 DSH 再进行备份（运行中备份可能不完整）"@,
            ),
        ),
        Some(false) => match ev.dir {
            None => BackupStepView::MakeDir,
            Some(Err(e)) => BackupStepView::Done(Err("创建备份目录失败："@ + e@)),
            Some(Ok(_)) => match ev.packed {
                None => BackupStepView::Pack("dsh-backup-"@ + stamp + ".zip"@),
                Some(Err(e)) => BackupStepView::Done(Err(e@)),
                Some(Ok(_)) => match ev.size {
                    None => BackupStepView::AskSize,
                    Some(n) => BackupStepView::Done(Ok(new_backup(stamp, n))),
                },
            },
        },
    }
}

/// What to do next to back up the data at the time `stamp`, by what was found out and done so far.
pub fn backup_dsh(stamp: &str, ev: &BackupEvidence) -> (r: BackupStep)
    ensures
        r@ == backup_next(stamp@, *ev),
{
    match ev.running {
        None => {
            return BackupStep::AskRunning;
        },
        Some(running) => if running {
            return BackupStep::Done(
                Err(
                    "启动器启动的 DSH 正在运行，请先停止 DSH 再进行备份（运行中备份可能不完整）".to_owned(),
                ),
            );
        },
    }
    match &ev.dir {
        None => {
            return BackupStep::MakeDir;
        },
        Some(Err(e)) => {
            return BackupStep::Done(Err("创建备份目录失败：".to_owned().concat(e.as_str())));
        },
        Some(Ok(_)) => {},
    }
    let file_name = backup_file_name("dsh-backup-", stamp);
    match &ev.packed {
        None => {
            return BackupStep::Pack(file_name);
        },
        Some(Err(e)) => {
            return BackupStep::Done(Err(e.clone()));
        },
        Some(Ok(_)) => {},
    }
    match ev.size {
        None => BackupStep::AskSize,
        Some(size) => {
            let modified = format_backup_time(file_name.as_str());
            BackupStep::Done(
                Ok(BackupInfo { file_name, size, modified, kind: "backup".to_owned() }),
            )
        },
    }
}

/// The data are packed only while no DSH runs that the launcher started, and old backups go only
/// where a new one was packed.
pub proof fn law_backup_comes_before_removal(stamp: Seq<char>, ev: BackupEvidence)
    ensures
        backup_next(stamp, ev) is Pack ==> ev.running == Some(false),
        backup_next(stamp, ev) is AskSize ==> ev.packed is Some && ev.packed->0 is Ok,
        backup_next(stamp, ev) is Done && backup_next(stamp, ev)->Done_0 is Ok ==> ev.packed is Some
            && ev.packed->0 is Ok,
{
}

/// What is told when the directory of the backups was to be opened.
pub fn open_backups_dir(dir: &str, made: &Result<(), String>) -> (r: String)
    ensures
        r@ == (match *made {
            Ok(_) => "已打开备份目录："@ + dir@,
            Err(e) => "无法打开备份目录："@ + e@,
        }),
{
    match made {
        Ok(_) => "已打开备份目录：".to_owned().concat(dir),
        Err(e) => "无法打开备份目录：".to_owned().concat(e.as_str()),
    }
}

/// How many backups are kept.
pub const KEEP_BACKUPS: usize = 5;

/// How many backups that were made before a restore are kept.
pub const KEEP_PRE_RESTORE: usize = 2;

/// How the directory is called that data are copied to before they are packed.
pub const PACK_PREFIX: &'static str = "dsh-pack-";

/// How the directory is called that a backup is unpacked to.
pub const RESTORE_PREFIX: &'static str = "dsh-restore-";

/// The name of a directory for temporary files.
pub open spec fn temp_name(prefix: Seq<char>, pid: u32, unique: u64) -> Seq<char> {
    prefix + digits_of(pid as nat) + "-"@ + digits_of(unique as nat)
}

/// The name of a directory for temporary files, of the process `pid` and of nothing else by the
/// number `unique`.
pub fn temp_dir_name(prefix: &str, pid: u32, unique: u64) -> (r: String)
    ensures
        r@ == temp_name(prefix@, pid, unique),
{
    prefix.to_owned().concat(decimal(pid as u64).as_str()).concat("-").concat(
        decimal(unique).as_str(),
    )
}

/// Whether a directory for temporary files is one that a backup or a restore left behind more than
/// a day ago. One whose time is not known is left alone.
pub open spec fn left_behind(
    name: Seq<char>,
    is_dir: bool,
    modified: Option<u64>,
    now: u64,
) -> bool {
    is_dir && (PACK_PREFIX@.is_prefix_of(name) || RESTORE_PREFIX@.is_prefix_of(name)) && modified
        is Some && modified->0 + 24 * 3600 < now
}

/// Whether a directory for temporary files is one that a backup or a restore left behind.
pub fn cleanup_stale_temp_dirs(name: &str, is_dir: bool, modified: Option<u64>, now: u64) -> (r: bool)
    ensures
        r == left_behind(name@, is_dir, modified, now),
{
    match modified {
        Some(m) => {
            let day: u64 = 24 * 3600;
            is_dir && (starts(name, PACK_PREFIX) || starts(name, RESTORE_PREFIX)) && now > day && m
                < now - day
        },
        None => false,
    }
}

/// What a backup or a restore leaves behind is found a day later, and not before.
pub proof fn law_temp_dirs_are_found_later(pid: u32, unique: u64, modified: u64, now: u64)
    ensures
        left_behind(temp_name(PACK_PREFIX@, pid, unique), true, Some(modified), now) <==> modified
            + 86400 < now,
        left_behind(temp_name(RESTORE_PREFIX@, pid, unique), true, Some(modified), now)
            <==> modified + 86400 < now,
{
    let d = digits_of(pid as nat) + "-"@ + digits_of(unique as nat);
    assert(temp_name(PACK_PREFIX@, pid, unique) =~= PACK_PREFIX@ + d);
    assert(temp_name(RESTORE_PREFIX@, pid, unique) =~= RESTORE_PREFIX@ + d);
    assert((PACK_PREFIX@ + d).subrange(0, PACK_PREFIX@.len() as int) =~= PACK_PREFIX@);
    assert((RESTORE_PREFIX@ + d).subrange(0, RESTORE_PREFIX@.len() as int) =~= RESTORE_PREFIX@);
}

} // verus!
