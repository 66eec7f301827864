//! What holds of backups: which entries an archive may have, which files count as backups and in
//! which order they are told, and which directories are left over.

use crate::backup::{
    any_refused, backup_files, backup_next, backup_time, collected, device_names, entry_path,
    forbidden, held_in_names, items_of, key_views, law_devices_are_the_listed_names, left_behind,
    lemma_held, listed_first, listed_stamp, matching, manifest_tree, name_at, packed, path_names,
    refused, stamp_in, stamp_shape, sum_of, tells_of, to_be_removed, zip_name, BackupEvidence,
    BackupInfo, BackupStepView, FileEntry, Found, Kind, ZipItem,
};
use crate::clock::{lemma_stamp, stamp_of, stampable, Moment};
use crate::json::{field, field_at, JsonTree};
use crate::numbers::{digits_of, zero_padded};
use crate::order::{
    ascending, by_name, lemma_before_one_way, lemma_by_name, names_of, text_before,
};
use crate::text::{is_digit, join_of, swap_of, upper_of, views};
use crate::text_laws::lemma_split_join;
use vstd::prelude::*;

verus! {

/// Both slashes part the names on the way to an entry.
pub proof fn law_both_slashes_part_names(name: Seq<char>)
    ensures
        entry_path(name) == entry_path(swap_of(name, '\\', '/')),
        entry_path(name) == entry_path(swap_of(name, '/', '\\')),
{
    let n = swap_of(name, '\\', '/');
    assert(swap_of(n, '\\', '/') =~= n);
    assert(swap_of(swap_of(name, '/', '\\'), '\\', '/') =~= n);
}

/// Empty names and `.` on the way to an entry are passed over, wherever they stand; all other names
/// stay in their order.
pub proof fn law_empty_names_and_dots_are_passed_over(
    a: Seq<Seq<char>>,
    x: Seq<char>,
    b: Seq<Seq<char>>,
)
    ensures
        path_names(a + b) == path_names(a) + path_names(b),
        path_names(seq![x]) == if x.len() == 0 || x == "."@ {
            Seq::empty()
        } else {
            seq![x]
        },
    decreases b.len(),
{
    let none = Seq::<Seq<char>>::empty();
    assert(path_names(none) =~= none);
    assert(seq![x].drop_last() =~= none);
    assert(none.push(x) =~= seq![x]);
    if b.len() == 0 {
        assert(a + b =~= a);
        assert(path_names(a) + path_names(b) =~= path_names(a));
    } else {
        assert((a + b).drop_last() =~= a + b.drop_last());
        law_empty_names_and_dots_are_passed_over(a, x, b.drop_last());
        assert(path_names(a + b) =~= path_names(a) + path_names(b));
    }
}

proof fn lemma_name_stays(parts: Seq<Seq<char>>, k: int)
    requires
        0 <= k < parts.len(),
        parts[k].len() > 0,
        parts[k] != "."@,
    ensures
        path_names(parts).contains(parts[k]),
{
    let a = parts.take(k);
    let b = parts.skip(k + 1);
    let x = parts[k];
    assert(parts =~= a + (seq![x] + b));
    law_empty_names_and_dots_are_passed_over(a, x, seq![x] + b);
    law_empty_names_and_dots_are_passed_over(seq![x], x, b);
    assert(path_names(parts)[path_names(a).len() as int] == x);
}

/// An entry is refused whose name is empty, starts at a root, holds something that Windows does not
/// take, goes up, or leads over a device, wherever on the way it does.
pub proof fn law_bad_entries_are_refused(
    name: Seq<char>,
    segs: Seq<Seq<char>>,
    stem: Seq<char>,
    rest: Seq<char>,
    k: int,
)
    requires
        !stem.contains('.'),
        rest.len() > 0 ==> rest[0] == '.',
        forall|i: int| 0 <= i < segs.len() ==> !(#[trigger] segs[i]).contains('/')
            && !segs[i].contains('\\'),
    ensures
        name.len() == 0 ==> entry_path(name) is None,
        name.len() > 0 && (name[0] == '/' || name[0] == '\\') ==> entry_path(name) is None,
        (exists|i: int| 0 <= i < name.len() && !held_in_names(#[trigger] name[i])) ==> entry_path(
            name,
        ) is None,
        0 <= k < segs.len() && segs[k] == ".."@ && name == join_of(segs, seq!['/']) ==> entry_path(
            name,
        ) is None,
        0 <= k < segs.len() && segs[k] == stem + rest && device_names().contains(upper_of(stem))
            && name == join_of(segs, seq!['/']) ==> entry_path(name) is None,
{
    let n = swap_of(name, '\\', '/');
    if exists|i: int| 0 <= i < name.len() && !held_in_names(#[trigger] name[i]) {
        let i = choose|i: int| 0 <= i < name.len() && !held_in_names(#[trigger] name[i]);
        lemma_held(name[i]);
        if name[i] == '\\' {
            assert(held_in_names('\\'));
        }
        assert(n[i] == name[i]);
        assert(forbidden(n[i]));
    }
    if 0 <= k < segs.len() && name == join_of(segs, seq!['/']) && (segs[k] == ".."@ || (segs[k]
        == stem + rest && device_names().contains(upper_of(stem)))) {
        law_devices_are_the_listed_names(stem, rest);
        reveal_strlit("..");
        reveal_strlit(".");
        lemma_no_backslash(segs);
        assert(n =~= name);
        lemma_split_join(segs, '/');
        if segs[k].len() == 0 {
            lemma_no_empty_device(upper_of(stem));
        }
        if segs[k] == "."@ {
            assert(stem.len() == 0) by {
                if stem.len() > 0 {
                    assert(stem[0] == segs[k][0]);
                    assert(stem.contains('.'));
                }
            }
            lemma_no_empty_device(upper_of(stem));
        }
        lemma_name_stays(segs, k);
        let names = path_names(segs);
        let i = choose|i: int| 0 <= i < names.len() && names[i] == segs[k];
        assert(refused(names[i]));
        assert(any_refused(names));
    }
}

proof fn lemma_no_empty_device(s: Seq<char>)
    requires
        s.len() == 0,
    ensures
        !device_names().contains(s),
{
    let v = device_names();
    if v.contains(s) {
        let k = choose|k: int| 0 <= k < v.len() && v[k] == s;
        crate::backup::lemma_devices(s);
        reveal_strlit("CON");
        reveal_strlit("PRN");
        reveal_strlit("AUX");
        reveal_strlit("NUL");
    }
}

proof fn lemma_no_backslash(segs: Seq<Seq<char>>)
    requires
        forall|i: int| 0 <= i < segs.len() ==> !(#[trigger] segs[i]).contains('\\'),
    ensures
        forall|j: int|
            0 <= j < join_of(segs, seq!['/']).len() ==> #[trigger] join_of(segs, seq!['/'])[j]
                != '\\',
    decreases segs.len(),
{
    if segs.len() == 1 {
        let s = join_of(segs, seq!['/']);
        assert forall|j: int| 0 <= j < s.len() implies #[trigger] s[j] != '\\' by {
            assert(segs[0].contains(s[j]));
        }
    } else if segs.len() > 1 {
        let d = segs.drop_last();
        lemma_no_backslash(d);
        let t = join_of(d, seq!['/']);
        let s = join_of(segs, seq!['/']);
        assert forall|j: int| 0 <= j < s.len() implies #[trigger] s[j] != '\\' by {
            if j < t.len() {
                assert(s[j] == t[j]);
            } else if j > t.len() {
                assert(s[j] == segs.last()[j - t.len() - 1]);
                assert(segs[segs.len() - 1].contains(s[j]));
            }
        }
    }
}

/// The entries of an archive come in the order of their names on the way, and each is marked as a
/// directory if and only if it is one.
pub proof fn law_entries_come_in_order(found: Seq<Found>, items: Seq<ZipItem>)
    requires
        collected(found, items),
        found.len() <= usize::MAX,
    ensures
        forall|i: int|
            0 <= i < items.len() ==> (#[trigger] items[i]).is_dir == (found[items[i].source as int].kind
                == Kind::Dir),
        forall|i: int, j: int|
            0 <= i < j < items.len() ==> !text_before(
                join_of(views(found[(#[trigger] items[j]).source as int].segs@), "\0"@),
                join_of(views(found[(#[trigger] items[i]).source as int].segs@), "\0"@),
            ),
{
    broadcast use vstd::seq_lib::group_to_multiset_ensures;

    let keyed = choose|keyed: Seq<(String, usize)>| items_of(found, keyed, items);
    let s = by_name(keyed);
    lemma_by_name(keyed);
    crate::backup::lemma_packed(found);
    assert forall|i: int| 0 <= i < items.len() implies s[i].0@ == join_of(
        views(found[(#[trigger] items[i]).source as int].segs@),
        "\0"@,
    ) by {
        assert(items[i].source == s[i].1);
        assert(s.to_multiset().count(s[i]) > 0) by {
            assert(s.contains(s[i]));
        }
        assert(keyed.contains(s[i]));
        let k = choose|k: int| 0 <= k < keyed.len() && keyed[k] == s[i];
        assert(key_views(keyed)[k] == (keyed[k].0@, keyed[k].1));
        lemma_packed_keys(found, k);
    }
    assert forall|i: int| 0 <= i < items.len() implies (#[trigger] items[i]).is_dir == (
    found[items[i].source as int].kind == Kind::Dir) by {
        assert(s[i].1 == items[i].source);
    }
    assert forall|i: int, j: int| 0 <= i < j < items.len() implies !text_before(
        join_of(views(found[(#[trigger] items[j]).source as int].segs@), "\0"@),
        join_of(views(found[(#[trigger] items[i]).source as int].segs@), "\0"@),
    ) by {
        assert(names_of(s)[i] == s[i].0@);
        assert(names_of(s)[j] == s[j].0@);
    }
}

proof fn lemma_packed_keys(v: Seq<Found>, k: int)
    requires
        0 <= k < packed(v).len(),
        v.len() <= usize::MAX,
    ensures
        packed(v)[k].1 < v.len(),
        packed(v)[k].0 == join_of(views(v[packed(v)[k].1 as int].segs@), "\0"@),
    decreases v.len(),
{
    if v.len() > 0 {
        let d = v.drop_last();
        if k < packed(d).len() {
            lemma_packed_keys(d, k);
            assert(packed(v)[k] == packed(d)[k]);
            assert(d[packed(d)[k].1 as int] == v[packed(d)[k].1 as int]);
        }
    }
}

/// The sum of sizes is that of its parts.
pub proof fn law_sizes_add_up(a: Seq<u64>, x: u64, b: Seq<u64>)
    ensures
        sum_of(a + b) == sum_of(a) + sum_of(b),
        sum_of(seq![x]) == x,
    decreases b.len(),
{
    assert(seq![x].drop_last().len() == 0);
    assert(sum_of(seq![x].drop_last()) == 0);
    if b.len() == 0 {
        assert(a + b =~= a);
    } else {
        assert((a + b).drop_last() =~= a + b.drop_last());
        law_sizes_add_up(a, x, b.drop_last());
    }
}

/// A file counts as a backup if and only if its name ends with `.zip` and its size is known, each
/// with its own name and size.
pub proof fn law_backups_are_the_archives(a: Seq<FileEntry>, f: FileEntry, b: Seq<FileEntry>)
    ensures
        backup_files(a + b) == backup_files(a) + backup_files(b),
        backup_files(seq![f]) == if f.size is Some && f.name@.len() >= 4 && f.name@.skip(
            f.name@.len() - 4,
        ) == ".zip"@ {
            seq![(f.name@, f.size->0)]
        } else {
            Seq::empty()
        },
    decreases b.len(),
{
    reveal_strlit(".zip");
    let none = Seq::<FileEntry>::empty();
    assert(backup_files(none) =~= Seq::empty());
    assert(seq![f].drop_last() =~= none);
    if f.name@.len() >= 4 {
        assert(f.name@.skip(f.name@.len() - 4) =~= f.name@.subrange(
            f.name@.len() - 4,
            f.name@.len() as int,
        ));
    }
    if b.len() == 0 {
        assert(a + b =~= a);
        assert(backup_files(a) + backup_files(b) =~= backup_files(a));
    } else {
        assert((a + b).drop_last() =~= a + b.drop_last());
        law_backups_are_the_archives(a, f, b.drop_last());
        assert(backup_files(a + b) =~= backup_files(a) + backup_files(b));
    }
}

/// The files among which old ones are removed are those whose name starts with the prefix and ends
/// with `.zip`; no other file is ever removed.
pub proof fn law_only_files_of_the_kind_are_removed(
    a: Seq<Seq<char>>,
    x: Seq<char>,
    b: Seq<Seq<char>>,
    prefix: Seq<char>,
)
    ensures
        matching(a + b, prefix) == matching(a, prefix) + matching(b, prefix),
        matching(seq![x], prefix) == if x.len() >= prefix.len() && x.take(prefix.len() as int)
            == prefix && x.len() >= 4 && x.skip(x.len() - 4) == ".zip"@ {
            seq![x]
        } else {
            Seq::empty()
        },
    decreases b.len(),
{
    reveal_strlit(".zip");
    let none = Seq::<Seq<char>>::empty();
    assert(matching(none, prefix) =~= none);
    assert(seq![x].drop_last() =~= none);
    if x.len() >= 4 {
        assert(x.skip(x.len() - 4) =~= x.subrange(x.len() - 4, x.len() as int));
    }
    if x.len() >= prefix.len() {
        assert(x.take(prefix.len() as int) =~= x.subrange(0, prefix.len() as int));
    }
    if b.len() == 0 {
        assert(a + b =~= a);
        assert(matching(a, prefix) + matching(b, prefix) =~= matching(a, prefix));
    } else {
        assert((a + b).drop_last() =~= a + b.drop_last());
        law_only_files_of_the_kind_are_removed(a, x, b.drop_last(), prefix);
        assert(matching(a + b, prefix) =~= matching(a, prefix) + matching(b, prefix));
    }
}

/// A backup that was made at a time is told with that day, hour and minute, and with its kind.
pub proof fn law_backup_is_told_with_its_time_and_kind(
    b: BackupInfo,
    before_restore: bool,
    t: Moment,
    size: u64,
)
    requires
        stampable(t),
        tells_of(b, name_at(before_restore, t), size),
    ensures
        b.size == size,
        b.file_name@ == name_at(before_restore, t),
        b.kind@ == if before_restore {
            "pre-restore"@
        } else {
            "backup"@
        },
        b.modified@ == zero_padded(digits_of(t.y), 4) + "-"@ + zero_padded(digits_of(t.mo), 2)
            + "-"@ + zero_padded(digits_of(t.d), 2) + " "@ + zero_padded(digits_of(t.h), 2) + ":"@
            + zero_padded(digits_of(t.mi), 2),
{
    reveal_strlit("dsh-backup-");
    reveal_strlit("pre-restore-");
    reveal_strlit(".zip");
    reveal_strlit("-");
    lemma_stamp(t);
    let s = stamp_of(t);
    let p = if before_restore {
        "pre-restore-"@
    } else {
        "dsh-backup-"@
    };
    let n = name_at(before_restore, t);
    assert(n.subrange(0, p.len() as int) =~= p);
    if before_restore {
        assert(!"dsh-backup-"@.is_prefix_of(n)) by {
            assert(n[0] == 'p');
            if "dsh-backup-"@.is_prefix_of(n) {
                assert("dsh-backup-"@[0] == n.subrange(0, 11)[0]);
            }
        }
    } else {
        assert(!"pre-restore-"@.is_prefix_of(n)) by {
            assert(n[0] == 'd');
            if "pre-restore-"@.is_prefix_of(n) {
                assert("pre-restore-"@[0] == n.subrange(0, 12)[0]);
            }
        }
    }
    let rest = n.skip(p.len() as int);
    assert(rest =~= s + ".zip"@);
    assert(rest.subrange(rest.len() - 4, rest.len() as int) =~= ".zip"@);
    assert(rest.take(rest.len() - 4) =~= s);
    assert(stamp_in(n) == Some(s));
    assert(s.take(10) =~= s.subrange(0, 4) + "-"@ + s.subrange(5, 7) + "-"@ + s.subrange(8, 10));
}

/// A file whose name does not start as that of a backup is told without a time and comes behind
/// every backup that has one.
pub proof fn law_files_without_a_time_come_last(n: Seq<char>, before_restore: bool, t: Moment)
    requires
        stampable(t),
        !"dsh-backup-"@.is_prefix_of(n),
        !"pre-restore-"@.is_prefix_of(n),
    ensures
        backup_time(n).len() == 0,
        listed_first(name_at(before_restore, t), n),
        !listed_first(n, name_at(before_restore, t)),
{
    let m = name_at(before_restore, t);
    assert(listed_stamp(n) =~= Seq::empty());
    lemma_stamp(t);
    let s = stamp_of(t);
    assert(listed_stamp(m) == s) by {
        lemma_name_at(before_restore, t);
    }
    assert(text_before(listed_stamp(n), listed_stamp(m)));
}

proof fn lemma_name_at(before_restore: bool, t: Moment)
    requires
        stampable(t),
    ensures
        listed_stamp(name_at(before_restore, t)) == stamp_of(t),
{
    reveal_strlit("dsh-backup-");
    reveal_strlit("pre-restore-");
    reveal_strlit(".zip");
    lemma_stamp(t);
    let s = stamp_of(t);
    let p = if before_restore {
        "pre-restore-"@
    } else {
        "dsh-backup-"@
    };
    let n = name_at(before_restore, t);
    assert(n.subrange(0, p.len() as int) =~= p);
    if before_restore {
        assert(!"dsh-backup-"@.is_prefix_of(n)) by {
            assert(n[0] == 'p');
            if "dsh-backup-"@.is_prefix_of(n) {
                assert("dsh-backup-"@[0] == n.subrange(0, 11)[0]);
            }
        }
    }
    let rest = n.skip(p.len() as int);
    assert(rest =~= s + ".zip"@);
    assert(rest.subrange(rest.len() - 4, rest.len() as int) =~= ".zip"@);
    assert(rest.take(rest.len() - 4) =~= s);
}

/// Only directories of the launcher are taken for left over ones, and only where it is known that
/// they are more than a day old.
pub proof fn law_only_old_own_directories_are_left_over(
    name: Seq<char>,
    is_dir: bool,
    modified: Option<u64>,
    now: u64,
)
    ensures
        left_behind(name, is_dir, modified, now) <==> is_dir && modified is Some && modified->0
            + 86400 < now && (("dsh-pack-"@.len() <= name.len() && name.take(
            "dsh-pack-"@.len() as int,
        ) == "dsh-pack-"@) || ("dsh-restore-"@.len() <= name.len() && name.take(
            "dsh-restore-"@.len() as int,
        ) == "dsh-restore-"@)),
{
    let p = "dsh-pack-"@;
    let q = "dsh-restore-"@;
    if p.len() <= name.len() {
        assert(name.take(p.len() as int) =~= name.subrange(0, p.len() as int));
    }
    if q.len() <= name.len() {
        assert(name.take(q.len() as int) =~= name.subrange(0, q.len() as int));
    }
}

/// A backup goes forward: where no DSH of the launcher runs, the directory is made, the data are
/// packed under a name with the time, and the backup is told with its size. A DSH that runs and a
/// step that fails end it, and what failed is told.
pub proof fn law_backup_goes_forward(stamp: Seq<char>, ev: BackupEvidence)
    ensures
        ({
            let r = backup_next(stamp, ev);
            let name = "dsh-backup-"@ + stamp + ".zip"@;
            &&& ev.running is None <==> r is AskRunning
            &&& ev.running == Some(true) ==> r is Done && r->Done_0 is Err
            &&& ev.running == Some(false) && ev.dir is None <==> r is MakeDir
            &&& ev.running == Some(false) && ev.dir is Some && ev.dir->0 is Err ==> r
                == BackupStepView::Done(Err("创建备份目录失败："@ + ev.dir->0->Err_0@))
            &&& ev.running == Some(false) && ev.dir is Some && ev.dir->0 is Ok ==> {
                &&& ev.packed is None ==> r == BackupStepView::Pack(name)
                &&& ev.packed is Some && ev.packed->0 is Err ==> r == BackupStepView::Done(
                    Err(ev.packed->0->Err_0@),
                )
                &&& ev.packed is Some && ev.packed->0 is Ok && ev.size is None ==> r is AskSize
                &&& ev.packed is Some && ev.packed->0 is Ok && ev.size is Some ==> r is Done
                    && r->Done_0 is Ok && r->Done_0->Ok_0.file_name == name
                    && r->Done_0->Ok_0.size == ev.size->0 && r->Done_0->Ok_0.kind == "backup"@
                    && r->Done_0->Ok_0.modified == backup_time(name)
            }
        }),
{
}

/// Of the backups of a kind all but the given number are removed, and none that stays comes before
/// one that goes in the order of their names.
pub proof fn law_newest_of_a_kind_stay(
    names: Seq<Seq<char>>,
    prefix: Seq<char>,
    keep: nat,
    gone: Seq<Seq<char>>,
    x: Seq<char>,
    y: Seq<char>,
)
    requires
        to_be_removed(names, prefix, keep, gone),
    ensures
        ({
            let all = matching(names, prefix);
            &&& all.len() <= keep ==> gone.len() == 0
            &&& all.len() > keep ==> gone.len() == all.len() - keep
            &&& gone.to_multiset().count(x) <= all.to_multiset().count(x)
            &&& gone.contains(y) ==> all.contains(y)
            &&& gone.contains(y) && gone.to_multiset().count(x) < all.to_multiset().count(x)
                ==> !text_before(x, y)
        }),
{
    broadcast use vstd::seq_lib::group_to_multiset_ensures;

    let all = matching(names, prefix);
    let sorted = choose|sorted: Seq<Seq<char>>| #[trigger]
        ascending(sorted) && sorted.to_multiset() == all.to_multiset() && gone == (if sorted.len()
            > keep {
            sorted.take(sorted.len() - keep)
        } else {
            Seq::empty()
        });
    assert(sorted.to_multiset().len() == all.to_multiset().len());
    assert(sorted.len() == all.len());
    if sorted.len() > keep {
        let n = sorted.len() - keep;
        let rest = sorted.skip(n);
        assert(sorted =~= gone + rest);
        vstd::seq_lib::lemma_multiset_commutative(gone, rest);
        assert(sorted.to_multiset().count(x) == gone.to_multiset().count(x)
            + rest.to_multiset().count(x));
        if gone.contains(y) {
            let i = choose|i: int| 0 <= i < gone.len() && gone[i] == y;
            assert(sorted[i] == y);
            assert(sorted.contains(y));
            assert(all.to_multiset().count(y) > 0);
            assert(all.contains(y));
            if gone.to_multiset().count(x) < all.to_multiset().count(x) {
                assert(rest.contains(x));
                let j = choose|j: int| 0 <= j < rest.len() && rest[j] == x;
                assert(sorted[n + j] == x);
            }
        }
    } else {
        assert(gone.to_multiset().count(x) == 0) by {
            if gone.to_multiset().count(x) > 0 {
                assert(gone.contains(x));
            }
        }
    }
}

/// The document of a backup names the launcher, the time and the entries.
pub proof fn law_manifest_tells_of_the_backup(ts: Seq<char>, names: Seq<Seq<char>>, i: int)
    ensures
        field(manifest_tree(ts, names), "app"@) == Some(JsonTree::Text("dsh-launcher"@)),
        field(manifest_tree(ts, names), "time"@) == Some(JsonTree::Text(ts)),
        field(manifest_tree(ts, names), "entries"@) is Some,
        field(manifest_tree(ts, names), "entries"@)->0 is List,
        field(manifest_tree(ts, names), "entries"@)->0->List_0.len() == names.len(),
        0 <= i < names.len() ==> field(manifest_tree(ts, names), "entries"@)->0->List_0[i]
            == JsonTree::Text(names[i]),
{
    reveal_strlit("app");
    reveal_strlit("time");
    reveal_strlit("entries");
    reveal_with_fuel(field_at, 4);
    let f = manifest_tree(ts, names)->Object_0;
    assert("app"@.len() != "time"@.len() && "time"@.len() != "entries"@.len() && "app"@.len()
        != "entries"@.len());
    assert(f[0].0 == "app"@);
    assert(f.skip(1)[0] == f[1]);
    assert(f.skip(1).skip(1)[0] == f[2]);
}

/// A file is told with a time only where its name holds a stamp: a date of ten digits and hyphens,
/// an underscore, and six digits.
pub proof fn law_only_stamps_are_told_as_times(t: Seq<char>, before_restore: bool)
    ensures
        ({
            let name = (if before_restore {
                "pre-restore-"@
            } else {
                "dsh-backup-"@
            }) + t + ".zip"@;
            let stamp = t.len() == 17 && t[10] == '_' && forall|i: int|
                0 <= i < 17 && i != 10 ==> ('0' <= (#[trigger] t[i]) <= '9') || (i < 10 && t[i]
                    == '-');
            &&& backup_time(name).len() > 0 <==> stamp
            &&& listed_stamp(name).len() > 0 <==> stamp
            &&& stamp ==> backup_time(name) == t.take(10) + " "@ + t.subrange(11, 13) + ":"@
                + t.subrange(13, 15)
            &&& stamp ==> listed_stamp(name) == t
        }),
{
    reveal_strlit("dsh-backup-");
    reveal_strlit("pre-restore-");
    reveal_strlit(".zip");
    reveal_strlit(" ");
    let p = if before_restore {
        "pre-restore-"@
    } else {
        "dsh-backup-"@
    };
    let n = p + t + ".zip"@;
    assert(n.subrange(0, p.len() as int) =~= p);
    if before_restore {
        assert(!"dsh-backup-"@.is_prefix_of(n)) by {
            assert(n[0] == 'p');
            if "dsh-backup-"@.is_prefix_of(n) {
                assert("dsh-backup-"@[0] == n.subrange(0, 11)[0]);
            }
        }
    }
    let rest = n.skip(p.len() as int);
    assert(rest =~= t + ".zip"@);
    assert(rest.subrange(rest.len() - 4, rest.len() as int) =~= ".zip"@);
    assert(rest.take(rest.len() - 4) =~= t);
    assert(stamp_in(n) == Some(t));
    let stamp = t.len() == 17 && t[10] == '_' && forall|i: int|
        0 <= i < 17 && i != 10 ==> ('0' <= (#[trigger] t[i]) <= '9') || (i < 10 && t[i] == '-');
    if stamp {
        assert(stamp_shape(t)) by {
            assert forall|i: int| 0 <= i < 10 implies is_digit(#[trigger] t[i]) || t[i] == '-' by {}
            assert forall|i: int| 11 <= i < 17 implies is_digit(#[trigger] t[i]) by {}
        }
    } else if stamp_shape(t) {
        assert forall|i: int| 0 <= i < 17 && i != 10 implies ('0' <= (#[trigger] t[i]) <= '9') || (i
            < 10 && t[i] == '-') by {
            if i < 10 {
                assert(is_digit(t[i]) || t[i] == '-');
            } else {
                assert(is_digit(t[i]));
            }
        }
    }
}

/// The name of a thing in an archive is made of the names on the way with slashes between them; that
/// of a directory has one more at its end.
pub proof fn law_directories_end_with_a_slash(segs: Seq<Seq<char>>)
    ensures
        zip_name(segs, false) == join_of(segs, seq!['/']),
        zip_name(segs, true) == join_of(segs, seq!['/']).push('/'),
{
    reveal_strlit("/");
    assert("/"@ =~= seq!['/']);
    assert(zip_name(segs, true) =~= join_of(segs, seq!['/']).push('/'));
}

/// Of two backups with different times the later is told first, whatever their names are; of two with
/// the same time that whose name comes last.
pub proof fn law_order_of_the_list(a: Seq<char>, b: Seq<char>)
    ensures
        text_before(listed_stamp(a), listed_stamp(b)) ==> listed_first(b, a) && !listed_first(a, b),
        listed_stamp(a) == listed_stamp(b) && text_before(a, b) ==> listed_first(b, a)
            && !listed_first(a, b),
        !listed_first(a, a),
{
    lemma_before_one_way(listed_stamp(a), listed_stamp(b));
    lemma_before_one_way(a, b);
    lemma_before_one_way(a, a);
    lemma_before_one_way(listed_stamp(a), listed_stamp(a));
}

} // verus!
