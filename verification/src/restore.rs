//! Restoring a backup: what is taken for one, where it may go, and how the data are replaced without
//! being lost.

use crate::backup::{
    collected, entry_path, has_entry, law_everything_is_packed_once, law_packed_names_lead_back,
    lemma_sum_grows, packed, packed_sizes, plain_name, sanitize_entry_name, sum_of, Found, Kind,
    ZipItem,
};
use crate::numbers::{decimal, digits_of};
use crate::text::{
    chars_of, control, drop_back, ends, has_sub, holds, is_ctrl, join, join_of, lower, lower_of,
    opt_view, same, starts, strip_back, trim, trim_of, views, Strip,
};
use vstd::prelude::*;

verus! {

/// What a directory holds of the data of DSH.
#[derive(Clone, Copy)]
pub struct DataMarkers {
    /// `settings.yaml`.
    pub settings: bool,
    /// `settings.yaml` as a file.
    pub settings_file: bool,
    /// `sessions`.
    pub sessions: bool,
    /// `profiles`.
    pub profiles: bool,
    /// `storages`.
    pub storages: bool,
}

/// Whether a directory holds something of the data of DSH.
pub open spec fn marked_data(m: DataMarkers) -> bool {
    m.settings || m.sessions || m.profiles || m.storages
}

/// Whether a directory holds something of the data of DSH.
pub fn has_dsh_markers(m: &DataMarkers) -> (r: bool)
    ensures
        r == marked_data(*m),
{
    m.settings || m.sessions || m.profiles || m.storages
}

/// Where the data lie in what was unpacked.
#[derive(PartialEq, Eq, Structural, Clone, Copy)]
pub enum ContentRoot {
    /// At the top.
    Top,
    /// In the one directory there.
    Below,
    /// Nowhere.
    Nowhere,
}

/// Where the data of an unpacked backup lie: at the top, or in the only directory there.
pub open spec fn root_of(has_manifest: bool, top: DataMarkers, dirs: Seq<DataMarkers>) -> ContentRoot {
    if has_manifest || marked_data(top) {
        ContentRoot::Top
    } else if dirs.len() == 1 && marked_data(dirs[0]) {
        ContentRoot::Below
    } else {
        ContentRoot::Nowhere
    }
}

/// Where the data lie: at the top where the document of a backup or something of the data stands
/// there, or in the one directory there where that holds something of them.
pub fn find_content_root(has_manifest: bool, top: &DataMarkers, dirs: &Vec<DataMarkers>) -> (r:
    ContentRoot)
    ensures
        r == root_of(has_manifest, *top, dirs@),
{
    if has_manifest || has_dsh_markers(top) {
        ContentRoot::Top
    } else if dirs.len() == 1 && has_dsh_markers(&dirs[0]) {
        ContentRoot::Below
    } else {
        ContentRoot::Nowhere
    }
}

/// Whether the data come from a backup of the launcher, or are complete enough without its
/// document: the settings and one of the directories.
pub open spec fn sound_data(manifest: Option<Seq<char>>, m: DataMarkers) -> bool {
    ||| manifest is Some && has_sub(manifest->0, "dsh-launcher"@)
    ||| m.settings_file && (m.sessions || m.profiles || m.storages)
}

/// Whether the data come from a backup of the launcher, or are complete enough without its
/// document.
pub fn is_sound(manifest: &Option<String>, m: &DataMarkers) -> (r: bool)
    ensures
        r == sound_data(opt_view(*manifest), *m),
{
    let own = match manifest {
        Some(t) => holds(t.as_str(), "dsh-launcher"),
        None => false,
    };
    own || (m.settings_file && (m.sessions || m.profiles || m.storages))
}

/// A backup of the launcher is taken for one: the document in it names the launcher.
pub proof fn law_own_backup_is_sound(manifest: Seq<char>, m: DataMarkers)
    requires
        has_sub(manifest, "dsh-launcher"@),
    ensures
        sound_data(Some(manifest), m),
{
}

/// How many entries an archive may have.
pub const MAX_ENTRIES: usize = 200_000;

/// How many bytes may be unpacked.
pub const MAX_TOTAL_BYTES: u64 = 0x2_0000_0000;

/// Whether an archive has too many entries.
pub fn check_entry_count(n: usize) -> (r: Result<(), String>)
    ensures
        r is Ok <==> n <= MAX_ENTRIES,
        r matches Err(m) ==> m@ == "备份文件条目过多，已中止解压"@,
{
    if n > MAX_ENTRIES {
        Err("备份文件条目过多，已中止解压".to_owned())
    } else {
        Ok(())
    }
}

/// An entry of an archive, as the archive states it.
pub struct ZipEntry {
    /// Its name.
    pub name: String,
    /// Its size.
    pub size: u64,
}

/// The sum of two sizes, at most the largest number.
pub open spec fn plus(a: u64, b: u64) -> u64 {
    if a + b <= u64::MAX {
        (a + b) as u64
    } else {
        u64::MAX
    }
}

fn saturated(a: u64, b: u64) -> (r: u64)
    ensures
        r == plus(a, b),
{
    if b <= u64::MAX - a {
        a + b
    } else {
        u64::MAX
    }
}

/// What stands against unpacking the entries from `i` on, those before stating `declared` bytes:
/// the first that cannot be read, is not safe, or makes too many bytes.
pub open spec fn unpack_fault(
    v: Seq<Result<ZipEntry, String>>,
    i: int,
    declared: u64,
) -> Option<Seq<char>>
    decreases v.len() - i,
{
    if i >= v.len() {
        None
    } else {
        match v[i] {
            Err(e) => Some(
                "备份条目 #"@ + digits_of(i as nat) + " 无法读取："@ + e@,
            ),
            Ok(z) => {
                let total = plus(declared, z.size);
                if entry_path(z.name@) is None {
                    Some("备份文件包含不安全条目，已中止解压："@ + z.name@)
                } else if total > MAX_TOTAL_BYTES {
                    Some(
                        "备份解压总量超过 8GB 上限，已中止："@ + digits_of(total as nat)
                            + " 字节"@,
                    )
                } else {
                    unpack_fault(v, i + 1, total)
                }
            },
        }
    }
}

/// The names on the way to each entry of an archive below the directory that it is unpacked to, or
/// why nothing of it may be unpacked.
pub fn extract_zip_safe(entries: &Vec<Result<ZipEntry, String>>) -> (r: Result<
    Vec<Vec<String>>,
    String,
>)
    ensures
        match r {
            Err(m) => if entries@.len() > MAX_ENTRIES {
                m@ == "备份文件条目过多，已中止解压"@
            } else {
                unpack_fault(entries@, 0, 0) == Some(m@)
            },
            Ok(paths) => {
                &&& entries@.len() <= MAX_ENTRIES
                &&& unpack_fault(entries@, 0, 0) is None
                &&& paths@.len() == entries@.len()
                &&& forall|i: int|
                    0 <= i < entries@.len() ==> (#[trigger] entries@[i]) is Ok && entry_path(
                        entries@[i]->Ok_0.name@,
                    ) == Some(views(paths@[i]@))
            },
        },
{
    match check_entry_count(entries.len()) {
        Ok(_) => {},
        Err(m) => {
            return Err(m);
        },
    }
    let mut declared: u64 = 0;
    let mut out: Vec<Vec<String>> = Vec::new();
    let mut i: usize = 0;
    while i < entries.len()
        invariant
            i <= entries@.len() <= MAX_ENTRIES,
            out@.len() == i,
            unpack_fault(entries@, 0, 0) == unpack_fault(entries@, i as int, declared),
            forall|k: int|
                0 <= k < i ==> (#[trigger] entries@[k]) is Ok && entry_path(
                    entries@[k]->Ok_0.name@,
                ) == Some(views(out@[k]@)),
        decreases entries@.len() - i,
    {
        match &entries[i] {
            Err(e) => {
                return Err(
                    "备份条目 #".to_owned().concat(decimal(i as u64).as_str()).concat(
                        " 无法读取：",
                    ).concat(e.as_str()),
                );
            },
            Ok(z) => {
                match sanitize_entry_name(z.name.as_str()) {
                    None => {
                        return Err(
                            "备份文件包含不安全条目，已中止解压：".to_owned().concat(
                                z.name.as_str(),
                            ),
                        );
                    },
                    Some(path) => {
                        let total: u64 = saturated(declared, z.size);
                        if total > MAX_TOTAL_BYTES {
                            return Err(
                                "备份解压总量超过 8GB 上限，已中止：".to_owned().concat(
                                    decimal(total).as_str(),
                                ).concat(" 字节"),
                            );
                        }
                        declared = total;
                        out.push(path);
                    },
                }
            },
        }
        i += 1;
    }
    Ok(out)
}

/// How many bytes were unpacked, whatever the archive stated.
pub struct WriteBudget {
    /// The bytes.
    pub written: u64,
}

/// What is said against having unpacked `total` bytes.
pub open spec fn write_fault(total: u64) -> Option<Seq<char>> {
    if total <= MAX_TOTAL_BYTES {
        None
    } else {
        Some("解压实际总量超过 8GB 上限，已中止："@ + digits_of(total as nat) + " 字节"@)
    }
}

impl WriteBudget {
    /// Counts `n` bytes more, and stops where there are too many.
    pub fn wrote(&mut self, n: u64) -> (r: Result<(), String>)
        ensures
            final(self).written == plus(old(self).written, n),
            match r {
                Ok(_) => write_fault(final(self).written) is None,
                Err(m) => write_fault(final(self).written) == Some(m@),
            },
    {
        self.written = saturated(self.written, n);
        if self.written > MAX_TOTAL_BYTES {
            Err(
                "解压实际总量超过 8GB 上限，已中止：".to_owned().concat(
                    decimal(self.written).as_str(),
                ).concat(" 字节"),
            )
        } else {
            Ok(())
        }
    }
}

proof fn lemma_nothing_against(v: Seq<Result<ZipEntry, String>>, sizes: Seq<u64>, i: int, n: u64)
    requires
        0 <= i <= v.len(),
        sizes.len() == v.len(),
        sum_of(sizes) <= MAX_TOTAL_BYTES,
        n == sum_of(sizes.take(i)),
        forall|k: int|
            0 <= k < v.len() ==> (#[trigger] v[k]) is Ok && entry_path(v[k]->Ok_0.name@) is Some
                && v[k]->Ok_0.size == sizes[k],
    ensures
        unpack_fault(v, i, n) is None,
    decreases v.len() - i,
{
    if i < v.len() {
        assert(v[i] is Ok);
        let next = sizes.take(i + 1);
        assert(next.drop_last() =~= sizes.take(i));
        assert(next.last() == sizes[i]);
        lemma_sum_grows(sizes, i + 1);
        lemma_nothing_against(v, sizes, i + 1, plus(n, v[i]->Ok_0.size));
    }
}

/// What was packed is unpacked again: where an archive states the entries that were collected from
/// a directory, with their sizes, and there are not too many of them or too large ones, nothing
/// stands against unpacking it, and each entry goes back to the place of the thing that it was
/// made from. There is one entry for each thing, empty directories too.
pub proof fn law_packed_tree_is_unpacked(
    found: Seq<Found>,
    items: Seq<ZipItem>,
    sizes: Seq<u64>,
    entries: Seq<Result<ZipEntry, String>>,
)
    requires
        found.len() <= usize::MAX,
        collected(found, items),
        forall|k: int|
            0 <= k < found.len() ==> (#[trigger] found[k]).kind != Kind::Link && found[k].segs@.len()
                > 0 && forall|j: int|
                0 <= j < found[k].segs@.len() ==> plain_name(#[trigger] views(found[k].segs@)[j]),
        entries.len() == items.len(),
        forall|i: int|
            0 <= i < items.len() ==> (#[trigger] entries[i]) is Ok && entries[i]->Ok_0.name@
                == items[i].name@ && entries[i]->Ok_0.size == sizes[items[i].source as int],
        found.len() <= MAX_ENTRIES,
        sizes.len() == found.len(),
        sum_of(sizes) <= MAX_TOTAL_BYTES,
    ensures
        entries.len() == found.len(),
        unpack_fault(entries, 0, 0) is None,
        forall|i: int|
            0 <= i < entries.len() ==> entry_path((#[trigger] entries[i])->Ok_0.name@) == Some(
                views(found[items[i].source as int].segs@),
            ),
        forall|i: int, j: int|
            0 <= i < j < items.len() ==> (#[trigger] items[i]).source != (
            #[trigger] items[j]).source,
        forall|k: int|
            0 <= k < found.len() ==> #[trigger] has_entry(items, k),
        sum_of(Seq::new(entries.len(), |i: int| entries[i]->Ok_0.size)) == sum_of(sizes),
{
    law_everything_is_packed_once(found, items, sizes);
    lemma_all_packed(found);
    assert(packed_sizes(found, sizes) =~= sizes);
    let all = Seq::new(entries.len(), |i: int| entries[i]->Ok_0.size);
    assert(all =~= Seq::new(items.len(), |i: int| sizes[items[i].source as int])) by {
        assert forall|i: int| 0 <= i < items.len() implies all[i] == sizes[(
        #[trigger] items[i]).source as int] by {
            assert(entries[i] is Ok);
        }
    }
    assert forall|i: int| 0 <= i < entries.len() implies entry_path(
        (#[trigger] entries[i])->Ok_0.name@,
    ) == Some(views(found[items[i].source as int].segs@)) by {
        let f = found[items[i].source as int];
        assert(f.kind != Kind::Link);
        law_packed_names_lead_back(views(f.segs@), f.kind == Kind::Dir);
    }
    assert forall|k: int| 0 <= k < found.len() implies #[trigger] has_entry(items, k) by {
        assert(found[k].kind != Kind::Link);
    }
    assert(all.take(0) =~= Seq::empty());
    lemma_nothing_against(entries, all, 0, 0);
}

proof fn lemma_all_packed(found: Seq<Found>)
    requires
        found.len() <= usize::MAX,
        forall|k: int| 0 <= k < found.len() ==> (#[trigger] found[k]).kind != Kind::Link,
    ensures
        packed(found).len() == found.len(),
        forall|i: int| 0 <= i < found.len() ==> (#[trigger] packed(found)[i]).1 == i,
    decreases found.len(),
{
    if found.len() > 0 {
        let d = found.drop_last();
        assert forall|k: int| 0 <= k < d.len() implies (#[trigger] d[k]).kind != Kind::Link by {
            assert(d[k] == found[k]);
        }
        lemma_all_packed(d);
        assert(found[found.len() - 1].kind != Kind::Link);
        assert forall|i: int| 0 <= i < found.len() implies (#[trigger] packed(found)[i]).1 == i by {
            if i < d.len() {
                assert(packed(found)[i] == packed(d)[i]);
            }
        }
    }
}

proof fn lemma_sound_from(v: Seq<Result<ZipEntry, String>>, i: int, declared: u64, k: int)
    requires
        unpack_fault(v, i, declared) is None,
        0 <= i <= k < v.len(),
    ensures
        v[k] is Ok,
        entry_path(v[k]->Ok_0.name@) is Some,
        v[k]->Ok_0.size <= MAX_TOTAL_BYTES,
    decreases v.len() - i,
{
    if i < k {
        lemma_sound_from(v, i + 1, plus(declared, v[i]->Ok_0.size), k);
    }
}

/// Where an archive is unpacked, every one of its entries is safe: one bad entry keeps all of it
/// from being unpacked.
pub proof fn law_one_bad_entry_refuses_all(v: Seq<Result<ZipEntry, String>>, k: int)
    requires
        0 <= k < v.len(),
        v[k] is Err || entry_path(v[k]->Ok_0.name@) is None || v[k]->Ok_0.size > MAX_TOTAL_BYTES,
    ensures
        unpack_fault(v, 0, 0) is Some,
{
    if unpack_fault(v, 0, 0) is None {
        lemma_sound_from(v, 0, 0, k);
    }
}

/// How many bytes the entries from `i` on state.
pub open spec fn stated_bytes(v: Seq<Result<ZipEntry, String>>, i: int) -> nat
    decreases v.len() - i,
{
    if i >= v.len() {
        0
    } else {
        stated_bytes(v, i + 1) + match v[i] {
            Ok(z) => z.size as nat,
            Err(_) => 0,
        }
    }
}

proof fn lemma_stated(v: Seq<Result<ZipEntry, String>>, i: int, declared: u64)
    requires
        unpack_fault(v, i, declared) is None,
        declared <= MAX_TOTAL_BYTES,
        0 <= i <= v.len(),
    ensures
        declared + stated_bytes(v, i) <= MAX_TOTAL_BYTES,
    decreases v.len() - i,
{
    if i < v.len() {
        lemma_stated(v, i + 1, plus(declared, v[i]->Ok_0.size));
    }
}

/// An archive that states more bytes than may be unpacked is refused.
pub proof fn law_too_many_bytes_are_refused(v: Seq<Result<ZipEntry, String>>)
    requires
        stated_bytes(v, 0) > MAX_TOTAL_BYTES,
    ensures
        unpack_fault(v, 0, 0) is Some,
{
    if unpack_fault(v, 0, 0) is None {
        lemma_stated(v, 0, 0);
    }
}

/// The directories that the data may not replace.
pub open spec fn protected_dirs(
    user: Seq<char>,
    temp: Seq<char>,
    env_temp: Option<Seq<char>>,
    env_tmp: Option<Seq<char>>,
) -> Seq<Seq<char>> {
    (if trim_of(user).len() > 0 {
        seq![user, drop_back(user, Strip::Only('\\')) + "\\Desktop"@]
    } else {
        Seq::empty()
    }) + seq![temp] + (match env_temp {
        Some(t) => seq![t],
        None => Seq::empty(),
    }) + (match env_tmp {
        Some(t) => seq![t],
        None => Seq::empty(),
    })
}

/// The directories that the data may not replace: that of the user, the desktop, and those for
/// temporary files.
pub fn protected_paths(
    user: &str,
    temp: &str,
    env_temp: &Option<String>,
    env_tmp: &Option<String>,
) -> (r: Vec<String>)
    ensures
        views(r@) == protected_dirs(user@, temp@, opt_view(*env_temp), opt_view(*env_tmp)),
{
    let mut out: Vec<String> = Vec::new();
    if !trim(user).is_empty() {
        out.push(user.to_owned());
        out.push(strip_back(user, Strip::Only('\\')).to_owned().concat("\\Desktop"));
    }
    out.push(temp.to_owned());
    match env_temp {
        Some(t) => {
            out.push(t.clone());
        },
        None => {},
    }
    match env_tmp {
        Some(t) => {
            out.push(t.clone());
        },
        None => {},
    }
    proof {
        assert(views(out@) =~= protected_dirs(
            user@,
            temp@,
            opt_view(*env_temp),
            opt_view(*env_tmp),
        ));
    }
    out
}

/// What is known of the directory of the data, paths being given by the names on the way.
pub struct HomeFacts {
    /// The path for a reader.
    pub shown: String,
    /// Whether the path is absolute.
    pub is_absolute: bool,
    /// The names on the way to it.
    pub names: Vec<String>,
    /// Whether something lies above it.
    pub has_parent: bool,
    /// The names on the way to each directory that it may not be.
    pub protected: Vec<Vec<String>>,
    /// Whether it is there.
    pub is_dir: bool,
    /// Whether it holds something.
    pub non_empty: bool,
    /// What it holds of the data of DSH.
    pub markers: DataMarkers,
}

/// The names on the way to each of a list of directories.
pub open spec fn path_views(v: Seq<Vec<String>>) -> Seq<Seq<Seq<char>>> {
    Seq::new(v.len(), |i: int| views(v[i]@))
}

/// Whether a protected directory is `home`, or lies below it: the first that does decides.
pub open spec fn protection_fault(
    p: Seq<Seq<Seq<char>>>,
    i: int,
    home: Seq<Seq<char>>,
    shown: Seq<char>,
) -> Option<Seq<char>>
    decreases p.len() - i,
{
    if i >= p.len() {
        None
    } else if p[i] == home {
        Some("DSH_HOME 指向系统关键目录，已中止："@ + shown)
    } else if home.is_prefix_of(p[i]) {
        Some("DSH_HOME 是用户目录的上级目录，已中止："@ + shown)
    } else {
        protection_fault(p, i + 1, home, shown)
    }
}

/// What stands against replacing the directory of the data.
pub open spec fn home_fault(h: HomeFacts) -> Option<Seq<char>> {
    if !h.is_absolute {
        Some("DSH_HOME 不是绝对路径，已中止："@ + h.shown@)
    } else if !h.has_parent {
        Some("DSH_HOME 指向盘符根目录，已中止："@ + h.shown@)
    } else if protection_fault(path_views(h.protected@), 0, views(h.names@), h.shown@) is Some {
        protection_fault(path_views(h.protected@), 0, views(h.names@), h.shown@)
    } else if h.is_dir && h.non_empty && !marked_data(h.markers) {
        Some(
            "DSH_HOME 目录不含 DSH 数据特征（settings.yaml / profiles 等），已中止："@ + h.shown@,
        )
    } else {
        None
    }
}

/// Whether a path with the given names on the way lies in a directory, or is that directory.
pub fn lies_in(names: &Vec<String>, dir: &Vec<String>) -> (r: bool)
    ensures
        r == views(dir@).is_prefix_of(views(names@)),
{
    if names.len() < dir.len() {
        return false;
    }
    let mut i: usize = 0;
    while i < dir.len()
        invariant
            i <= dir@.len() <= names@.len(),
            forall|k: int| 0 <= k < i ==> views(names@)[k] == views(dir@)[k],
        decreases dir@.len() - i,
    {
        if !same(names[i].as_str(), dir[i].as_str()) {
            proof {
                let a = views(names@);
                let b = views(dir@);
                if b.is_prefix_of(a) {
                    assert(a.subrange(0, b.len() as int)[i as int] == a[i as int]);
                }
            }
            return false;
        }
        i += 1;
    }
    proof {
        assert(views(names@).subrange(0, dir@.len() as int) =~= views(dir@));
    }
    true
}

/// Whether the directory of the data may be replaced. It must be an absolute path that is no root
/// and neither a directory of the user nor above one, and what is there must be data of DSH.
pub fn validate_home_target(h: &HomeFacts) -> (r: Result<(), String>)
    ensures
        match r {
            Ok(_) => home_fault(*h) is None,
            Err(m) => home_fault(*h) == Some(m@),
        },
{
    if !h.is_absolute {
        return Err("DSH_HOME 不是绝对路径，已中止：".to_owned().concat(h.shown.as_str()));
    }
    if !h.has_parent {
        return Err("DSH_HOME 指向盘符根目录，已中止：".to_owned().concat(h.shown.as_str()));
    }
    let ghost p = path_views(h.protected@);
    let ghost home = views(h.names@);
    let mut i: usize = 0;
    while i < h.protected.len()
        invariant
            i <= h.protected@.len(),
            h.is_absolute && h.has_parent,
            p == path_views(h.protected@),
            home == views(h.names@),
            protection_fault(p, 0, home, h.shown@) == protection_fault(
                p,
                i as int,
                home,
                h.shown@,
            ),
        decreases h.protected@.len() - i,
    {
        let q = &h.protected[i];
        proof {
            assert(p[i as int] == views(q@));
        }
        if lies_in(q, &h.names) {
            if q.len() == h.names.len() {
                proof {
                    assert(views(q@).subrange(0, home.len() as int) =~= views(q@));
                    assert(views(q@) == home);
                }
                return Err(
                    "DSH_HOME 指向系统关键目录，已中止：".to_owned().concat(h.shown.as_str()),
                );
            }
            return Err(
                "DSH_HOME 是用户目录的上级目录，已中止：".to_owned().concat(h.shown.as_str()),
            );
        }
        proof {
            if views(q@) == home {
                assert(views(q@).subrange(0, home.len() as int) =~= views(q@));
            }
        }
        i += 1;
    }
    if h.is_dir && h.non_empty && !has_dsh_markers(&h.markers) {
        return Err(
            "DSH_HOME 目录不含 DSH 数据特征（settings.yaml / profiles 等），已中止：".to_owned().concat(
            h.shown.as_str()),
        );
    }
    Ok(())
}

proof fn lemma_protection(
    p: Seq<Seq<Seq<char>>>,
    i: int,
    home: Seq<Seq<char>>,
    shown: Seq<char>,
    k: int,
)
    requires
        protection_fault(p, i, home, shown) is None,
        0 <= i <= k < p.len(),
    ensures
        !home.is_prefix_of(p[k]),
    decreases p.len() - i,
{
    if i < k {
        lemma_protection(p, i + 1, home, shown, k);
    }
}

/// A directory that may be replaced is no protected one and holds none, and it holds nothing or
/// data of DSH.
pub proof fn law_replaced_directory_is_the_data(h: HomeFacts, k: int)
    requires
        home_fault(h) is None,
        0 <= k < h.protected@.len(),
    ensures
        !views(h.names@).is_prefix_of(views(h.protected@[k]@)),
        views(h.names@) != views(h.protected@[k]@),
        h.is_dir && h.non_empty ==> marked_data(h.markers),
{
    let p = path_views(h.protected@);
    let home = views(h.names@);
    lemma_protection(p, 0, home, h.shown@, k);
    if home == p[k] {
        assert(p[k].subrange(0, home.len() as int) =~= home);
    }
}

/// How the replacing of the data ended.
#[derive(PartialEq, Eq, Structural, Clone, Copy)]
pub enum SwapEnd {
    /// The data are replaced, and the old ones removed.
    Restored,
    /// The data are replaced, but something of the old ones is left beside them.
    LeftOver,
    /// DSH runs, so nothing was done.
    Busy,
    /// The old data could not be moved away, so nothing was done.
    NotMoved,
    /// The new directory could not be made, and the old data were moved back if that could be done.
    NotMade,
    /// The copy failed, and the old data are back in their place.
    RolledBack,
    /// The copy failed, and the old data are still beside their place.
    Stranded,
    /// There were no data, and the new directory could not be made.
    FreshNotMade,
    /// There were no data, and the copy failed.
    FreshNotCopied,
}

/// What to do next to replace the data.
#[derive(PartialEq, Eq, Structural, Clone, Copy)]
pub enum SwapStep {
    /// Make the directory, where there was none.
    FreshMake,
    /// Copy the new data, where there were none.
    FreshCopy,
    /// Move the old data beside their place.
    Move,
    /// Make the directory.
    Make,
    /// Move the old data back, the directory not being made.
    UndoMove,
    /// Copy the new data.
    Copy,
    /// Remove what was copied.
    RemoveCopy,
    /// Move the old data back, the copy having failed.
    UndoCopy,
    /// Remove the old data.
    RemoveOld,
    /// It is over.
    End(SwapEnd),
}

/// The first step, where data are there or not and DSH runs or not.
pub open spec fn swap_first(is_dir: bool, running: bool) -> SwapStep {
    if !is_dir {
        SwapStep::FreshMake
    } else if running {
        SwapStep::End(SwapEnd::Busy)
    } else {
        SwapStep::Move
    }
}

/// The next step behind one that went well or not.
pub open spec fn swap_next(step: SwapStep, ok: bool) -> SwapStep {
    match step {
        SwapStep::FreshMake => if ok {
            SwapStep::FreshCopy
        } else {
            SwapStep::End(SwapEnd::FreshNotMade)
        },
        SwapStep::FreshCopy => SwapStep::End(
            if ok {
                SwapEnd::Restored
            } else {
                SwapEnd::FreshNotCopied
            },
        ),
        SwapStep::Move => if ok {
            SwapStep::Make
        } else {
            SwapStep::End(SwapEnd::NotMoved)
        },
        SwapStep::Make => if ok {
            SwapStep::Copy
        } else {
            SwapStep::UndoMove
        },
        SwapStep::UndoMove => SwapStep::End(SwapEnd::NotMade),
        SwapStep::Copy => if ok {
            SwapStep::RemoveOld
        } else {
            SwapStep::RemoveCopy
        },
        SwapStep::RemoveCopy => SwapStep::UndoCopy,
        SwapStep::UndoCopy => SwapStep::End(
            if ok {
                SwapEnd::RolledBack
            } else {
                SwapEnd::Stranded
            },
        ),
        SwapStep::RemoveOld => SwapStep::End(
            if ok {
                SwapEnd::Restored
            } else {
                SwapEnd::LeftOver
            },
        ),
        SwapStep::End(e) => SwapStep::End(e),
    }
}

/// The first step of replacing the data.
pub fn swap_start(is_dir: bool, running: bool) -> (r: SwapStep)
    ensures
        r == swap_first(is_dir, running),
{
    if !is_dir {
        SwapStep::FreshMake
    } else if running {
        SwapStep::End(SwapEnd::Busy)
    } else {
        SwapStep::Move
    }
}

/// The next step of replacing the data, behind one that went well or not.
pub fn swap_restore(step: SwapStep, ok: bool) -> (r: SwapStep)
    ensures
        r == swap_next(step, ok),
{
    match step {
        SwapStep::FreshMake => if ok {
            SwapStep::FreshCopy
        } else {
            SwapStep::End(SwapEnd::FreshNotMade)
        },
        SwapStep::FreshCopy => if ok {
            SwapStep::End(SwapEnd::Restored)
        } else {
            SwapStep::End(SwapEnd::FreshNotCopied)
        },
        SwapStep::Move => if ok {
            SwapStep::Make
        } else {
            SwapStep::End(SwapEnd::NotMoved)
        },
        SwapStep::Make => if ok {
            SwapStep::Copy
        } else {
            SwapStep::UndoMove
        },
        SwapStep::UndoMove => SwapStep::End(SwapEnd::NotMade),
        SwapStep::Copy => if ok {
            SwapStep::RemoveOld
        } else {
            SwapStep::RemoveCopy
        },
        SwapStep::RemoveCopy => SwapStep::UndoCopy,
        SwapStep::UndoCopy => if ok {
            SwapStep::End(SwapEnd::RolledBack)
        } else {
            SwapStep::End(SwapEnd::Stranded)
        },
        SwapStep::RemoveOld => if ok {
            SwapStep::End(SwapEnd::Restored)
        } else {
            SwapStep::End(SwapEnd::LeftOver)
        },
        SwapStep::End(e) => SwapStep::End(e),
    }
}

/// What stands at a place.
pub enum Place {
    /// Nothing.
    Nothing,
    /// The old data, whole.
    Old,
    /// Something that is neither the old data nor the new ones as a whole.
    Part,
    /// The new data, whole.
    New,
}

/// What stands at the place of the data, and beside it.
pub struct Disk {
    /// At the place of the data.
    pub home: Place,
    /// Beside it, where the old data are moved to.
    pub beside: Place,
}

/// What a step can make of what stands there. A step that fails may have done a part of its work,
/// but for moves, which are done as a whole or not at all.
pub open spec fn step_effect(step: SwapStep, ok: bool, a: Disk, b: Disk) -> bool {
    match step {
        SwapStep::Move => if ok {
            b.home == Place::Nothing && b.beside == a.home
        } else {
            b == a
        },
        SwapStep::Make => b.beside == a.beside && if ok {
            b.home == Place::Part
        } else {
            b.home == Place::Nothing || b.home == Place::Part
        },
        SwapStep::FreshMake => b.beside == a.beside && if ok {
            b.home == Place::Part
        } else {
            b.home == Place::Nothing || b.home == Place::Part
        },
        SwapStep::Copy => b.beside == a.beside && b.home == if ok {
            Place::New
        } else {
            Place::Part
        },
        SwapStep::FreshCopy => b.beside == a.beside && b.home == if ok {
            Place::New
        } else {
            Place::Part
        },
        SwapStep::RemoveCopy => b.beside == a.beside && if ok {
            b.home == Place::Nothing
        } else {
            b.home == Place::Nothing || b.home == Place::Part
        },
        SwapStep::UndoMove | SwapStep::UndoCopy => if ok {
            b.home == a.beside && b.beside == Place::Nothing
        } else {
            b == a
        },
        SwapStep::RemoveOld => b.home == a.home && if ok {
            b.beside == Place::Nothing
        } else {
            b.beside == Place::Old || b.beside == Place::Part
        },
        SwapStep::End(_) => b == a,
    }
}

/// What stands there before a step.
pub open spec fn before_step(step: SwapStep, d: Disk) -> bool {
    match step {
        SwapStep::FreshMake => d.home == Place::Nothing,
        SwapStep::FreshCopy => true,
        SwapStep::Move => d.home == Place::Old,
        SwapStep::Make | SwapStep::Copy | SwapStep::UndoMove | SwapStep::RemoveCopy
        | SwapStep::UndoCopy => d.beside == Place::Old,
        SwapStep::RemoveOld => d.home == Place::New && d.beside == Place::Old,
        SwapStep::End(e) => match e {
            SwapEnd::Restored | SwapEnd::LeftOver => d.home == Place::New,
            SwapEnd::Busy | SwapEnd::NotMoved | SwapEnd::RolledBack => d.home == Place::Old,
            SwapEnd::NotMade => d.home == Place::Old || d.beside == Place::Old,
            SwapEnd::Stranded => d.beside == Place::Old,
            SwapEnd::FreshNotMade | SwapEnd::FreshNotCopied => true,
        },
    }
}

/// Replacing the data loses none: whatever step fails, the old data stand whole at their place or
/// beside it until the new ones stand whole at their place. Where the end tells of a restore, the
/// new data are there; where it tells that nothing was done or that all was undone, the old ones
/// are.
pub proof fn law_swap_loses_no_data(step: SwapStep, ok: bool, a: Disk, b: Disk)
    requires
        before_step(step, a),
        step_effect(step, ok, a, b),
    ensures
        before_step(swap_next(step, ok), b),
        !(swap_next(step, ok) is FreshMake) && !(swap_next(step, ok) is FreshCopy) && !(swap_next(
            step,
            ok,
        ) matches SwapStep::End(SwapEnd::FreshNotMade)) && !(swap_next(step, ok) matches
            SwapStep::End(SwapEnd::FreshNotCopied)) ==> b.home == Place::Old || b.beside
            == Place::Old || b.home == Place::New,
{
}

/// The first step finds what it expects.
pub proof fn law_swap_starts_right(is_dir: bool, running: bool, d: Disk)
    requires
        d.home == if is_dir {
            Place::Old
        } else {
            Place::Nothing
        },
    ensures
        before_step(swap_first(is_dir, running), d),
{
}

/// How many steps are left at most.
pub open spec fn steps_left(step: SwapStep) -> nat {
    match step {
        SwapStep::End(_) => 0,
        SwapStep::FreshCopy | SwapStep::UndoMove | SwapStep::UndoCopy | SwapStep::RemoveOld => 1,
        SwapStep::FreshMake | SwapStep::RemoveCopy => 2,
        SwapStep::Copy => 3,
        SwapStep::Make => 4,
        SwapStep::Move => 5,
    }
}

/// Replacing the data comes to an end.
pub proof fn law_swap_ends(step: SwapStep, ok: bool)
    ensures
        step is End || steps_left(swap_next(step, ok)) < steps_left(step),
{
}

/// What is told of old data that an earlier restore left beside their place. They are never removed
/// unasked: they may be all that is left of that time.
pub fn stale_note(path: &str) -> (r: String)
    ensures
        r@ == "发现上次恢复遗留的数据备份 "@ + path@ + "（确认无需回退后可手动删除）"@,
{
    "发现上次恢复遗留的数据备份 ".to_owned().concat(path).concat(
        "（确认无需回退后可手动删除）",
    )
}

/// The name that the old data get beside their place.
pub fn bak_name(name: &str, stamp: &str) -> (r: String)
    ensures
        r@ == name@ + ".bak-"@ + stamp@,
{
    name.to_owned().concat(".bak-").concat(stamp)
}

/// Whether a name is one that old data got from an earlier restore.
pub open spec fn bak_name_of(entry: Seq<char>, name: Seq<char>) -> bool {
    (name + ".bak-"@).is_prefix_of(entry)
}

/// Whether a name is one that old data got from an earlier restore.
pub fn is_bak_name(entry: &str, name: &str) -> (r: bool)
    ensures
        r == bak_name_of(entry@, name@),
{
    starts(entry, name.to_owned().concat(".bak-").as_str())
}

/// Which of the names beside the data tells of an earlier restore: the last one that does.
pub fn last_stale(entries: &Vec<String>, name: &str) -> (r: Option<usize>)
    ensures
        match r {
            Some(i) => i < entries@.len() && bak_name_of(entries@[i as int]@, name@) && forall|j: int|
                i < j < entries@.len() ==> !bak_name_of((#[trigger] entries@[j])@, name@),
            None => forall|j: int|
                0 <= j < entries@.len() ==> !bak_name_of((#[trigger] entries@[j])@, name@),
        },
{
    let mut i: usize = entries.len();
    while i > 0
        invariant
            i <= entries@.len(),
            forall|j: int|
                i <= j < entries@.len() ==> !bak_name_of((#[trigger] entries@[j])@, name@),
        decreases i,
    {
        if is_bak_name(entries[i - 1].as_str(), name) {
            return Some(i - 1);
        }
        i -= 1;
    }
    None
}

/// The error that is told of the steps taken so far: that of the first step that failed.
pub fn first_error(error: Option<String>, result: Result<(), String>) -> (r: Option<String>)
    ensures
        opt_view(r) == (match error {
            Some(e) => Some(e@),
            None => match result {
                Err(e) => Some(e@),
                Ok(_) => None,
            },
        }),
{
    match error {
        Some(e) => Some(e),
        None => match result {
            Err(e) => Some(e),
            Ok(_) => None,
        },
    }
}

/// What is told at the end: notes where the data were replaced, else why they were not.
pub open spec fn swap_told(
    end: SwapEnd,
    error: Seq<char>,
    bak: Seq<char>,
    stale: Option<Seq<char>>,
) -> Result<Option<Seq<char>>, Seq<char>> {
    match end {
        SwapEnd::Restored => Ok(stale),
        SwapEnd::LeftOver => {
            let note = "恢复前数据已保留在 "@ + bak + "，可手动删除"@;
            Ok(
                Some(
                    match stale {
                        Some(s) => note + "\n"@ + s,
                        None => note,
                    },
                ),
            )
        },
        SwapEnd::Busy => Err("DSH 正在运行，请先停止 DSH 再恢复"@),
        SwapEnd::NotMoved => Err("移动当前数据目录失败："@ + error),
        SwapEnd::NotMade => Err("创建数据目录失败："@ + error),
        SwapEnd::RolledBack => Err("恢复复制失败："@ + error + "（已回滚，原数据未受影响）"@),
        SwapEnd::Stranded => Err(
            "恢复复制失败："@ + error + "\n原数据已移动到 "@ + bak + "，请手动恢复"@,
        ),
        SwapEnd::FreshNotMade => Err("创建数据目录失败："@ + error),
        SwapEnd::FreshNotCopied => Err("恢复复制失败："@ + error),
    }
}

/// What is told at the end, `error` being what went wrong first, `bak` where the old data were moved
/// to, and `stale` a note on data that an earlier restore left.
pub fn swap_message(end: SwapEnd, error: &str, bak: &str, stale: &Option<String>) -> (r: Result<
    Option<String>,
    String,
>)
    ensures
        match r {
            Ok(n) => swap_told(end, error@, bak@, opt_view(*stale)) == Ok::<
                Option<Seq<char>>,
                Seq<char>,
            >(opt_view(n)),
            Err(m) => swap_told(end, error@, bak@, opt_view(*stale)) == Err::<
                Option<Seq<char>>,
                Seq<char>,
            >(m@),
        },
{
    match end {
        SwapEnd::Restored => Ok(
            match stale {
                Some(s) => Some(s.clone()),
                None => None,
            },
        ),
        SwapEnd::LeftOver => {
            let note = "恢复前数据已保留在 ".to_owned().concat(bak).concat("，可手动删除");
            Ok(
                Some(
                    match stale {
                        Some(s) => note.concat("\n").concat(s.as_str()),
                        None => note,
                    },
                ),
            )
        },
        SwapEnd::Busy => Err("DSH 正在运行，请先停止 DSH 再恢复".to_owned()),
        SwapEnd::NotMoved => Err("移动当前数据目录失败：".to_owned().concat(error)),
        SwapEnd::NotMade => Err("创建数据目录失败：".to_owned().concat(error)),
        SwapEnd::RolledBack => Err(
            "恢复复制失败：".to_owned().concat(error).concat("（已回滚，原数据未受影响）"),
        ),
        SwapEnd::Stranded => Err(
            "恢复复制失败：".to_owned().concat(error).concat("\n原数据已移动到 ").concat(
                bak,
            ).concat("，请手动恢复"),
        ),
        SwapEnd::FreshNotMade => Err("创建数据目录失败：".to_owned().concat(error)),
        SwapEnd::FreshNotCopied => Err("恢复复制失败：".to_owned().concat(error)),
    }
}

/// The program that pnpm is, where there is one.
pub fn pnpm_program(has_cmd: bool, has_plain: bool) -> (r: Option<&'static str>)
    ensures
        match r {
            Some(p) => p@ == if has_cmd {
                "pnpm.cmd"@
            } else {
                "pnpm"@
            } && (has_cmd || has_plain),
            None => !has_cmd && !has_plain,
        },
{
    if has_cmd {
        Some("pnpm.cmd")
    } else if has_plain {
        Some("pnpm")
    } else {
        None
    }
}

/// What the building of one profile's plugins came to.
pub struct Rebuilt {
    /// The profile.
    pub name: String,
    /// Why it failed, where it did.
    pub error: Option<String>,
}

/// What is told of the profiles that failed.
pub open spec fn failures(v: Seq<Rebuilt>) -> Seq<Seq<char>>
    decreases v.len(),
{
    if v.len() == 0 {
        Seq::empty()
    } else {
        match v.last().error {
            Some(e) => failures(v.drop_last()).push(v.last().name@ + "："@ + e@),
            None => failures(v.drop_last()),
        }
    }
}

proof fn lemma_failures(v: Seq<Rebuilt>)
    ensures
        failures(v).len() <= v.len(),
    decreases v.len(),
{
    if v.len() > 0 {
        lemma_failures(v.drop_last());
    }
}

/// What is told of building the plugins again.
pub open spec fn rebuild_text(pnpm: bool, v: Seq<Rebuilt>, profiles: nat) -> Seq<char> {
    let f = failures(v);
    if profiles == 0 {
        "插件重建：未发现需要重建的 profile（profiles 目录为空）"@
    } else if !pnpm {
        "插件重建：未找到 pnpm，已跳过插件安装（可在插件管理中手动重建）"@
    } else if f.len() == 0 {
        "插件重建："@ + digits_of(v.len()) + " 个 profile 全部成功"@
    } else {
        "插件重建："@ + digits_of((v.len() - f.len()) as nat) + " 个 profile 成功，"@ + digits_of(
            f.len(),
        ) + " 个失败："@ + join_of(f, "\n"@)
    }
}

/// What is told of building the plugins of all profiles again: each one by itself, so that a
/// failure stops no other.
pub fn rebuild_plugins(profiles: usize, has_pnpm: bool, results: &Vec<Rebuilt>) -> (r: String)
    ensures
        r@ == rebuild_text(has_pnpm, results@, profiles as nat),
{
    if profiles == 0 {
        return "插件重建：未发现需要重建的 profile（profiles 目录为空）".to_owned();
    }
    if !has_pnpm {
        return "插件重建：未找到 pnpm，已跳过插件安装（可在插件管理中手动重建）".to_owned();
    }
    let mut failed: Vec<String> = Vec::new();
    let mut i: usize = 0;
    proof {
        assert(views(failed@) =~= Seq::empty());
    }
    while i < results.len()
        invariant
            i <= results@.len(),
            views(failed@) == failures(results@.take(i as int)),
        decreases results@.len() - i,
    {
        let ghost before = failed@;
        proof {
            let next = results@.take(i + 1);
            assert(next.drop_last() =~= results@.take(i as int));
            assert(next.last() == results@[i as int]);
        }
        match &results[i].error {
            Some(e) => {
                failed.push(results[i].name.clone().concat("：").concat(e.as_str()));
                proof {
                    assert(views(failed@) =~= views(before).push(failed@.last()@));
                }
            },
            None => {},
        }
        i += 1;
    }
    proof {
        assert(results@.take(results@.len() as int) =~= results@);
        lemma_failures(results@);
        assert(views(failed@).len() == failed@.len());
    }
    if failed.len() == 0 {
        "插件重建：".to_owned().concat(decimal(results.len() as u64).as_str()).concat(
            " 个 profile 全部成功",
        )
    } else {
        "插件重建：".to_owned().concat(
            decimal((results.len() - failed.len()) as u64).as_str(),
        ).concat(" 个 profile 成功，").concat(decimal(failed.len() as u64).as_str()).concat(
            " 个失败：",
        ).concat(join(&failed, "\n").as_str())
    }
}

/// Whether a character cannot stand in the name of a file.
pub open spec fn not_in_name(c: char) -> bool {
    c == '/' || c == '\\' || c == ':' || c == '*' || c == '?' || c == '"' || c == '<' || c == '>'
        || c == '|' || is_ctrl(c)
}

/// Whether a text is the bare name of a backup.
pub open spec fn backup_name_ok(file_name: Seq<char>) -> bool {
    let n = trim_of(file_name);
    &&& n.len() > 0
    &&& forall|i: int| 0 <= i < n.len() ==> !not_in_name(#[trigger] n[i])
    &&& !has_sub(n, ".."@)
    &&& ".zip"@.is_suffix_of(lower_of(n))
}

/// Whether a text is the bare name of a backup.
pub fn valid_backup_name(file_name: &str) -> (r: bool)
    ensures
        r == backup_name_ok(file_name@),
{
    let n = trim(file_name);
    let cs = chars_of(n);
    let mut i: usize = 0;
    while i < cs.len()
        invariant
            cs@ == n@,
            n@ == trim_of(file_name@),
            i <= cs@.len(),
            forall|k: int| 0 <= k < i ==> !not_in_name(#[trigger] cs@[k]),
        decreases cs@.len() - i,
    {
        let c = cs[i];
        if c == '/' || c == '\\' || c == ':' || c == '*' || c == '?' || c == '"' || c == '<' || c
            == '>' || c == '|' || control(c) {
            proof {
                assert(not_in_name(n@[i as int]));
            }
            return false;
        }
        i += 1;
    }
    !n.is_empty() && !holds(n, "..") && ends(lower(n).as_str(), ".zip")
}

/// What was unpacked.
pub struct Contents {
    /// Where the data lie.
    pub root: ContentRoot,
    /// Whether they are sound.
    pub sound: bool,
    /// How many sessions they hold.
    pub sessions: usize,
}

/// What was found out and done so far to restore a backup.
pub struct RestoreEvidence {
    /// Whether the backup is a file in the directory of the backups.
    pub file: Option<bool>,
    /// Whether DSH runs, or something else holds its port.
    pub running: Option<bool>,
    /// What came of making a directory to unpack to.
    pub temp: Option<Result<(), String>>,
    /// What came of unpacking.
    pub unpacked: Option<Result<(), String>>,
    /// What was unpacked.
    pub contents: Option<Contents>,
    /// What came of backing up the present data, where there are any.
    pub saved: Option<Result<(), String>>,
    /// What came of replacing the data.
    pub swapped: Option<Result<Option<String>, String>>,
    /// What is told of building the plugins again.
    pub rebuilt: Option<String>,
    /// Whether the directory that was unpacked to is removed.
    pub cleaned: bool,
}

/// What to do next to restore a backup.
pub enum RestoreStep {
    /// Look whether the backup is a file in the directory of the backups.
    AskFile,
    /// Find out whether DSH runs.
    AskRunning,
    /// Make a directory to unpack to.
    MakeTemp,
    /// Unpack.
    Unpack,
    /// Look at what was unpacked.
    Inspect,
    /// Back up the present data.
    Save,
    /// Replace the data.
    Swap,
    /// Build the plugins again.
    Rebuild,
    /// Remove the directory that was unpacked to.
    Clean,
    /// It is over.
    Done(Result<String, String>),
}

/// The values of a step.
pub enum RestoreView {
    /// Look whether the backup is a file in the directory of the backups.
    AskFile,
    /// Find out whether DSH runs.
    AskRunning,
    /// Make a directory to unpack to.
    MakeTemp,
    /// Unpack.
    Unpack,
    /// Look at what was unpacked.
    Inspect,
    /// Back up the present data.
    Save,
    /// Replace the data.
    Swap,
    /// Build the plugins again.
    Rebuild,
    /// Remove the directory that was unpacked to.
    Clean,
    /// It is over.
    Done(Result<Seq<char>, Seq<char>>),
}

impl View for RestoreStep {
    type V = RestoreView;

    open spec fn view(&self) -> RestoreView {
        match self {
            RestoreStep::AskFile => RestoreView::AskFile,
            RestoreStep::AskRunning => RestoreView::AskRunning,
            RestoreStep::MakeTemp => RestoreView::MakeTemp,
            RestoreStep::Unpack => RestoreView::Unpack,
            RestoreStep::Inspect => RestoreView::Inspect,
            RestoreStep::Save => RestoreView::Save,
            RestoreStep::Swap => RestoreView::Swap,
            RestoreStep::Rebuild => RestoreView::Rebuild,
            RestoreStep::Clean => RestoreView::Clean,
            RestoreStep::Done(Ok(s)) => RestoreView::Done(Ok(s@)),
            RestoreStep::Done(Err(s)) => RestoreView::Done(Err(s@)),
        }
    }
}

/// What is told when a backup is restored.
pub open spec fn restored_text(sessions: nat, plugins: Seq<char>, note: Option<Seq<char>>) -> Seq<
    char,
> {
    let s = "已恢复 DSH 数据（配置文件、"@ + digits_of(sessions) + " 个会话、插件清单）\n"@
        + plugins;
    match note {
        Some(n) => s + "\n"@ + n,
        None => s,
    }
}

/// What to do next once there is a directory to unpack to: a step, or the result.
pub open spec fn restore_inner(ev: RestoreEvidence) -> RestoreView {
    match ev.unpacked {
        None => RestoreView::Unpack,
        Some(Err(e)) => RestoreView::Done(Err(e@)),
        Some(Ok(_)) => match ev.contents {
            None => RestoreView::Inspect,
            Some(c) => if c.root == ContentRoot::Nowhere {
                RestoreView::Done(Err("备份文件无效（缺少 DSH 数据）"@))
            } else if !c.sound {
                RestoreView::Done(Err("备份文件无效（缺少 DSH 数据或清单损坏）"@))
            } else {
                match ev.saved {
                    None => RestoreView::Save,
                    Some(Err(e)) => RestoreView::Done(Err(e@)),
                    Some(Ok(_)) => match ev.swapped {
                        None => RestoreView::Swap,
                        Some(Err(e)) => RestoreView::Done(Err(e@)),
                        Some(Ok(note)) => match ev.rebuilt {
                            None => RestoreView::Rebuild,
                            Some(p) => RestoreView::Done(
                                Ok(restored_text(c.sessions as nat, p@, opt_view(note))),
                            ),
                        },
                    },
                }
            },
        },
    }
}

/// What to do next to restore the backup `file_name`.
pub open spec fn restore_next(file_name: Seq<char>, ev: RestoreEvidence) -> RestoreView {
    if !backup_name_ok(file_name) {
        RestoreView::Done(Err("无效的备份文件"@))
    } else {
        match ev.file {
            None => RestoreView::AskFile,
            Some(false) => RestoreView::Done(Err("无效的备份文件"@)),
            Some(true) => match ev.running {
                None => RestoreView::AskRunning,
                Some(true) => RestoreView::Done(Err("DSH 正在运行，请先停止 DSH 再恢复"@)),
                Some(false) => match ev.temp {
                    None => RestoreView::MakeTemp,
                    Some(Err(e)) => RestoreView::Done(Err("创建临时目录失败："@ + e@)),
                    Some(Ok(_)) => if restore_inner(ev) is Done && !ev.cleaned {
                        RestoreView::Clean
                    } else {
                        restore_inner(ev)
                    },
                },
            },
        }
    }
}

fn inner_step(ev: &RestoreEvidence) -> (r: RestoreStep)
    ensures
        r@ == restore_inner(*ev),
{
    match &ev.unpacked {
        None => {
            return RestoreStep::Unpack;
        },
        Some(Err(e)) => {
            return RestoreStep::Done(Err(e.clone()));
        },
        Some(Ok(_)) => {},
    }
    let c = match &ev.contents {
        None => {
            return RestoreStep::Inspect;
        },
        Some(c) => c,
    };
    match c.root {
        ContentRoot::Nowhere => {
            return RestoreStep::Done(Err("备份文件无效（缺少 DSH 数据）".to_owned()));
        },
        _ => {},
    }
    if !c.sound {
        return RestoreStep::Done(Err("备份文件无效（缺少 DSH 数据或清单损坏）".to_owned()));
    }
    match &ev.saved {
        None => {
            return RestoreStep::Save;
        },
        Some(Err(e)) => {
            return RestoreStep::Done(Err(e.clone()));
        },
        Some(Ok(_)) => {},
    }
    let note = match &ev.swapped {
        None => {
            return RestoreStep::Swap;
        },
        Some(Err(e)) => {
            return RestoreStep::Done(Err(e.clone()));
        },
        Some(Ok(n)) => n,
    };
    match &ev.rebuilt {
        None => RestoreStep::Rebuild,
        Some(p) => {
            let s = "已恢复 DSH 数据（配置文件、".to_owned().concat(
                decimal(c.sessions as u64).as_str(),
            ).concat(" 个会话、插件清单）\n").concat(p.as_str());
            RestoreStep::Done(
                Ok(
                    match note {
                        Some(n) => s.concat("\n").concat(n.as_str()),
                        None => s,
                    },
                ),
            )
        },
    }
}

/// What to do next to restore the backup `file_name`, by what was found out and done so far.
///
/// The backup is unpacked and looked at first, so that a bad one costs nothing; then the present
/// data are backed up; only then they are replaced.
pub fn restore_dsh_impl(file_name: &str, ev: &RestoreEvidence) -> (r: RestoreStep)
    ensures
        r@ == restore_next(file_name@, *ev),
{
    if !valid_backup_name(file_name) {
        return RestoreStep::Done(Err("无效的备份文件".to_owned()));
    }
    match ev.file {
        None => {
            return RestoreStep::AskFile;
        },
        Some(ok) => if !ok {
            return RestoreStep::Done(Err("无效的备份文件".to_owned()));
        },
    }
    match ev.running {
        None => {
            return RestoreStep::AskRunning;
        },
        Some(running) => if running {
            return RestoreStep::Done(Err("DSH 正在运行，请先停止 DSH 再恢复".to_owned()));
        },
    }
    match &ev.temp {
        None => {
            return RestoreStep::MakeTemp;
        },
        Some(Err(e)) => {
            return RestoreStep::Done(Err("创建临时目录失败：".to_owned().concat(e.as_str())));
        },
        Some(Ok(_)) => {},
    }
    let step = inner_step(ev);
    match step {
        RestoreStep::Done(result) => if ev.cleaned {
            RestoreStep::Done(result)
        } else {
            RestoreStep::Clean
        },
        other => other,
    }
}

/// The data are replaced only by a backup that was named well, is in its directory, was unpacked and
/// is sound, while DSH does not run, and after the present data are backed up.
pub proof fn law_data_are_replaced_last(file_name: Seq<char>, ev: RestoreEvidence)
    requires
        restore_next(file_name, ev) is Swap,
    ensures
        backup_name_ok(file_name),
        ev.file == Some(true),
        ev.running == Some(false),
        ev.unpacked is Some && ev.unpacked->0 is Ok,
        ev.contents is Some && ev.contents->0.root != ContentRoot::Nowhere && ev.contents->0.sound,
        ev.saved is Some && ev.saved->0 is Ok,
{
}

/// What was unpacked does not stay behind: once there is a directory to unpack to, nothing ends
/// before it is removed.
pub proof fn law_unpacked_files_are_removed(file_name: Seq<char>, ev: RestoreEvidence)
    requires
        restore_next(file_name, ev) is Done,
        backup_name_ok(file_name),
        ev.file == Some(true),
        ev.running == Some(false),
        ev.temp is Some && ev.temp->0 is Ok,
    ensures
        ev.cleaned,
{
}

/// A restore tells of success only where the data were replaced.
pub proof fn law_success_means_replaced(file_name: Seq<char>, ev: RestoreEvidence)
    requires
        restore_next(file_name, ev) is Done,
        restore_next(file_name, ev)->Done_0 is Ok,
    ensures
        ev.swapped is Some && ev.swapped->0 is Ok,
        ev.saved is Some && ev.saved->0 is Ok,
        ev.rebuilt is Some,
{
}

/// What was done so far to pack the data.
pub struct PackEvidence {
    /// What came of making a directory to copy to.
    pub temp: Option<Result<(), String>>,
    /// What came of copying the data.
    pub copied: Option<Result<(), String>>,
    /// What came of writing the document that tells what the backup is.
    pub manifest: Option<Result<(), String>>,
    /// What came of packing.
    pub zipped: Option<Result<(), String>>,
    /// What came of looking at the backup.
    pub checked: Option<Result<(), String>>,
    /// Whether the directory that was copied to is removed.
    pub cleaned: bool,
}

/// What to do next to pack the data.
pub enum PackStep {
    /// Make a directory to copy to.
    MakeTemp,
    /// Copy the data.
    Copy,
    /// Write the document that tells what the backup is.
    WriteManifest,
    /// Pack.
    Zip,
    /// Look at the backup.
    Check,
    /// Remove the directory that was copied to.
    Clean,
    /// It is over.
    Done(Result<(), String>),
}

/// The values of a step.
pub enum PackView {
    /// Make a directory to copy to.
    MakeTemp,
    /// Copy the data.
    Copy,
    /// Write the document that tells what the backup is.
    WriteManifest,
    /// Pack.
    Zip,
    /// Look at the backup.
    Check,
    /// Remove the directory that was copied to.
    Clean,
    /// It is over.
    Done(Result<(), Seq<char>>),
}

impl View for PackStep {
    type V = PackView;

    open spec fn view(&self) -> PackView {
        match self {
            PackStep::MakeTemp => PackView::MakeTemp,
            PackStep::Copy => PackView::Copy,
            PackStep::WriteManifest => PackView::WriteManifest,
            PackStep::Zip => PackView::Zip,
            PackStep::Check => PackView::Check,
            PackStep::Clean => PackView::Clean,
            PackStep::Done(Ok(_)) => PackView::Done(Ok(())),
            PackStep::Done(Err(e)) => PackView::Done(Err(e@)),
        }
    }
}

/// What to do next once there is a directory to copy to: a step, or the result.
pub open spec fn pack_inner(ev: PackEvidence) -> PackView {
    match ev.copied {
        None => PackView::Copy,
        Some(Err(e)) => PackView::Done(Err(e@)),
        Some(Ok(_)) => match ev.manifest {
            None => PackView::WriteManifest,
            Some(Err(e)) => PackView::Done(Err(e@)),
            Some(Ok(_)) => match ev.zipped {
                None => PackView::Zip,
                Some(Err(e)) => PackView::Done(Err(e@)),
                Some(Ok(_)) => match ev.checked {
                    None => PackView::Check,
                    Some(Err(e)) => PackView::Done(Err(e@)),
                    Some(Ok(_)) => PackView::Done(Ok(())),
                },
            },
        },
    }
}

/// What to do next to pack the data, which are there or not.
pub open spec fn pack_next(home_is_dir: bool, ev: PackEvidence) -> PackView {
    if !home_is_dir {
        PackView::Done(Err("未找到 DSH 数据目录"@))
    } else {
        match ev.temp {
            None => PackView::MakeTemp,
            Some(Err(e)) => PackView::Done(Err("创建临时目录失败："@ + e@)),
            Some(Ok(_)) => if pack_inner(ev) is Done && !ev.cleaned {
                PackView::Clean
            } else {
                pack_inner(ev)
            },
        }
    }
}

fn pack_step(ev: &PackEvidence) -> (r: PackStep)
    ensures
        r@ == pack_inner(*ev),
{
    match &ev.copied {
        None => {
            return PackStep::Copy;
        },
        Some(Err(e)) => {
            return PackStep::Done(Err(e.clone()));
        },
        Some(Ok(_)) => {},
    }
    match &ev.manifest {
        None => {
            return PackStep::WriteManifest;
        },
        Some(Err(e)) => {
            return PackStep::Done(Err(e.clone()));
        },
        Some(Ok(_)) => {},
    }
    match &ev.zipped {
        None => {
            return PackStep::Zip;
        },
        Some(Err(e)) => {
            return PackStep::Done(Err(e.clone()));
        },
        Some(Ok(_)) => {},
    }
    match &ev.checked {
        None => PackStep::Check,
        Some(Err(e)) => PackStep::Done(Err(e.clone())),
        Some(Ok(_)) => PackStep::Done(Ok(())),
    }
}

/// What to do next to pack the data, by what was done so far. The directory that they are copied to
/// is removed in any case.
pub fn pack_dsh_home(home_is_dir: bool, ev: &PackEvidence) -> (r: PackStep)
    ensures
        r@ == pack_next(home_is_dir, *ev),
{
    if !home_is_dir {
        return PackStep::Done(Err("未找到 DSH 数据目录".to_owned()));
    }
    match &ev.temp {
        None => {
            return PackStep::MakeTemp;
        },
        Some(Err(e)) => {
            return PackStep::Done(Err("创建临时目录失败：".to_owned().concat(e.as_str())));
        },
        Some(Ok(_)) => {},
    }
    match pack_step(ev) {
        PackStep::Done(result) => if ev.cleaned {
            PackStep::Done(result)
        } else {
            PackStep::Clean
        },
        other => other,
    }
}

/// A backup counts as made only where the data were copied, described, packed and looked at, and
/// the directory that they were copied to is removed.
pub proof fn law_packed_means_checked(home_is_dir: bool, ev: PackEvidence)
    requires
        pack_next(home_is_dir, ev) is Done,
        pack_next(home_is_dir, ev)->Done_0 is Ok,
    ensures
        home_is_dir,
        ev.copied is Some && ev.copied->0 is Ok,
        ev.manifest is Some && ev.manifest->0 is Ok,
        ev.zipped is Some && ev.zipped->0 is Ok,
        ev.checked is Some && ev.checked->0 is Ok,
        ev.cleaned,
{
}

} // verus!
