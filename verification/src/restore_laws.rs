//! What holds of a restore: what counts as the data of DSH, what may be unpacked, which directory
//! may be replaced, and how the steps follow each other.

use crate::backup::entry_path;
use crate::numbers::digits_of;
use crate::restore::{
    backup_name_ok, failures, home_fault, marked_data, not_in_name, pack_next, path_views, plus,
    protected_dirs, protection_fault, rebuild_text, restore_next, root_of, sound_data, swap_first,
    swap_next, swap_told, unpack_fault, write_fault, ContentRoot, DataMarkers, HomeFacts,
    PackEvidence, PackView, Rebuilt, RestoreEvidence, RestoreView, SwapEnd, SwapStep, ZipEntry,
    MAX_ENTRIES, MAX_TOTAL_BYTES,
};
use crate::text::{drop_back, has_sub, is_ctrl, is_space, join_of, lower_of, trim_of, views, Strip};
use crate::text_laws::{all_stripped, law_strip_takes_off_what_stands_round};
use vstd::prelude::*;

verus! {

/// A directory holds data of DSH if and only if it has the settings, the sessions, the profiles or
/// the storages. A backup is sound if its manifest names the launcher, or if the settings stand in
/// it as a file beside one of the other three.
pub proof fn law_what_counts_as_data(m: DataMarkers, manifest: Option<Seq<char>>)
    ensures
        !marked_data(m) <==> !m.settings && !m.sessions && !m.profiles && !m.storages,
        manifest is Some && has_sub(manifest->0, "dsh-launcher"@) ==> sound_data(manifest, m),
        !(manifest is Some && has_sub(manifest->0, "dsh-launcher"@)) ==> (sound_data(manifest, m)
            <==> m.settings_file && !(!m.sessions && !m.profiles && !m.storages)),
{
}

/// The data lie at the top where a manifest or a part of the data stands there; in the only
/// directory where not and that one holds a part of the data; and nowhere otherwise.
pub proof fn law_where_the_data_lie(has_manifest: bool, top: DataMarkers, dirs: Seq<DataMarkers>)
    ensures
        root_of(has_manifest, top, dirs) == ContentRoot::Top <==> has_manifest || marked_data(top),
        root_of(has_manifest, top, dirs) == ContentRoot::Below <==> !has_manifest && !marked_data(top)
            && dirs.len() == 1 && marked_data(dirs[0]),
{
}

/// An archive of at most 200000 entries and 8 GiB is unpacked.
pub proof fn law_limits_of_an_archive()
    ensures
        MAX_ENTRIES == 200_000,
        MAX_TOTAL_BYTES == 8 * 1024 * 1024 * 1024,
{
}

/// Whether all entries before `k` can be unpacked.
pub open spec fn fine_before(v: Seq<Result<ZipEntry, String>>, k: int) -> bool {
    &&& 0 <= k <= v.len()
    &&& forall|j: int|
        0 <= j < k ==> (#[trigger] v[j]) is Ok && entry_path(v[j]->Ok_0.name@) is Some
    &&& bytes_before(v, k) <= 8 * 1024 * 1024 * 1024
}

/// The bytes that the first `k` entries state.
pub open spec fn bytes_before(v: Seq<Result<ZipEntry, String>>, k: int) -> nat
    decreases k,
{
    if k <= 0 || k > v.len() {
        0
    } else {
        bytes_before(v, k - 1) + match v[k - 1] {
            Ok(z) => z.size as nat,
            Err(_) => 0,
        }
    }
}

proof fn lemma_bytes_grow(v: Seq<Result<ZipEntry, String>>, j: int, k: int)
    requires
        0 <= j <= k <= v.len(),
    ensures
        bytes_before(v, j) <= bytes_before(v, k),
    decreases k - j,
{
    if j < k {
        lemma_bytes_grow(v, j, k - 1);
    }
}

proof fn lemma_fault_at(v: Seq<Result<ZipEntry, String>>, i: int, k: int)
    requires
        0 <= i <= k,
        fine_before(v, k),
    ensures
        unpack_fault(v, i, bytes_before(v, i) as u64) == unpack_fault(
            v,
            k,
            bytes_before(v, k) as u64,
        ),
    decreases k - i,
{
    if i < k {
        lemma_bytes_grow(v, i, k);
        lemma_bytes_grow(v, i + 1, k);
        assert(v[i] is Ok && entry_path(v[i]->Ok_0.name@) is Some);
        assert(plus(bytes_before(v, i) as u64, v[i]->Ok_0.size) == bytes_before(v, i + 1));
        lemma_fault_at(v, i + 1, k);
    }
}

/// An archive is unpacked if all its entries can be read, lie below and state at most 8 GiB
/// together. Otherwise the first entry decides for which this fails: it is told with its number,
/// with its name, or with the bytes that were reached.
pub proof fn law_first_bad_entry_is_told(v: Seq<Result<ZipEntry, String>>, k: int)
    requires
        fine_before(v, k),
    ensures
        k == v.len() ==> unpack_fault(v, 0, 0) is None,
        k < v.len() && v[k] is Err ==> unpack_fault(v, 0, 0) == Some(
            "备份条目 #"@ + digits_of(k as nat) + " 无法读取："@ + v[k]->Err_0@,
        ),
        k < v.len() && v[k] is Ok && entry_path(v[k]->Ok_0.name@) is None ==> unpack_fault(v, 0, 0)
            == Some("备份文件包含不安全条目，已中止解压："@ + v[k]->Ok_0.name@),
        k < v.len() && v[k] is Ok && entry_path(v[k]->Ok_0.name@) is Some && bytes_before(v, k + 1)
            > 8 * 1024 * 1024 * 1024 && bytes_before(v, k + 1) <= u64::MAX ==> unpack_fault(v, 0, 0)
            == Some(
            "备份解压总量超过 8GB 上限，已中止："@ + digits_of(bytes_before(v, k + 1)) + " 字节"@,
        ),
{
    lemma_fault_at(v, 0, k);
    if k < v.len() && v[k] is Ok {
        assert(bytes_before(v, k + 1) == bytes_before(v, k) + v[k]->Ok_0.size);
    }
}

/// The directories that are never replaced: that of the user, the desktop, and every directory for
/// temporary files that is known.
pub proof fn law_protected_directories(
    user: Seq<char>,
    slashes: Seq<char>,
    temp: Seq<char>,
    env_temp: Option<Seq<char>>,
    env_tmp: Option<Seq<char>>,
)
    requires
        user.len() > 0,
        !is_space(user[0]),
        user.last() != '\\',
        all_stripped(slashes, Strip::Only('\\')),
    ensures
        ({
            let v = protected_dirs(user + slashes, temp, env_temp, env_tmp);
            &&& v.contains(user + slashes)
            &&& v.contains(user + "\\Desktop"@)
            &&& v.contains(temp)
            &&& env_temp is Some ==> v.contains(env_temp->0)
            &&& env_tmp is Some ==> v.contains(env_tmp->0)
        }),
        protected_dirs(Seq::empty(), temp, env_temp, env_tmp).contains(temp),
{
    let u = user + slashes;
    let v = protected_dirs(u, temp, env_temp, env_tmp);
    let none = Seq::<char>::empty();
    assert(user + slashes =~= none + (user + slashes) + none);
    assert(trim_of(u).len() > 0) by {
        if trim_of(u).len() == 0 {
            crate::text_laws::law_every_text_is_its_trim_with_space_round_it(u);
            let (a, b) = choose|a: Seq<char>, b: Seq<char>|
                all_stripped(a, Strip::Space) && all_stripped(b, Strip::Space) && u == #[trigger] (a
                    + trim_of(u) + b);
            assert(u[0] == user[0]);
            if a.len() > 0 {
                assert(u[0] == a[0]);
                assert(crate::text::strips(Strip::Space, a[0]));
            } else {
                assert(u[0] == b[0]);
                assert(crate::text::strips(Strip::Space, b[0]));
            }
        }
    }
    lemma_back(user, slashes);
    assert(v[0] == u);
    assert(v[1] == user + "\\Desktop"@);
    assert(v[2] == temp);
    if env_temp is Some {
        assert(v[3] == env_temp->0);
    }
    if env_tmp is Some {
        if env_temp is Some {
            assert(v[4] == env_tmp->0);
        } else {
            assert(v[3] == env_tmp->0);
        }
    }
    let w = protected_dirs(none, temp, env_temp, env_tmp);
    assert(trim_of(none).len() == 0) by {
        assert(none + none + none =~= none);
        law_strip_takes_off_what_stands_round(none, none, none, Strip::Space);
    }
    assert(w[0] == temp);
}

proof fn lemma_back(user: Seq<char>, slashes: Seq<char>)
    requires
        user.len() > 0,
        user.last() != '\\',
        all_stripped(slashes, Strip::Only('\\')),
    ensures
        drop_back(user + slashes, Strip::Only('\\')) == user,
    decreases slashes.len(),
{
    if slashes.len() == 0 {
        assert(user + slashes =~= user);
    } else {
        assert((user + slashes).last() == slashes.last());
        assert(crate::text::strips(Strip::Only('\\'), slashes[slashes.len() - 1]));
        assert((user + slashes).drop_last() =~= user + slashes.drop_last());
        lemma_back(user, slashes.drop_last());
    }
}

proof fn lemma_no_protection_fault(
    p: Seq<Seq<Seq<char>>>,
    i: int,
    home: Seq<Seq<char>>,
    shown: Seq<char>,
)
    requires
        0 <= i,
        forall|k: int| i <= k < p.len() ==> !home.is_prefix_of(#[trigger] p[k]),
    ensures
        protection_fault(p, i, home, shown) is None,
    decreases p.len() - i,
{
    if i < p.len() {
        assert(!home.is_prefix_of(p[i]));
        if p[i] == home {
            assert(home.subrange(0, home.len() as int) =~= home);
        }
        lemma_no_protection_fault(p, i + 1, home, shown);
    }
}

proof fn lemma_protection_at(
    p: Seq<Seq<Seq<char>>>,
    i: int,
    k: int,
    home: Seq<Seq<char>>,
    shown: Seq<char>,
)
    requires
        0 <= i <= k < p.len(),
        forall|j: int| i <= j < k ==> !home.is_prefix_of(#[trigger] p[j]),
        home.is_prefix_of(p[k]),
    ensures
        protection_fault(p, i, home, shown) == Some(
            (if p[k] == home {
                "DSH_HOME 指向系统关键目录，已中止："@
            } else {
                "DSH_HOME 是用户目录的上级目录，已中止："@
            }) + shown,
        ),
    decreases k - i,
{
    if i < k {
        assert(!home.is_prefix_of(p[i]));
        if p[i] == home {
            assert(home.subrange(0, home.len() as int) =~= home);
        }
        lemma_protection_at(p, i + 1, k, home, shown);
    }
}

/// A directory may be replaced if and only if its path is absolute and no root, it neither is nor
/// holds one of the protected directories, and what it holds, if anything, is data of DSH. Each
/// other directory is refused for its own reason.
pub proof fn law_which_directory_may_be_replaced(h: HomeFacts, k: int)
    ensures
        ({
            let r = home_fault(h);
            let apart = forall|j: int|
                0 <= j < h.protected@.len() ==> !views(h.names@).is_prefix_of(
                    views((#[trigger] h.protected@[j])@),
                );
            let own = !h.is_dir || !h.non_empty || marked_data(h.markers);
            &&& r is None <==> h.is_absolute && h.has_parent && apart && own
            &&& !h.is_absolute ==> r == Some("DSH_HOME 不是绝对路径，已中止："@ + h.shown@)
            &&& h.is_absolute && !h.has_parent ==> r == Some(
                "DSH_HOME 指向盘符根目录，已中止："@ + h.shown@,
            )
            &&& h.is_absolute && h.has_parent && apart && !own ==> r == Some(
                "DSH_HOME 目录不含 DSH 数据特征（settings.yaml / profiles 等），已中止："@ + h.shown@,
            )
            &&& h.is_absolute && h.has_parent && 0 <= k < h.protected@.len() && views(
                h.names@,
            ).is_prefix_of(views(h.protected@[k]@)) && (forall|j: int|
                0 <= j < k ==> !views(h.names@).is_prefix_of(
                    views((#[trigger] h.protected@[j])@),
                )) ==> r == Some(
                (if views(h.protected@[k]@) == views(h.names@) {
                    "DSH_HOME 指向系统关键目录，已中止："@
                } else {
                    "DSH_HOME 是用户目录的上级目录，已中止："@
                }) + h.shown@,
            )
        }),
{
    let p = path_views(h.protected@);
    let home = views(h.names@);
    assert(forall|j: int| 0 <= j < p.len() ==> #[trigger] p[j] == views(h.protected@[j]@));
    if forall|j: int| 0 <= j < p.len() ==> !home.is_prefix_of(#[trigger] p[j]) {
        lemma_no_protection_fault(p, 0, home, h.shown@);
        assert forall|j: int| 0 <= j < h.protected@.len() implies !home.is_prefix_of(
            views((#[trigger] h.protected@[j])@),
        ) by {
            assert(!home.is_prefix_of(p[j]));
        }
    } else {
        let n = lemma_first(p, home, 0);
        lemma_protection_at(p, 0, n, home, h.shown@);
        assert(home.is_prefix_of(views(h.protected@[n]@)));
    }
    if 0 <= k < h.protected@.len() && home.is_prefix_of(views(h.protected@[k]@)) && (forall|j: int|
        0 <= j < k ==> !home.is_prefix_of(views((#[trigger] h.protected@[j])@))) {
        assert forall|j: int| 0 <= j < k implies !home.is_prefix_of(#[trigger] p[j]) by {
            assert(!home.is_prefix_of(views(h.protected@[j]@)));
        }
        assert(home.is_prefix_of(p[k]));
        lemma_protection_at(p, 0, k, home, h.shown@);
    }
}

proof fn lemma_first(p: Seq<Seq<Seq<char>>>, home: Seq<Seq<char>>, i: int) -> (n: int)
    requires
        0 <= i <= p.len(),
        forall|j: int| 0 <= j < i ==> !home.is_prefix_of(#[trigger] p[j]),
        exists|j: int| 0 <= j < p.len() && home.is_prefix_of(#[trigger] p[j]),
    ensures
        0 <= n < p.len(),
        home.is_prefix_of(p[n]),
        forall|j: int| 0 <= j < n ==> !home.is_prefix_of(#[trigger] p[j]),
    decreases p.len() - i,
{
    if i < p.len() && home.is_prefix_of(p[i]) {
        i
    } else if i < p.len() {
        lemma_first(p, home, i + 1)
    } else {
        0
    }
}

/// Replacing the data goes forward as long as every step succeeds: the old data are moved aside,
/// the new ones are copied to a new directory, and then the old ones go. Where there were none, the
/// new ones are copied. While DSH runs nothing is touched.
pub proof fn law_replacing_goes_forward(running: bool)
    ensures
        swap_first(true, true) == SwapStep::End(SwapEnd::Busy),
        swap_first(true, false) == SwapStep::Move,
        swap_first(false, running) == SwapStep::FreshMake,
        swap_next(SwapStep::Move, true) == SwapStep::Make,
        swap_next(swap_next(SwapStep::Move, true), true) == SwapStep::Copy,
        swap_next(swap_next(swap_next(SwapStep::Move, true), true), true) == SwapStep::RemoveOld,
        swap_next(swap_next(swap_next(swap_next(SwapStep::Move, true), true), true), true)
            == SwapStep::End(SwapEnd::Restored),
        swap_next(swap_next(SwapStep::FreshMake, true), true) == SwapStep::End(SwapEnd::Restored),
{
}

/// Where a step fails before the new data stand, the old data go back to their place; where that
/// fails too, it is told where they lie. Old data that cannot be removed spoil no success.
pub proof fn law_failures_lead_back(ok: bool)
    ensures
        swap_next(SwapStep::Move, false) == SwapStep::End(SwapEnd::NotMoved),
        swap_next(SwapStep::Make, false) == SwapStep::UndoMove,
        swap_next(SwapStep::UndoMove, ok) == SwapStep::End(SwapEnd::NotMade),
        swap_next(SwapStep::Copy, false) == SwapStep::RemoveCopy,
        swap_next(SwapStep::RemoveCopy, ok) == SwapStep::UndoCopy,
        swap_next(SwapStep::UndoCopy, true) == SwapStep::End(SwapEnd::RolledBack),
        swap_next(SwapStep::UndoCopy, false) == SwapStep::End(SwapEnd::Stranded),
        swap_next(SwapStep::RemoveOld, false) == SwapStep::End(SwapEnd::LeftOver),
        swap_next(SwapStep::FreshMake, false) == SwapStep::End(SwapEnd::FreshNotMade),
        swap_next(SwapStep::FreshCopy, false) == SwapStep::End(SwapEnd::FreshNotCopied),
{
}

/// Success is told if and only if the new data stand. A failure tells what went wrong; where the old
/// data lie aside it tells where, and so does a success that left them there.
pub proof fn law_what_is_told_of_a_replacing(
    end: SwapEnd,
    error: Seq<char>,
    bak: Seq<char>,
    stale: Option<Seq<char>>,
)
    ensures
        swap_told(end, error, bak, stale) is Ok <==> end == SwapEnd::Restored || end
            == SwapEnd::LeftOver,
        end == SwapEnd::Restored ==> swap_told(end, error, bak, stale)->Ok_0 == stale,
        end == SwapEnd::LeftOver ==> swap_told(end, error, bak, stale)->Ok_0 is Some && has_sub(
            swap_told(end, error, bak, stale)->Ok_0->0,
            bak,
        ),
        end == SwapEnd::Stranded ==> has_sub(swap_told(end, error, bak, stale)->Err_0, bak),
        end != SwapEnd::Restored && end != SwapEnd::LeftOver && end != SwapEnd::Busy ==> has_sub(
            swap_told(end, error, bak, stale)->Err_0,
            error,
        ),
{
    let r = swap_told(end, error, bak, stale);
    match end {
        SwapEnd::LeftOver => {
            let a = "恢复前数据已保留在 "@;
            let m = r->Ok_0->0;
            assert(m.subrange(a.len() as int, (a.len() + bak.len()) as int) =~= bak);
            assert(crate::text::stands_at(m, bak, a.len() as int));
        },
        SwapEnd::Stranded => {
            let m = r->Err_0;
            let a = "恢复复制失败："@;
            let n = a.len() + error.len() + "\n原数据已移动到 "@.len();
            assert(m.subrange(n as int, (n + bak.len()) as int) =~= bak);
            assert(crate::text::stands_at(m, bak, n as int));
            assert(m.subrange(a.len() as int, (a.len() + error.len()) as int) =~= error);
            assert(crate::text::stands_at(m, error, a.len() as int));
        },
        SwapEnd::NotMoved => {
            lemma_tells("移动当前数据目录失败："@, error, Seq::empty());
            assert(r->Err_0 =~= "移动当前数据目录失败："@ + error + Seq::<char>::empty());
        },
        SwapEnd::NotMade | SwapEnd::FreshNotMade => {
            lemma_tells("创建数据目录失败："@, error, Seq::empty());
            assert(r->Err_0 =~= "创建数据目录失败："@ + error + Seq::<char>::empty());
        },
        SwapEnd::RolledBack => {
            lemma_tells("恢复复制失败："@, error, "（已回滚，原数据未受影响）"@);
        },
        SwapEnd::FreshNotCopied => {
            lemma_tells("恢复复制失败："@, error, Seq::empty());
            assert(r->Err_0 =~= "恢复复制失败："@ + error + Seq::<char>::empty());
        },
        _ => {},
    }
}

proof fn lemma_tells(a: Seq<char>, x: Seq<char>, b: Seq<char>)
    ensures
        has_sub(a + x + b, x),
{
    let m = a + x + b;
    assert(m.subrange(a.len() as int, (a.len() + x.len()) as int) =~= x);
    assert(crate::text::stands_at(m, x, a.len() as int));
}

/// The profiles that failed are told each with its reason, in their order, and no other is.
pub proof fn law_failed_profiles_are_told(a: Seq<Rebuilt>, x: Rebuilt, b: Seq<Rebuilt>)
    ensures
        failures(a + b) == failures(a) + failures(b),
        failures(seq![x]) == if x.error is Some {
            seq![x.name@ + "："@ + x.error->0@]
        } else {
            Seq::empty()
        },
    decreases b.len(),
{
    let none = Seq::<Rebuilt>::empty();
    assert(failures(none) =~= Seq::empty());
    assert(seq![x].drop_last() =~= none);
    if x.error is Some {
        assert(failures(seq![x]) =~= seq![x.name@ + "："@ + x.error->0@]);
    }
    if b.len() == 0 {
        assert(a + b =~= a);
        assert(failures(a) + failures(b) =~= failures(a));
    } else {
        assert((a + b).drop_last() =~= a + b.drop_last());
        law_failed_profiles_are_told(a, x, b.drop_last());
        assert(failures(a + b) =~= failures(a) + failures(b));
    }
}

/// What is told of building the plugins again: that there was nothing to build, that `pnpm` is
/// missing, how many profiles were built, or how many were and how many failed, and why.
pub proof fn law_what_is_told_of_the_plugins(pnpm: bool, v: Seq<Rebuilt>, profiles: nat)
    ensures
        ({
            let r = rebuild_text(pnpm, v, profiles);
            let f = failures(v);
            &&& profiles == 0 ==> r == "插件重建：未发现需要重建的 profile（profiles 目录为空）"@
            &&& profiles > 0 && !pnpm ==> r
                == "插件重建：未找到 pnpm，已跳过插件安装（可在插件管理中手动重建）"@
            &&& profiles > 0 && pnpm && f.len() == 0 ==> r == "插件重建："@ + digits_of(v.len())
                + " 个 profile 全部成功"@
            &&& profiles > 0 && pnpm && f.len() > 0 ==> r == "插件重建："@ + digits_of(
                (v.len() - f.len()) as nat,
            ) + " 个 profile 成功，"@ + digits_of(f.len()) + " 个失败："@ + join_of(f, "\n"@)
        }),
{
}

/// A name is that of a backup if and only if, white space round it left out, it ends with `.zip` in
/// whatever case, holds no `..`, no separator and nothing that Windows does not take in a name.
pub proof fn law_names_of_backups(a: Seq<char>, n: Seq<char>, b: Seq<char>)
    requires
        all_stripped(a, Strip::Space),
        all_stripped(b, Strip::Space),
        n.len() > 0 ==> !is_space(n[0]) && !is_space(n.last()),
    ensures
        backup_name_ok(a + n + b) <==> n.len() >= 4 && lower_of(n).skip(n.len() - 4) == ".zip"@
            && !has_sub(n, ".."@) && forall|i: int|
            0 <= i < n.len() ==> !seq!['/', '\\', ':', '*', '?', '"', '<', '>', '|'].contains(
                #[trigger] n[i],
            ) && !is_ctrl(n[i]),
{
    law_strip_takes_off_what_stands_round(a, n, b, Strip::Space);
    reveal_strlit(".zip");
    let v = seq!['/', '\\', ':', '*', '?', '"', '<', '>', '|'];
    assert(v[0] == '/' && v[1] == '\\' && v[2] == ':' && v[3] == '*' && v[4] == '?' && v[5] == '"'
        && v[6] == '<' && v[7] == '>' && v[8] == '|');
    assert forall|i: int| 0 <= i < n.len() implies not_in_name(#[trigger] n[i]) == (v.contains(n[i])
        || is_ctrl(n[i])) by {
        if v.contains(n[i]) {
            let k = choose|k: int| 0 <= k < v.len() && v[k] == n[i];
        }
    }
    let l = lower_of(n);
    if n.len() >= 4 {
        assert(l.skip(n.len() - 4) =~= l.subrange(n.len() - 4, n.len() as int));
    }
}

/// A restore goes forward as long as every step succeeds: the file is looked for, DSH must not run,
/// the backup is unpacked to a directory of its own and looked at, the present data are saved, and
/// only then are they replaced and the plugins built again.
pub proof fn law_restoring_goes_forward(file_name: Seq<char>, ev: RestoreEvidence)
    requires
        backup_name_ok(file_name),
    ensures
        ({
            let r = restore_next(file_name, ev);
            let ready = ev.file == Some(true) && ev.running == Some(false);
            let open = ready && ev.temp is Some && ev.temp->0 is Ok;
            let there = open && ev.unpacked is Some && ev.unpacked->0 is Ok;
            let good = there && ev.contents is Some && ev.contents->0.root != ContentRoot::Nowhere
                && ev.contents->0.sound;
            let saved = good && ev.saved is Some && ev.saved->0 is Ok;
            let done = saved && ev.swapped is Some && ev.swapped->0 is Ok;
            &&& ev.file is None <==> r is AskFile
            &&& ev.file == Some(true) && ev.running is None <==> r is AskRunning
            &&& ready && ev.temp is None <==> r is MakeTemp
            &&& open && ev.unpacked is None <==> r is Unpack
            &&& there && ev.contents is None <==> r is Inspect
            &&& good && ev.saved is None <==> r is Save
            &&& saved && ev.swapped is None <==> r is Swap
            &&& done && ev.rebuilt is None <==> r is Rebuild
            &&& done && ev.rebuilt is Some && !ev.cleaned ==> r is Clean
            &&& done && ev.rebuilt is Some && ev.cleaned && ev.swapped->0->Ok_0 is None ==> r
                == RestoreView::Done(
                Ok(
                    "已恢复 DSH 数据（配置文件、"@ + digits_of(ev.contents->0.sessions as nat)
                        + " 个会话、插件清单）\n"@ + ev.rebuilt->0@,
                ),
            )
            &&& done && ev.rebuilt is Some && ev.cleaned && ev.swapped->0->Ok_0 is Some ==> r
                == RestoreView::Done(
                Ok(
                    "已恢复 DSH 数据（配置文件、"@ + digits_of(ev.contents->0.sessions as nat)
                        + " 个会话、插件清单）\n"@ + ev.rebuilt->0@ + "\n"@
                        + ev.swapped->0->Ok_0->0@,
                ),
            )
        }),
{
}

/// A step of a restore that fails ends it with what failed, once what was unpacked is removed.
pub proof fn law_restoring_tells_what_failed(file_name: Seq<char>, ev: RestoreEvidence)
    ensures
        ({
            let r = restore_next(file_name, ev);
            let open = backup_name_ok(file_name) && ev.file == Some(true) && ev.running == Some(
                false,
            ) && ev.temp is Some && ev.temp->0 is Ok && ev.cleaned;
            let there = open && ev.unpacked is Some && ev.unpacked->0 is Ok && ev.contents is Some;
            let good = there && ev.contents->0.root != ContentRoot::Nowhere && ev.contents->0.sound;
            &&& !backup_name_ok(file_name) ==> r == RestoreView::Done(Err("无效的备份文件"@))
            &&& ev.file == Some(false) ==> r == RestoreView::Done(Err("无效的备份文件"@))
            &&& backup_name_ok(file_name) && ev.file == Some(true) && ev.running == Some(true) ==> r
                == RestoreView::Done(Err("DSH 正在运行，请先停止 DSH 再恢复"@))
            &&& backup_name_ok(file_name) && ev.file == Some(true) && ev.running == Some(false)
                && ev.temp is Some && ev.temp->0 is Err ==> r == RestoreView::Done(
                Err("创建临时目录失败："@ + ev.temp->0->Err_0@),
            )
            &&& open && ev.unpacked is Some && ev.unpacked->0 is Err ==> r == RestoreView::Done(
                Err(ev.unpacked->0->Err_0@),
            )
            &&& there && ev.contents->0.root == ContentRoot::Nowhere ==> r == RestoreView::Done(
                Err("备份文件无效（缺少 DSH 数据）"@),
            )
            &&& there && ev.contents->0.root != ContentRoot::Nowhere && !ev.contents->0.sound ==> r
                == RestoreView::Done(Err("备份文件无效（缺少 DSH 数据或清单损坏）"@))
            &&& good && ev.saved is Some && ev.saved->0 is Err ==> r == RestoreView::Done(
                Err(ev.saved->0->Err_0@),
            )
            &&& good && ev.saved is Some && ev.saved->0 is Ok && ev.swapped is Some
                && ev.swapped->0 is Err ==> r == RestoreView::Done(Err(ev.swapped->0->Err_0@))
        }),
{
}

/// Packing goes forward as long as every step succeeds: the data are copied to a directory of its
/// own, told of in a manifest, packed and looked at. The directory is removed whatever came of it,
/// and the first failure is what is told.
pub proof fn law_packing_goes_forward(ev: PackEvidence)
    ensures
        ({
            let r = pack_next(true, ev);
            let open = ev.temp is Some && ev.temp->0 is Ok;
            let copied = open && ev.copied is Some && ev.copied->0 is Ok;
            let told = copied && ev.manifest is Some && ev.manifest->0 is Ok;
            let zipped = told && ev.zipped is Some && ev.zipped->0 is Ok;
            let checked = zipped && ev.checked is Some && ev.checked->0 is Ok;
            &&& ev.temp is None <==> r is MakeTemp
            &&& open && ev.copied is None <==> r is Copy
            &&& copied && ev.manifest is None <==> r is WriteManifest
            &&& told && ev.zipped is None <==> r is Zip
            &&& zipped && ev.checked is None <==> r is Check
            &&& checked && !ev.cleaned ==> r is Clean
            &&& checked && ev.cleaned ==> r == PackView::Done(Ok(()))
            &&& ev.temp is Some && ev.temp->0 is Err ==> r == PackView::Done(
                Err("创建临时目录失败："@ + ev.temp->0->Err_0@),
            )
            &&& open && ev.copied is Some && ev.copied->0 is Err && ev.cleaned ==> r == PackView::Done(
                Err(ev.copied->0->Err_0@),
            )
            &&& copied && ev.manifest is Some && ev.manifest->0 is Err && ev.cleaned ==> r
                == PackView::Done(Err(ev.manifest->0->Err_0@))
            &&& told && ev.zipped is Some && ev.zipped->0 is Err && ev.cleaned ==> r
                == PackView::Done(Err(ev.zipped->0->Err_0@))
            &&& zipped && ev.checked is Some && ev.checked->0 is Err && ev.cleaned ==> r
                == PackView::Done(Err(ev.checked->0->Err_0@))
            &&& r is Done && open ==> ev.cleaned
        }),
        pack_next(false, ev) == PackView::Done(Err("未找到 DSH 数据目录"@)),
{
}

/// What is written while unpacking is counted, and stopped as soon as it is over 8 GiB. The count
/// never goes back.
pub proof fn law_written_bytes_are_counted(a: u64, b: u64)
    ensures
        a + b <= u64::MAX ==> plus(a, b) == a + b,
        a + b > u64::MAX ==> plus(a, b) == u64::MAX,
        write_fault(plus(a, b)) is None <==> a + b <= 8 * 1024 * 1024 * 1024,
        write_fault(a) is Some ==> write_fault(plus(a, b)) is Some,
        write_fault(a) is Some ==> write_fault(a) == Some(
            "解压实际总量超过 8GB 上限，已中止："@ + digits_of(a as nat) + " 字节"@,
        ),
{
}

} // verus!
