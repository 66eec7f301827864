//! What is done with plugins: installing, removing, updating, switching them on and off, and
//! looking for newer versions.

use crate::clock::{parse_rfc3339_utc_secs, utc_secs};
use crate::json::{field, get, text, text_field, text_of_field, Json, JsonTree};
use crate::patch::{
    disabled_ids, manage_disabled_blocks, managed, marker_of, needed_of, read_disabled_ids, rows_of,
};
use crate::patch_laws::{file_after, law_disabling_disables, off_ids, reads_back};
use crate::plugins::{
    any_off, bare_name, bare_pkg_name, bundles_of, dep_names, dep_views, deps_of, disables_any,
    doc_of, has_dep, installed_fault, is_registry_spec, json_opt, name_fault, pkg_opt,
    read_manifest, registry_spec, validate_installed_name, validate_plugin_name, Manifest, PkgInfo,
    PkgView,
};
use crate::text::{
    chars_of, copy_list, has_sub, holds, lines_of, list_has, opt_view, string_of, swap_char,
    swap_of, trim, trim_of, views,
};
use crate::text_laws::no_feeds;
use crate::version::{newer, ver_before};
use vstd::prelude::*;

verus! {

fn two(a: &str, b: &str) -> (r: Vec<String>)
    ensures
        views(r@) == seq![a@, b@],
{
    let mut v: Vec<String> = Vec::new();
    v.push(a.to_owned());
    v.push(b.to_owned());
    proof {
        assert(views(v@) =~= seq![a@, b@]);
    }
    v
}

fn three(a: &str, b: &str, c: &str) -> (r: Vec<String>)
    ensures
        views(r@) == seq![a@, b@, c@],
{
    let mut v: Vec<String> = Vec::new();
    v.push(a.to_owned());
    v.push(b.to_owned());
    v.push(c.to_owned());
    proof {
        assert(views(v@) =~= seq![a@, b@, c@]);
    }
    v
}

/// The arguments of Node for a plugin command of DSH on a profile. Without the program file of DSH
/// there is no command.
pub fn run_profile_cmd(bin: &Option<String>, profile: &str, args: &Vec<String>) -> (r: Result<
    Vec<String>,
    String,
>)
    ensures
        match bin {
            Some(b) => r matches Ok(v) && views(v@) == seq![
                b@,
                "plugin"@,
                "--profile"@,
                profile@,
            ] + views(args@),
            None => r matches Err(m) && m@ == "未找到 dsh CLI 入口文件"@,
        },
{
    match bin {
        None => Err("未找到 dsh CLI 入口文件".to_owned()),
        Some(b) => {
            let mut v = three(b.as_str(), "plugin", "--profile");
            let ghost base = v@;
            v.push(profile.to_owned());
            let ghost front = v@;
            proof {
                assert(views(front) =~= views(base).push(profile@));
                assert(views(front) =~= seq![b@, "plugin"@, "--profile"@, profile@]);
            }
            let mut rest = copy_list(args);
            let ghost more = rest@;
            v.append(&mut rest);
            proof {
                assert(views(v@) =~= views(front) + views(more));
            }
            Ok(v)
        },
    }
}

/// The names of the dependencies that a profile's document declares, where there is one.
pub open spec fn declared(manifest: Option<JsonTree>) -> Option<Seq<Seq<char>>> {
    match manifest {
        Some(t) => Some(dep_names(deps_of(t))),
        None => None,
    }
}

/// The names of the dependencies of a profile, where they are known.
pub open spec fn listed(m: Option<Manifest>) -> Option<Seq<Seq<char>>> {
    match m {
        Some(x) => Some(dep_names(dep_views(x.deps@))),
        None => None,
    }
}

/// What stands against installing the plugin `name` into a profile with the given dependencies.
pub open spec fn install_fault(name: Seq<char>, deps: Option<Seq<Seq<char>>>) -> Option<Seq<char>> {
    let n = trim_of(name);
    if name_fault(n) is Some {
        name_fault(n)
    } else if deps is Some && deps->0.contains(bare_name(n)) {
        Some("插件 "@ + bare_name(n) + " 已安装，如需升级请用「更新」"@)
    } else {
        None
    }
}

/// The command that installs the plugin `name` into the profile with the given dependencies.
pub fn install_into(name: &str, manifest: &Option<Manifest>) -> (r: Result<Vec<String>, String>)
    ensures
        match r {
            Ok(v) => install_fault(name@, listed(*manifest)) is None && views(v@) == seq![
                "add"@,
                trim_of(name@),
            ],
            Err(m) => install_fault(name@, listed(*manifest)) == Some(m@),
        },
{
    let n = trim(name);
    match validate_plugin_name(n) {
        Ok(_) => {},
        Err(m) => {
            return Err(m);
        },
    }
    match manifest {
        Some(m) => {
            let bare = bare_pkg_name(n);
            if has_dep(&m.deps, bare) {
                return Err(
                    "插件 ".to_owned().concat(bare).concat(" 已安装，如需升级请用「更新」"),
                );
            }
        },
        None => {},
    }
    Ok(two("add", n))
}

/// The command that installs the plugin `name`, where `content` is the text of the profile's
/// package file. What is installed already is not installed again.
pub fn plugin_install(name: &str, content: &Option<String>) -> (r: Result<Vec<String>, String>)
    ensures
        match r {
            Ok(v) => install_fault(name@, declared(doc_of(*content))) is None && views(v@) == seq![
                "add"@,
                trim_of(name@),
            ],
            Err(m) => install_fault(name@, declared(doc_of(*content))) == Some(m@),
        },
{
    install_into(name, &read_manifest(content))
}

/// The version of an installed package, empty where nothing is known of it.
pub fn known_version(p: &Option<PkgInfo>) -> (r: String)
    ensures
        r@ == (match pkg_opt(*p) {
            Some(x) => x.version,
            None => Seq::empty(),
        }),
{
    match p {
        Some(x) => x.version.clone(),
        None => String::new(),
    }
}

/// What stands against removing the plugin `name` from a profile with the given dependencies and
/// layers.
pub open spec fn removal_fault(
    name: Seq<char>,
    deps: Seq<Seq<char>>,
    bundles: Seq<Seq<char>>,
) -> Option<Seq<char>> {
    if deps.contains(name) {
        None
    } else if bundles.contains(name) {
        Some(name + " 是 DSH 内置组件，不能卸载"@)
    } else {
        Some("插件 "@ + name + " 不在已安装列表"@)
    }
}

/// What stands against removing the plugin `name` from the profile `profile`.
pub open spec fn remove_fault(
    name: Seq<char>,
    profile: Seq<char>,
    content: Option<String>,
) -> Option<Seq<char>> {
    let n = trim_of(name);
    if installed_fault(n) is Some {
        installed_fault(n)
    } else if content is None {
        Some(profile + " profile 尚未初始化"@)
    } else {
        match doc_of(content) {
            None => Some(profile + " profile 配置解析失败"@),
            Some(t) => removal_fault(n, dep_names(deps_of(t)), bundles_of(t)),
        }
    }
}

/// The command that removes the plugin `name` from a profile with the given plugins. A layer that
/// comes with DSH is not removed.
pub fn remove_from(name: &str, m: &Manifest) -> (r: Result<Vec<String>, String>)
    ensures
        match r {
            Ok(v) => removal_fault(name@, dep_names(dep_views(m.deps@)), views(m.bundles@)) is None
                && views(v@) == seq!["remove"@, name@],
            Err(e) => removal_fault(name@, dep_names(dep_views(m.deps@)), views(m.bundles@))
                == Some(e@),
        },
{
    if has_dep(&m.deps, name) {
        Ok(two("remove", name))
    } else if list_has(&m.bundles, name) {
        Err(name.to_owned().concat(" 是 DSH 内置组件，不能卸载"))
    } else {
        Err("插件 ".to_owned().concat(name).concat(" 不在已安装列表"))
    }
}

/// The command that removes the plugin `name` from the profile `profile`, where `content` is the
/// text of its package file.
pub fn plugin_remove(name: &str, profile: &str, content: &Option<String>) -> (r: Result<
    Vec<String>,
    String,
>)
    ensures
        match r {
            Ok(v) => remove_fault(name@, profile@, *content) is None && views(v@) == seq![
                "remove"@,
                trim_of(name@),
            ],
            Err(m) => remove_fault(name@, profile@, *content) == Some(m@),
        },
{
    let n = trim(name);
    match validate_installed_name(n) {
        Ok(_) => {},
        Err(m) => {
            return Err(m);
        },
    }
    if content.is_none() {
        return Err(profile.to_owned().concat(" profile 尚未初始化"));
    }
    match read_manifest(content) {
        None => Err(profile.to_owned().concat(" profile 配置解析失败")),
        Some(m) => remove_from(n, &m),
    }
}

/// What is told behind a removal, `cleaned` being what came of taking its blocks out of the patch
/// file.
pub fn removed(name: &str, cleaned: &Result<(), String>) -> (r: Result<String, String>)
    ensures
        match *cleaned {
            Ok(_) => r matches Ok(s) && s@ == "removed"@,
            Err(e) => r matches Err(m) && m@ == "插件 "@ + name@
                + " 已卸载，但清理禁用配置失败："@ + e@,
        },
{
    match cleaned {
        Ok(_) => Ok("removed".to_owned()),
        Err(e) => Err(
            "插件 ".to_owned().concat(name).concat(" 已卸载，但清理禁用配置失败：").concat(
                e.as_str(),
            ),
        ),
    }
}

/// Whether a message tells of a version that is not everywhere yet: it was published a short while
/// ago, and npm and pnpm, or the registry and its copies, do not know of it at the same time.
pub open spec fn fresh_error(msg: Seq<char>) -> bool {
    has_sub(msg, "ERR_PNPM_NO_MATCHING_VERSION"@) || has_sub(msg, "No matching version found"@)
        || has_sub(msg, "ERR_PNPM_FETCH_404"@) || has_sub(msg, "ETARGET"@) || has_sub(
        msg,
        "E404"@,
    ) || has_sub(msg, "404 Not Found"@)
}

/// Whether a message tells of a version that is not everywhere yet.
pub fn is_fresh_package_error(msg: &str) -> (r: bool)
    ensures
        r == fresh_error(msg@),
{
    holds(msg, "ERR_PNPM_NO_MATCHING_VERSION") || holds(msg, "No matching version found")
        || holds(msg, "ERR_PNPM_FETCH_404") || holds(msg, "ETARGET") || holds(msg, "E404") || holds(
        msg,
        "404 Not Found",
    )
}

/// What to do behind a try to update.
pub enum RetryStep {
    /// It is over.
    Done(Result<(), String>),
    /// Tell the first text, log the second, wait and try once more.
    Retry(String, String),
}

/// The values of a step.
pub enum RetryView {
    /// It is over.
    Done(Result<(), Seq<char>>),
    /// Try once more.
    Retry(Seq<char>, Seq<char>),
}

impl View for RetryStep {
    type V = RetryView;

    open spec fn view(&self) -> RetryView {
        match self {
            RetryStep::Done(Ok(_)) => RetryView::Done(Ok(())),
            RetryStep::Done(Err(m)) => RetryView::Done(Err(m@)),
            RetryStep::Retry(a, b) => RetryView::Retry(a@, b@),
        }
    }
}

/// How long to wait before the second try, in seconds.
pub const RETRY_SECONDS: u64 = 3;

/// What to do behind a try to update that came to `result`, `second` telling whether it was the
/// second one. Only a version that is not everywhere yet is worth a second try.
pub open spec fn retry_next(second: bool, result: Result<(), String>, label: Seq<char>) -> RetryView {
    match result {
        Ok(_) => RetryView::Done(Ok(())),
        Err(e) => if second {
            RetryView::Done(
                Err(
                    e@
                        + "\n\n该版本可能刚发布不久：registry 元数据或包文件尚未在你本地与 CDN 同步完成。建议等 5–30 分钟后重试；完整输出已写入 exe 旁 launcher.log"@,
                ),
            )
        } else if fresh_error(e@) {
            RetryView::Retry(
                "检测到新版本尚未同步完成（registry 元数据/包文件传播中），3 秒后重试一次…"@,
                label + " 首次失败，疑似发布同步延迟，重试一次："@ + swap_of(e@, '\n', ' '),
            )
        } else {
            RetryView::Done(Err(e@))
        },
    }
}

/// What to do behind a try to update.
pub fn run_plugin_update_with_retry(second: bool, result: &Result<(), String>, label: &str) -> (r:
    RetryStep)
    ensures
        r@ == retry_next(second, *result, label@),
{
    match result {
        Ok(_) => RetryStep::Done(Ok(())),
        Err(e) => if second {
            RetryStep::Done(
                Err(
                    e.clone().concat(
                        "\n\n该版本可能刚发布不久：registry 元数据或包文件尚未在你本地与 CDN 同步完成。建议等 5–30 分钟后重试；完整输出已写入 exe 旁 launcher.log",
                    ),
                ),
            )
        } else if is_fresh_package_error(e.as_str()) {
            RetryStep::Retry(
                "检测到新版本尚未同步完成（registry 元数据/包文件传播中），3 秒后重试一次…".to_owned(),
                label.to_owned().concat(" 首次失败，疑似发布同步延迟，重试一次：").concat(
                    swap_char(e.as_str(), '\n', ' ').as_str(),
                ),
            )
        } else {
            RetryStep::Done(Err(e.clone()))
        },
    }
}

/// There are two tries at most.
pub proof fn law_one_retry_at_most(result: Result<(), String>, label: Seq<char>)
    ensures
        retry_next(true, result, label) is Done,
        retry_next(false, result, label) is Retry ==> result is Err,
{
}

/// An update of plugins.
pub struct UpdatePlan {
    /// The command.
    pub args: Vec<String>,
    /// What it is called in the log.
    pub label: String,
    /// What is answered when it is done.
    pub answer: String,
}

/// What stands against updating the plugin `name`.
pub open spec fn update_fault(
    all: bool,
    name: Option<String>,
    deps: Option<Seq<Seq<char>>>,
) -> Option<Seq<char>> {
    if all {
        None
    } else {
        match name {
            None => Some("缺少插件名"@),
            Some(n) => if installed_fault(n@) is Some {
                installed_fault(n@)
            } else if deps is Some && !deps->0.contains(trim_of(n@)) {
                Some(trim_of(n@) + " 不在已安装插件列表（内置组件随 DSH 本体更新）"@)
            } else {
                None
            },
        }
    }
}

/// Whether a plan updates all plugins, or the plugin `name`.
pub open spec fn plans(p: UpdatePlan, all: bool, name: Option<String>) -> bool {
    if all {
        views(p.args@) == seq!["update"@, "--latest"@] && p.label@ == "全部插件更新"@ && p.answer@
            == "all"@
    } else {
        let n = trim_of(name->0@);
        views(p.args@) == seq!["update"@, "--latest"@, n] && p.label@ == "插件 "@ + n + " 更新"@
            && p.answer@ == n
    }
}

/// The update of all plugins, or of the plugin `name`, where `content` is the text of the profile's
/// package file.
pub fn plugin_update(all: bool, name: &Option<String>, content: &Option<String>) -> (r: Result<
    UpdatePlan,
    String,
>)
    ensures
        match r {
            Err(m) => update_fault(all, *name, declared(doc_of(*content))) == Some(m@),
            Ok(p) => update_fault(all, *name, declared(doc_of(*content))) is None && plans(
                p,
                all,
                *name,
            ),
        },
{
    update_in(all, name, &read_manifest(content))
}

/// The update of all plugins, or of the plugin `name`, in a profile with the given plugins.
pub fn update_in(all: bool, name: &Option<String>, manifest: &Option<Manifest>) -> (r: Result<
    UpdatePlan,
    String,
>)
    ensures
        match r {
            Err(m) => update_fault(all, *name, listed(*manifest)) == Some(m@),
            Ok(p) => update_fault(all, *name, listed(*manifest)) is None && plans(p, all, *name),
        },
{
    if all {
        return Ok(
            UpdatePlan {
                args: two("update", "--latest"),
                label: "全部插件更新".to_owned(),
                answer: "all".to_owned(),
            },
        );
    }
    let given = match name {
        None => {
            return Err("缺少插件名".to_owned());
        },
        Some(n) => n,
    };
    match validate_installed_name(given.as_str()) {
        Ok(_) => {},
        Err(m) => {
            return Err(m);
        },
    }
    let n = trim(given.as_str());
    match manifest {
        Some(m) => if !has_dep(&m.deps, n) {
            return Err(n.to_owned().concat(" 不在已安装插件列表（内置组件随 DSH 本体更新）"));
        },
        None => {},
    }
    Ok(
        UpdatePlan {
            args: three("update", "--latest", n),
            label: "插件 ".to_owned().concat(n).concat(" 更新"),
            answer: n.to_owned(),
        },
    )
}

/// What is known of a newer version of a plugin.
pub struct PluginUpdateInfo {
    /// Its name.
    pub name: String,
    /// The installed version.
    pub installed: String,
    /// The newest version, empty where it was not asked for or not found.
    pub latest: String,
    /// Why it was not found.
    pub error: Option<String>,
    /// When the newest version was published.
    pub published_at: Option<String>,
    /// How many minutes ago that was.
    pub age_minutes: Option<i64>,
}

/// The values of it.
pub struct UpdateView {
    /// Its name.
    pub name: Seq<char>,
    /// The installed version.
    pub installed: Seq<char>,
    /// The newest version.
    pub latest: Seq<char>,
    /// Why it was not found.
    pub error: Option<Seq<char>>,
    /// When the newest version was published.
    pub published_at: Option<Seq<char>>,
    /// How many minutes ago that was.
    pub age_minutes: Option<i64>,
}

impl View for PluginUpdateInfo {
    type V = UpdateView;

    open spec fn view(&self) -> UpdateView {
        UpdateView {
            name: self.name@,
            installed: self.installed@,
            latest: self.latest@,
            error: opt_view(self.error),
            published_at: opt_view(self.published_at),
            age_minutes: self.age_minutes,
        }
    }
}

/// A plugin whose newest version is not asked for.
pub open spec fn bare_update(name: Seq<char>, installed: Seq<char>) -> UpdateView {
    UpdateView {
        name,
        installed,
        latest: Seq::empty(),
        error: None,
        published_at: None,
        age_minutes: None,
    }
}

/// A plugin whose newest version was not found.
pub open spec fn failed_update(name: Seq<char>, installed: Seq<char>, err: Seq<char>) -> UpdateView {
    UpdateView { error: Some(err), ..bare_update(name, installed) }
}

impl PluginUpdateInfo {
    /// A plugin whose newest version is not asked for.
    pub fn bare(name: &str, installed: &str) -> (r: PluginUpdateInfo)
        ensures
            r@ == bare_update(name@, installed@),
    {
        PluginUpdateInfo {
            name: name.to_owned(),
            installed: installed.to_owned(),
            latest: String::new(),
            error: None,
            published_at: None,
            age_minutes: None,
        }
    }

    /// A plugin whose newest version was not found.
    pub fn with_error(name: &str, installed: &str, err: &str) -> (r: PluginUpdateInfo)
        ensures
            r@ == failed_update(name@, installed@, err@),
    {
        PluginUpdateInfo {
            name: name.to_owned(),
            installed: installed.to_owned(),
            latest: String::new(),
            error: Some(err.to_owned()),
            published_at: None,
            age_minutes: None,
        }
    }
}

/// What is to be found out about a dependency.
pub enum Slot {
    /// Nothing: this is the result.
    Ready(PluginUpdateInfo),
    /// The newest version of the plugin, of which the second version is installed.
    Ask(String, String),
}

/// The values of it.
pub enum SlotView {
    /// Nothing.
    Ready(UpdateView),
    /// The newest version.
    Ask(Seq<char>, Seq<char>),
}

impl View for Slot {
    type V = SlotView;

    open spec fn view(&self) -> SlotView {
        match self {
            Slot::Ready(i) => SlotView::Ready(i@),
            Slot::Ask(a, b) => SlotView::Ask(a@, b@),
        }
    }
}

/// The values of a list of slots.
pub open spec fn slot_views(v: Seq<Slot>) -> Seq<SlotView> {
    Seq::new(v.len(), |i: int| v[i]@)
}

/// What is to be found out about a dependency of which the version `installed` is there.
pub open spec fn slot_for(dep: (Seq<char>, Seq<char>), installed: Seq<char>) -> SlotView {
    if installed_fault(dep.0) is Some {
        SlotView::Ready(failed_update(dep.0, Seq::empty(), "清单中的插件名无效，已跳过检查"@))
    } else if installed.len() == 0 {
        SlotView::Ready(failed_update(dep.0, Seq::empty(), "未找到已安装的 package.json"@))
    } else if !registry_spec(dep.1) {
        SlotView::Ready(bare_update(dep.0, installed))
    } else {
        SlotView::Ask(dep.0, installed)
    }
}

/// What is to be done about each dependency.
pub open spec fn slots_for(
    deps: Seq<(Seq<char>, Seq<char>)>,
    versions: Seq<Seq<char>>,
) -> Seq<SlotView> {
    Seq::new(deps.len(), |i: int| slot_for(deps[i], versions[i]))
}

/// How many plugins are asked for at the same time.
pub const NPM_VIEW_CONCURRENCY: usize = 4;

fn slot(dep: &(String, String), installed: &str) -> (r: Slot)
    ensures
        r@ == slot_for((dep.0@, dep.1@), installed@),
{
    let name = dep.0.as_str();
    proof {
        reveal_strlit("");
        assert(""@ =~= Seq::<char>::empty());
    }
    if validate_installed_name(name).is_err() {
        return Slot::Ready(
            PluginUpdateInfo::with_error(name, "", "清单中的插件名无效，已跳过检查"),
        );
    }
    if installed.is_empty() {
        return Slot::Ready(PluginUpdateInfo::with_error(name, "", "未找到已安装的 package.json"));
    }
    if !is_registry_spec(dep.1.as_str()) {
        return Slot::Ready(PluginUpdateInfo::bare(name, installed));
    }
    Slot::Ask(name.to_owned(), installed.to_owned())
}

/// The document of a profile whose plugins are to be checked, or why they cannot be.
pub fn manifest_to_check(profile: &str, content: &Option<String>) -> (r: Result<Manifest, String>)
    ensures
        match r {
            Ok(m) => doc_of(*content) is Some && dep_views(m.deps@) == deps_of(
                doc_of(*content)->0,
            ) && views(m.bundles@) == bundles_of(doc_of(*content)->0),
            Err(e) => if *content is None {
                e@ == profile@ + " profile 尚未初始化"@
            } else {
                doc_of(*content) is None && e@ == profile@ + " profile 配置解析失败"@
            },
        },
{
    if content.is_none() {
        return Err(profile.to_owned().concat(" profile 尚未初始化"));
    }
    match read_manifest(content) {
        Some(m) => Ok(m),
        None => Err(profile.to_owned().concat(" profile 配置解析失败")),
    }
}

/// What is to be found out about each dependency, `versions` being what is installed.
pub fn plugin_check_updates(deps: &Vec<(String, String)>, versions: &Vec<String>) -> (r: Vec<Slot>)
    requires
        versions@.len() == deps@.len(),
    ensures
        slot_views(r@) == slots_for(dep_views(deps@), views(versions@)),
{
    let ghost all = slots_for(dep_views(deps@), views(versions@));
    let mut out: Vec<Slot> = Vec::new();
    let mut i: usize = 0;
    while i < deps.len()
        invariant
            i <= deps@.len(),
            versions@.len() == deps@.len(),
            all == slots_for(dep_views(deps@), views(versions@)),
            slot_views(out@) == all.take(i as int),
        decreases deps@.len() - i,
    {
        let ghost before = out@;
        out.push(slot(&deps[i], versions[i].as_str()));
        proof {
            assert(slot_views(out@) =~= slot_views(before).push(out@.last()@));
            assert(views(versions@)[i as int] == versions@[i as int]@);
            assert(out@.last()@ == all[i as int]);
            assert(all.take(i + 1) =~= all.take(i as int).push(all[i as int]));
        }
        i += 1;
    }
    proof {
        assert(all.take(all.len() as int) =~= all);
    }
    out
}

/// Whether the time of the latest version is asked for: only where it is newer.
pub open spec fn wants_time(latest: Result<String, String>, installed: Seq<char>) -> bool {
    match latest {
        Ok(v) => ver_before(installed, v@),
        Err(_) => false,
    }
}

/// Whether the publish time of the newest version is worth asking for: only where it is newer than
/// the installed one.
pub fn wants_publish_time(latest: &Result<String, String>, installed: &str) -> (r: bool)
    ensures
        r == wants_time(*latest, installed@),
{
    match latest {
        Ok(v) => newer(v.as_str(), installed),
        Err(_) => false,
    }
}

/// `n / d`, rounded towards zero.
pub open spec fn quotient(n: int, d: int) -> int {
    if n >= 0 {
        n / d
    } else {
        -((-n) / d)
    }
}

/// How many minutes before `now` a time lies that a registry wrote.
pub open spec fn age_of(published: Seq<char>, now: int) -> Option<int> {
    match utc_secs(published) {
        Some(s) => Some(quotient(now - s, 60)),
        None => None,
    }
}

/// What is known of a newer version of the plugin `name`.
pub open spec fn update_of(
    name: Seq<char>,
    installed: Seq<char>,
    latest: Result<String, String>,
    published: Option<Seq<char>>,
    now: int,
) -> UpdateView {
    match latest {
        Err(e) => failed_update(name, installed, e@),
        Ok(v) => {
            let p = if ver_before(installed, v@) {
                published
            } else {
                None
            };
            UpdateView {
                name,
                installed,
                latest: v@,
                error: None,
                published_at: p,
                age_minutes: match p {
                    Some(t) => match age_of(t, now) {
                        Some(a) => Some(a as i64),
                        None => None,
                    },
                    None => None,
                },
            }
        },
    }
}

proof fn lemma_secs_bounded(s: Seq<char>)
    ensures
        utc_secs(s) is Some ==> -70_000_000_000 <= utc_secs(s)->0 <= 300_000_000_000,
{
    if utc_secs(s) is Some {
        crate::clock::lemma_secs_bounds(s);
    }
}

fn minutes_between(from: i64, to: i64) -> (r: i64)
    requires
        i64::MIN < to - from <= i64::MAX,
    ensures
        r == quotient(to - from, 60),
{
    let d: i64 = to - from;
    if d >= 0 {
        d / 60
    } else {
        -((-d) / 60)
    }
}

/// What is known of a newer version of the plugin `name`, at the time `now` in seconds.
pub fn update_info(
    name: &str,
    installed: &str,
    latest: &Result<String, String>,
    published: &Option<String>,
    now: i64,
) -> (r: PluginUpdateInfo)
    requires
        i64::MIN + 300_000_000_000 < now <= i64::MAX - 70_000_000_000,
    ensures
        r@ == update_of(name@, installed@, *latest, opt_view(*published), now as int),
{
    match latest {
        Err(e) => PluginUpdateInfo::with_error(name, installed, e.as_str()),
        Ok(v) => {
            let mut published_at: Option<String> = None;
            let mut age_minutes: Option<i64> = None;
            if newer(v.as_str(), installed) {
                match published {
                    Some(t) => {
                        proof {
                            lemma_secs_bounded(t@);
                        }
                        match parse_rfc3339_utc_secs(t.as_str()) {
                            Some(secs) => {
                                age_minutes = Some(minutes_between(secs, now));
                            },
                            None => {},
                        }
                        published_at = Some(t.clone());
                    },
                    None => {},
                }
            }
            PluginUpdateInfo {
                name: name.to_owned(),
                installed: installed.to_owned(),
                latest: v.clone(),
                error: None,
                published_at,
                age_minutes,
            }
        },
    }
}

/// The result for a slot: its own, or the answer, or that there was none.
pub open spec fn filled(s: SlotView, answer: Option<UpdateView>) -> UpdateView {
    match s {
        SlotView::Ready(i) => i,
        SlotView::Ask(_, _) => match answer {
            Some(a) => a,
            None => failed_update(Seq::empty(), Seq::empty(), "检查线程异常"@),
        },
    }
}

/// The values of an answer that may be missing.
pub open spec fn update_opt(o: Option<PluginUpdateInfo>) -> Option<UpdateView> {
    match o {
        Some(i) => Some(i@),
        None => None,
    }
}

fn copy_info(i: &PluginUpdateInfo) -> (r: PluginUpdateInfo)
    ensures
        r@ == i@,
{
    PluginUpdateInfo {
        name: i.name.clone(),
        installed: i.installed.clone(),
        latest: i.latest.clone(),
        error: match &i.error {
            Some(e) => Some(e.clone()),
            None => None,
        },
        published_at: match &i.published_at {
            Some(e) => Some(e.clone()),
            None => None,
        },
        age_minutes: i.age_minutes,
    }
}

/// The results, one for each slot and in their order, `answers` being what was found out.
pub fn fill_slots(slots: &Vec<Slot>, answers: &Vec<Option<PluginUpdateInfo>>) -> (r: Vec<
    PluginUpdateInfo,
>)
    requires
        answers@.len() == slots@.len(),
    ensures
        r@.len() == slots@.len(),
        forall|i: int|
            0 <= i < slots@.len() ==> (#[trigger] r@[i])@ == filled(
                slots@[i]@,
                update_opt(answers@[i]),
            ),
{
    let mut out: Vec<PluginUpdateInfo> = Vec::new();
    let mut i: usize = 0;
    while i < slots.len()
        invariant
            i <= slots@.len(),
            answers@.len() == slots@.len(),
            out@.len() == i,
            forall|k: int|
                0 <= k < i ==> (#[trigger] out@[k])@ == filled(
                    slots@[k]@,
                    update_opt(answers@[k]),
                ),
        decreases slots@.len() - i,
    {
        let x = match &slots[i] {
            Slot::Ready(info) => copy_info(info),
            Slot::Ask(_, _) => match &answers[i] {
                Some(a) => copy_info(a),
                None => {
                    let e = PluginUpdateInfo::with_error("", "", "检查线程异常");
                    proof {
                        reveal_strlit("");
                        assert(""@ =~= Seq::<char>::empty());
                    }
                    e
                },
            },
        };
        out.push(x);
        i += 1;
    }
    out
}

/// A plugin that was switched on or off.
pub struct Toggled {
    /// The new text of the profile's patch file.
    pub text: String,
    /// What is answered.
    pub answer: String,
}

/// What stands against switching the plugin `name` on or off, `patch` being the text of the
/// profile's patch file.
pub open spec fn toggle_fault(
    name: Seq<char>,
    enable: bool,
    known: Option<PkgView>,
    patch: Seq<char>,
) -> Option<Seq<char>> {
    let n = trim_of(name);
    if installed_fault(n) is Some {
        installed_fault(n)
    } else {
        match known {
            None => Some("插件 "@ + n + " 未安装"@),
            Some(p) => if !p.is_bundle {
                Some(n + " 不是 profile 层插件（普通依赖库），不支持启用/禁用"@)
            } else if p.entry_ids.len() == 0 {
                Some(n + " 的 bundle 未声明可管理的入口（insert id），无法启用/禁用"@)
            } else if managed(patch, n, p.entry_ids, enable) is Some {
                None
            } else if !enable {
                Some(n + " 已处于禁用状态"@)
            } else if any_off(p.entry_ids, disabled_ids(rows_of(lines_of(patch)))) {
                Some(
                    n
                        + " 的禁用项来自用户配置，未自动修改；请手工移除对应 disabled 条目"@,
                )
            } else {
                Some(n + " 未处于禁用状态"@)
            },
        }
    }
}

/// Switches the plugin `name` on or off in the profile's patch file, whose text is `patch`. What
/// the user wrote there stays.
pub fn plugin_toggle(name: &str, enable: bool, known: &Option<PkgInfo>, patch: &str) -> (r: Result<
    Toggled,
    String,
>)
    ensures
        match r {
            Err(m) => toggle_fault(name@, enable, pkg_opt(*known), patch@) == Some(m@),
            Ok(t) => {
                &&& toggle_fault(name@, enable, pkg_opt(*known), patch@) is None
                &&& managed(patch@, trim_of(name@), views(known->0.entry_ids@), enable) == Some(
                    t.text@,
                )
                &&& t.answer@ == if enable {
                    "enabled"@
                } else {
                    "disabled"@
                }
            },
        },
{
    let n = trim(name);
    match validate_installed_name(n) {
        Ok(_) => {},
        Err(m) => {
            return Err(m);
        },
    }
    let p = match known {
        None => {
            return Err("插件 ".to_owned().concat(n).concat(" 未安装"));
        },
        Some(p) => p,
    };
    if !p.is_bundle {
        return Err(
            n.to_owned().concat(" 不是 profile 层插件（普通依赖库），不支持启用/禁用"),
        );
    }
    if p.entry_ids.len() == 0 {
        return Err(
            n.to_owned().concat(" 的 bundle 未声明可管理的入口（insert id），无法启用/禁用"),
        );
    }
    match manage_disabled_blocks(patch, n, &p.entry_ids, enable) {
        Some(text) => Ok(
            Toggled {
                text,
                answer: (if enable {
                    "enabled"
                } else {
                    "disabled"
                }).to_owned(),
            },
        ),
        None => {
            if !enable {
                return Err(n.to_owned().concat(" 已处于禁用状态"));
            }
            let off = read_disabled_ids(patch);
            if disables_any(&p.entry_ids, &off) {
                return Err(
                    n.to_owned().concat(
                        " 的禁用项来自用户配置，未自动修改；请手工移除对应 disabled 条目",
                    ),
                );
            }
            Err(n.to_owned().concat(" 未处于禁用状态"))
        },
    }
}

/// All that is shown of a plugin.
pub struct PluginDetail {
    /// Its name.
    pub name: String,
    /// The installed version.
    pub version: String,
    /// The spec of the dependency.
    pub spec_text: String,
    /// Its description.
    pub description: String,
    /// Its license.
    pub license: String,
    /// Its home page.
    pub homepage: String,
    /// Its repository.
    pub repository: String,
    /// Whether it is a layer of the profile.
    pub is_bundle: bool,
    /// The ids that its patch inserts.
    pub entry_ids: Vec<String>,
    /// The start of its read-me file.
    pub readme: String,
}

/// The values of it.
pub struct DetailView {
    /// Its name.
    pub name: Seq<char>,
    /// The installed version.
    pub version: Seq<char>,
    /// The spec of the dependency.
    pub spec_text: Seq<char>,
    /// Its description.
    pub description: Seq<char>,
    /// Its license.
    pub license: Seq<char>,
    /// Its home page.
    pub homepage: Seq<char>,
    /// Its repository.
    pub repository: Seq<char>,
    /// Whether it is a layer of the profile.
    pub is_bundle: bool,
    /// The ids that its patch inserts.
    pub entry_ids: Seq<Seq<char>>,
    /// The start of its read-me file.
    pub readme: Seq<char>,
}

impl View for PluginDetail {
    type V = DetailView;

    open spec fn view(&self) -> DetailView {
        DetailView {
            name: self.name@,
            version: self.version@,
            spec_text: self.spec_text@,
            description: self.description@,
            license: self.license@,
            homepage: self.homepage@,
            repository: self.repository@,
            is_bundle: self.is_bundle,
            entry_ids: views(self.entry_ids@),
            readme: self.readme@,
        }
    }
}

/// How many characters of a read-me file are shown.
pub const README_CHARS: usize = 2000;

/// The start of a read-me file, with a mark where it goes on.
pub open spec fn readme_start(s: Seq<char>) -> Seq<char> {
    if s.len() > README_CHARS {
        s.take(README_CHARS as int).push('…')
    } else {
        s
    }
}

/// The repository that a package's document names: a text, or an object with a `url`.
pub open spec fn repository_of(t: JsonTree) -> Seq<char> {
    match field(t, "repository"@) {
        Some(JsonTree::Text(s)) => s,
        Some(r) => text_field(r, "url"@),
        None => Seq::empty(),
    }
}

/// The spec that a profile's document gives for the plugin `name`.
pub open spec fn spec_of(manifest: Option<JsonTree>, name: Seq<char>) -> Seq<char> {
    match manifest {
        Some(t) => match field(t, "dependencies"@) {
            Some(d) => text_field(d, name),
            None => Seq::empty(),
        },
        None => Seq::empty(),
    }
}

/// All that is shown of a plugin.
pub open spec fn detail_of(
    name: Seq<char>,
    t: JsonTree,
    manifest: Option<JsonTree>,
    known: Option<PkgView>,
    readme: Option<Seq<char>>,
) -> DetailView {
    DetailView {
        name,
        version: text_field(t, "version"@),
        spec_text: spec_of(manifest, name),
        description: text_field(t, "description"@),
        license: text_field(t, "license"@),
        homepage: text_field(t, "homepage"@),
        repository: repository_of(t),
        is_bundle: match known {
            Some(p) => p.is_bundle,
            None => false,
        },
        entry_ids: match known {
            Some(p) => p.entry_ids,
            None => Seq::empty(),
        },
        readme: match readme {
            Some(s) => readme_start(s),
            None => Seq::empty(),
        },
    }
}

/// The start of a read-me file, with a mark where it goes on.
pub fn readme_excerpt(s: &str) -> (r: String)
    ensures
        r@ == readme_start(s@),
{
    let cs = chars_of(s);
    if cs.len() > README_CHARS {
        let mut out = string_of(&cs[0..README_CHARS]);
        proof {
            assert(out@ =~= s@.take(README_CHARS as int));
        }
        out.push('…');
        out
    } else {
        s.to_owned()
    }
}

/// All that is shown of the plugin `name`, from the documents of its package and of the profile.
pub fn detail_in(
    name: &str,
    package: &Json,
    manifest: &Option<Json>,
    known: &Option<PkgInfo>,
    readme: &Option<String>,
) -> (r: PluginDetail)
    ensures
        r@ == detail_of(name@, package@, json_opt(*manifest), pkg_opt(*known), opt_view(*readme)),
{
    let repository = match get(package, "repository") {
        Some(x) => match text(Some(x)) {
            Some(s) => s.to_owned(),
            None => text_of_field(x, "url"),
        },
        None => String::new(),
    };
    let spec_text = match manifest {
        Some(m) => match get(m, "dependencies") {
            Some(d) => text_of_field(d, name),
            None => String::new(),
        },
        None => String::new(),
    };
    let none: Vec<String> = Vec::new();
    proof {
        assert(views(none@) =~= Seq::empty());
    }
    let (is_bundle, entry_ids) = match known {
        Some(p) => (p.is_bundle, copy_list(&p.entry_ids)),
        None => (false, none),
    };
    PluginDetail {
        name: name.to_owned(),
        version: text_of_field(package, "version"),
        spec_text,
        description: text_of_field(package, "description"),
        license: text_of_field(package, "license"),
        homepage: text_of_field(package, "homepage"),
        repository,
        is_bundle,
        entry_ids,
        readme: match readme {
            Some(s) => readme_excerpt(s.as_str()),
            None => String::new(),
        },
    }
}

/// All that is shown of the plugin `name`, from the texts of its package file, of the profile's
/// package file and of its read-me file.
pub fn plugin_detail(
    name: &str,
    content: &Option<String>,
    profile_content: &Option<String>,
    known: &Option<PkgInfo>,
    readme: &Option<String>,
) -> (r: Result<PluginDetail, String>)
    ensures
        match r {
            Ok(d) => installed_fault(trim_of(name@)) is None && doc_of(*content) is Some && d@
                == detail_of(
                trim_of(name@),
                doc_of(*content)->0,
                doc_of(*profile_content),
                pkg_opt(*known),
                opt_view(*readme),
            ),
            Err(m) => if installed_fault(trim_of(name@)) is Some {
                installed_fault(trim_of(name@)) == Some(m@)
            } else if *content is None {
                m@ == "插件 "@ + trim_of(name@) + " 未安装"@
            } else {
                doc_of(*content) is None && m@ == "插件配置解析失败"@
            },
        },
{
    let n = trim(name);
    match validate_installed_name(n) {
        Ok(_) => {},
        Err(m) => {
            return Err(m);
        },
    }
    if content.is_none() {
        return Err("插件 ".to_owned().concat(n).concat(" 未安装"));
    }
    match crate::plugins::doc(content) {
        Some(j) => Ok(detail_in(n, &j, &crate::plugins::doc(profile_content), known, readme)),
        None => Err("插件配置解析失败".to_owned()),
    }
}

/// A plugin that was switched off is listed as disabled, unless the launcher had to write lines for
/// its ids that are read as something else.
pub proof fn law_disabled_plugin_is_listed_so(
    patch: Seq<char>,
    name: Seq<char>,
    ids: Seq<Seq<char>>,
    id: Seq<char>,
)
    requires
        !name.contains('\n'),
        no_feeds(ids),
        ids.contains(id),
        reads_back(id) || !needed_of(lines_of(patch), marker_of(name), ids).contains(id),
    ensures
        any_off(ids, off_ids(file_after(patch, name, ids, false))),
{
    law_disabling_disables(patch, name, ids, id);
}

} // verus!
