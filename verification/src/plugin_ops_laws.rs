//! What holds of the work on plugins: what is refused and why, when a failure is tried again, and
//! what an update and a plugin are told with.

use crate::clock::utc_secs;
use crate::json::{field, text_field, JsonTree};
use crate::patch::{disabled_ids, managed, rows_of};
use crate::plugin_ops::{
    age_of, declared, detail_of, filled, fresh_error, install_fault, plans, quotient, readme_start,
    remove_fault, retry_next, slot_for, slots_for, toggle_fault, update_fault, update_of,
    wants_time, RetryView, SlotView, UpdatePlan, UpdateView,
};
use crate::plugins::{
    bare_name, bundles_of, dep_names, deps_of, doc_of, installed_fault, name_fault, registry_spec,
    PkgView,
};
use crate::text::{has_sub, lines_of, swap_of, trim_of, views};
use crate::version::ver_before;
use vstd::prelude::*;

verus! {

/// A plugin is installed where its name is taken and, its version left out, none of the
/// dependencies has it; a name that is not taken and a plugin that is there are each refused for
/// that reason.
pub proof fn law_what_may_be_installed(name: Seq<char>, deps: Option<Seq<Seq<char>>>)
    ensures
        ({
            let n = trim_of(name);
            let there = deps is Some && deps->0.contains(bare_name(n));
            &&& install_fault(name, deps) is None <==> name_fault(n) is None && !there
            &&& name_fault(n) is Some ==> install_fault(name, deps) == name_fault(n)
            &&& name_fault(n) is None && there ==> install_fault(name, deps) == Some(
                "插件 "@ + bare_name(n) + " 已安装，如需升级请用「更新」"@,
            )
        }),
{
}

/// A plugin is removed if and only if it is a dependency of a profile that can be read and its name
/// is taken. A part of DSH is told to be one; any other is told to be missing.
pub proof fn law_what_may_be_removed(name: Seq<char>, profile: Seq<char>, content: Option<String>)
    ensures
        ({
            let n = trim_of(name);
            let r = remove_fault(name, profile, content);
            let doc = doc_of(content);
            let deps = dep_names(deps_of(doc->0));
            let bundles = bundles_of(doc->0);
            &&& r is None <==> installed_fault(n) is None && doc is Some && deps.contains(n)
            &&& installed_fault(n) is Some ==> r == installed_fault(n)
            &&& installed_fault(n) is None && content is None ==> r == Some(
                profile + " profile 尚未初始化"@,
            )
            &&& installed_fault(n) is None && content is Some && doc is None ==> r == Some(
                profile + " profile 配置解析失败"@,
            )
            &&& installed_fault(n) is None && doc is Some && !deps.contains(n) && bundles.contains(n)
                ==> r == Some(n + " 是 DSH 内置组件，不能卸载"@)
            &&& installed_fault(n) is None && doc is Some && !deps.contains(n) && !bundles.contains(n)
                ==> r == Some("插件 "@ + n + " 不在已安装列表"@)
        }),
{
}

/// What is said of a package that the registry does not have yet.
pub open spec fn fresh_signs() -> Seq<Seq<char>> {
    seq![
        "ERR_PNPM_NO_MATCHING_VERSION"@,
        "No matching version found"@,
        "ERR_PNPM_FETCH_404"@,
        "ETARGET"@,
        "E404"@,
        "404 Not Found"@,
    ]
}

/// A failure looks like that of a package that was just published if and only if one of the signs
/// stands in its message.
pub proof fn law_fresh_packages_are_known_by_their_signs(msg: Seq<char>)
    ensures
        fresh_error(msg) <==> exists|i: int|
            0 <= i < fresh_signs().len() && has_sub(msg, #[trigger] fresh_signs()[i]),
{
    let v = fresh_signs();
    assert(v[0] == "ERR_PNPM_NO_MATCHING_VERSION"@ && v[1] == "No matching version found"@ && v[2]
        == "ERR_PNPM_FETCH_404"@ && v[3] == "ETARGET"@ && v[4] == "E404"@ && v[5]
        == "404 Not Found"@);
}

/// An update is tried again if and only if its first try failed in the way of a package that was
/// just published. Success ends it, and so does every other failure, with its own message; the
/// second failure adds a hint behind its message.
pub proof fn law_when_an_update_is_tried_again(
    second: bool,
    result: Result<(), String>,
    label: Seq<char>,
)
    ensures
        ({
            let r = retry_next(second, result, label);
            &&& r is Retry <==> !second && result is Err && fresh_error(result->Err_0@)
            &&& r is Retry ==> r->Retry_1 == label + " 首次失败，疑似发布同步延迟，重试一次："@ + swap_of(
                result->Err_0@,
                '\n',
                ' ',
            )
            &&& result is Ok ==> r == RetryView::Done(Ok(()))
            &&& !second && result is Err && !fresh_error(result->Err_0@) ==> r == RetryView::Done(
                Err(result->Err_0@),
            )
            &&& second && result is Err ==> r is Done && r->Done_0 is Err
                && result->Err_0@.len() < r->Done_0->Err_0.len() && r->Done_0->Err_0.take(
                result->Err_0@.len() as int,
            ) == result->Err_0@
        }),
{
    if second && result is Err {
        let hint = "\n\n该版本可能刚发布不久：registry 元数据或包文件尚未在你本地与 CDN 同步完成。建议等 5–30 分钟后重试；完整输出已写入 exe 旁 launcher.log"@;
        reveal_strlit(
            "\n\n该版本可能刚发布不久：registry 元数据或包文件尚未在你本地与 CDN 同步完成。建议等 5–30 分钟后重试；完整输出已写入 exe 旁 launcher.log",
        );
        assert((result->Err_0@ + hint).take(result->Err_0@.len() as int) =~= result->Err_0@);
    }
}

/// All plugins are updated without a further question. One plugin is updated where its name is taken
/// and, as far as the manifest can be read, it is a dependency.
pub proof fn law_what_may_be_updated(
    all: bool,
    name: Option<String>,
    deps: Option<Seq<Seq<char>>>,
)
    ensures
        ({
            let r = update_fault(all, name, deps);
            let n = trim_of(name->0@);
            let missing = deps is Some && !deps->0.contains(n);
            &&& all ==> r is None
            &&& !all && name is None ==> r == Some("缺少插件名"@)
            &&& !all && name is Some ==> {
                &&& r is None <==> installed_fault(name->0@) is None && !missing
                &&& installed_fault(name->0@) is Some ==> r == installed_fault(name->0@)
                &&& installed_fault(name->0@) is None && missing ==> r == Some(
                    n + " 不在已安装插件列表（内置组件随 DSH 本体更新）"@,
                )
            }
        }),
{
}

/// An update asks for the latest versions: of all plugins, or of the one that was named.
pub proof fn law_updates_ask_for_the_latest(p: UpdatePlan, all: bool, name: Option<String>)
    requires
        plans(p, all, name),
        !all ==> name is Some,
    ensures
        views(p.args@).len() == if all {
            2nat
        } else {
            3nat
        },
        views(p.args@)[0] == "update"@,
        views(p.args@)[1] == "--latest"@,
        !all ==> views(p.args@)[2] == trim_of(name->0@) && p.answer@ == trim_of(name->0@),
        all ==> p.answer@ == "all"@,
{
}

/// The registry is asked about a plugin if and only if its name is taken, it is installed and it
/// comes from the registry, with the version that is installed. Any other is answered at once: with
/// a reason where it cannot be checked, and with its version where it comes from elsewhere.
pub proof fn law_whom_the_registry_is_asked_about(
    dep: (Seq<char>, Seq<char>),
    installed: Seq<char>,
)
    ensures
        ({
            let r = slot_for(dep, installed);
            let fine = installed_fault(dep.0) is None && installed.len() > 0;
            &&& fine && registry_spec(dep.1) <==> r is Ask
            &&& r is Ask ==> r == SlotView::Ask(dep.0, installed)
            &&& r is Ready ==> r->Ready_0.name == dep.0 && r->Ready_0.latest.len() == 0
                && r->Ready_0.published_at is None && r->Ready_0.age_minutes is None
            &&& fine && !registry_spec(dep.1) ==> r->Ready_0.installed == installed
                && r->Ready_0.error is None
            &&& !fine ==> r is Ready && r->Ready_0.error is Some && r->Ready_0.installed.len() == 0
            &&& installed_fault(dep.0) is None && installed.len() == 0 ==> r->Ready_0.error == Some(
                "未找到已安装的 package.json"@,
            )
            &&& installed_fault(dep.0) is Some ==> r->Ready_0.error == Some(
                "清单中的插件名无效，已跳过检查"@,
            )
        }),
{
}

/// What was ready stays, and what was asked is what was answered.
pub proof fn law_answers_fill_what_was_asked(s: SlotView, answer: Option<UpdateView>)
    ensures
        s is Ready ==> filled(s, answer) == s->Ready_0,
        s is Ask && answer is Some ==> filled(s, answer) == answer->0,
        s is Ask && answer is None ==> filled(s, answer).error == Some("检查线程异常"@),
{
}

proof fn lemma_quotient(n: int, d: int)
    requires
        d > 0,
    ensures
        n >= 0 ==> quotient(n, d) >= 0 && quotient(n, d) * d <= n < quotient(n, d) * d + d,
        n < 0 ==> quotient(n, d) <= 0 && quotient(n, d) * d - d < n <= quotient(n, d) * d,
{
    if n >= 0 {
        vstd::arithmetic::div_mod::lemma_fundamental_div_mod(n, d);
        vstd::arithmetic::div_mod::lemma_mod_bound(n, d);
        assert(d * (n / d) == (n / d) * d) by (nonlinear_arith);
        assert(n / d >= 0) by (nonlinear_arith)
            requires
                n >= 0,
                d > 0,
        ;
    } else {
        let m = -n;
        vstd::arithmetic::div_mod::lemma_fundamental_div_mod(m, d);
        vstd::arithmetic::div_mod::lemma_mod_bound(m, d);
        assert(d * (m / d) == (m / d) * d) by (nonlinear_arith);
        assert((-(m / d)) * d == -((m / d) * d)) by (nonlinear_arith);
        assert(m / d >= 0) by (nonlinear_arith)
            requires
                m >= 0,
                d > 0,
        ;
    }
}

/// The age of a version is the whole minutes from its time to now, towards zero; without a time
/// there is none.
pub proof fn law_age_is_in_whole_minutes(published: Seq<char>, now: int)
    ensures
        utc_secs(published) is None <==> age_of(published, now) is None,
        utc_secs(published) is Some && utc_secs(published)->0 <= now ==> age_of(published, now)->0
            >= 0 && age_of(published, now)->0 * 60 <= now - utc_secs(published)->0 < age_of(
            published,
            now,
        )->0 * 60 + 60,
        utc_secs(published) is Some && utc_secs(published)->0 > now ==> age_of(published, now)->0
            <= 0 && age_of(published, now)->0 * 60 - 60 < now - utc_secs(published)->0 <= age_of(
            published,
            now,
        )->0 * 60,
{
    if utc_secs(published) is Some {
        lemma_quotient(now - utc_secs(published)->0, 60);
    }
}

/// A plugin is told with the version that is installed and with the latest one. The time of the
/// latest version is told only where that version is newer; a failed question tells its reason and
/// no version.
pub proof fn law_update_tells_both_versions(
    name: Seq<char>,
    installed: Seq<char>,
    latest: Result<String, String>,
    published: Option<Seq<char>>,
    now: int,
)
    ensures
        ({
            let r = update_of(name, installed, latest, published, now);
            &&& r.name == name && r.installed == installed
            &&& latest is Err ==> r.error == Some(latest->Err_0@) && r.latest.len() == 0
                && r.published_at is None && r.age_minutes is None
            &&& latest is Ok ==> r.error is None && r.latest == latest->Ok_0@
            &&& latest is Ok && ver_before(installed, latest->Ok_0@) ==> r.published_at == published
            &&& latest is Ok && !ver_before(installed, latest->Ok_0@) ==> r.published_at is None
                && r.age_minutes is None
            &&& r.age_minutes is Some ==> r.published_at is Some && age_of(
                r.published_at->0,
                now,
            ) is Some && r.age_minutes->0 == age_of(r.published_at->0, now)->0 as i64
            &&& r.published_at is Some && age_of(r.published_at->0, now) is Some
                ==> r.age_minutes is Some
        }),
{
}

/// A plugin is enabled or disabled if and only if its name is taken, it is installed, it is a layer
/// with entries and the patch file changes. Each other case is refused for its own reason.
pub proof fn law_what_may_be_switched(
    name: Seq<char>,
    enable: bool,
    known: Option<PkgView>,
    patch: Seq<char>,
)
    ensures
        ({
            let n = trim_of(name);
            let r = toggle_fault(name, enable, known, patch);
            let off = disabled_ids(rows_of(lines_of(patch)));
            let able = installed_fault(n) is None && known is Some && known->0.is_bundle
                && known->0.entry_ids.len() > 0;
            let change = managed(patch, n, known->0.entry_ids, enable);
            &&& r is None <==> able && change is Some
            &&& installed_fault(n) is Some ==> r == installed_fault(n)
            &&& installed_fault(n) is None && known is None ==> r == Some("插件 "@ + n + " 未安装"@)
            &&& installed_fault(n) is None && known is Some && !known->0.is_bundle ==> r == Some(
                n + " 不是 profile 层插件（普通依赖库），不支持启用/禁用"@,
            )
            &&& installed_fault(n) is None && known is Some && known->0.is_bundle
                && known->0.entry_ids.len() == 0 ==> r == Some(
                n + " 的 bundle 未声明可管理的入口（insert id），无法启用/禁用"@,
            )
            &&& able && change is None && !enable ==> r == Some(n + " 已处于禁用状态"@)
            &&& able && change is None && enable && (exists|i: int|
                0 <= i < known->0.entry_ids.len() && off.contains(#[trigger] known->0.entry_ids[i]))
                ==> r == Some(
                n + " 的禁用项来自用户配置，未自动修改；请手工移除对应 disabled 条目"@,
            )
            &&& able && change is None && enable && !(exists|i: int|
                0 <= i < known->0.entry_ids.len() && off.contains(#[trigger] known->0.entry_ids[i]))
                ==> r == Some(n + " 未处于禁用状态"@)
        }),
{
}

/// A text of at most 2000 characters is shown whole; of a longer one the first 2000 are shown, and
/// a sign that it goes on.
pub proof fn law_readme_is_shown_from_its_start(s: Seq<char>)
    ensures
        s.len() <= 2000 ==> readme_start(s) == s,
        s.len() > 2000 ==> readme_start(s).len() == 2001 && readme_start(s).last() == '…' && forall|
            i: int,
        |
            0 <= i < 2000 ==> #[trigger] readme_start(s)[i] == s[i],
{
}

/// The details of a plugin are what its own document tells; only what was asked for comes from the
/// manifest of the profile, and what it inserts from the package that is installed. The address of
/// its source is a text or the `url` in it.
pub proof fn law_details_are_those_of_the_package(
    name: Seq<char>,
    t: JsonTree,
    manifest: Option<JsonTree>,
    known: Option<PkgView>,
    readme: Option<Seq<char>>,
)
    ensures
        ({
            let d = detail_of(name, t, manifest, known, readme);
            let source = field(t, "repository"@);
            &&& d.name == name
            &&& d.version == text_field(t, "version"@)
            &&& d.description == text_field(t, "description"@)
            &&& d.license == text_field(t, "license"@)
            &&& d.homepage == text_field(t, "homepage"@)
            &&& source is None ==> d.repository.len() == 0
            &&& source is Some && source->0 is Text ==> d.repository == source->0->Text_0
            &&& source is Some && !(source->0 is Text) ==> d.repository == text_field(
                source->0,
                "url"@,
            )
            &&& manifest is Some && field(manifest->0, "dependencies"@) is Some ==> d.spec_text
                == text_field(field(manifest->0, "dependencies"@)->0, name)
            &&& manifest is None ==> d.spec_text.len() == 0
            &&& d.is_bundle <==> known is Some && known->0.is_bundle
            &&& known is Some ==> d.entry_ids == known->0.entry_ids
            &&& known is None ==> d.entry_ids.len() == 0
            &&& readme is None ==> d.readme.len() == 0
            &&& readme is Some && readme->0.len() <= 2000 ==> d.readme == readme->0
        }),
{
}

/// Each dependency is looked at with the version that is installed of it, in the order of the
/// manifest.
pub proof fn law_each_dependency_has_its_own_version(
    deps: Seq<(Seq<char>, Seq<char>)>,
    versions: Seq<Seq<char>>,
    i: int,
)
    requires
        0 <= i < deps.len(),
        deps.len() == versions.len(),
    ensures
        slots_for(deps, versions).len() == deps.len(),
        slots_for(deps, versions)[i] is Ask ==> slots_for(deps, versions)[i]->Ask_0 == deps[i].0
            && slots_for(deps, versions)[i]->Ask_1 == versions[i],
        slots_for(deps, versions)[i] is Ready ==> slots_for(deps, versions)[i]->Ready_0.name
            == deps[i].0,
        slots_for(deps, versions)[i] == slot_for(deps[i], versions[i]),
{
}

/// A profile has a dependency if and only if the document of the profile has a field with its name
/// under `dependencies`; of a document that cannot be read none is known.
pub proof fn law_dependencies_are_the_fields(
    t: JsonTree,
    fields: Seq<(Seq<char>, JsonTree)>,
    name: Seq<char>,
)
    requires
        field(t, "dependencies"@) == Some(JsonTree::Object(fields)),
    ensures
        declared(Some(t)) is Some,
        declared(Some(t))->0.contains(name) <==> exists|i: int|
            0 <= i < fields.len() && (#[trigger] fields[i]).0 == name,
        declared(None) is None,
{
    let d = declared(Some(t))->0;
    assert(d.len() == fields.len());
    assert forall|i: int| 0 <= i < fields.len() implies d[i] == (#[trigger] fields[i]).0 by {}
    if d.contains(name) {
        let i = choose|i: int| 0 <= i < d.len() && d[i] == name;
        assert(fields[i].0 == name);
    }
    if exists|i: int| 0 <= i < fields.len() && (#[trigger] fields[i]).0 == name {
        let i = choose|i: int| 0 <= i < fields.len() && (#[trigger] fields[i]).0 == name;
        assert(d[i] == name);
    }
}

/// The time of the latest version is asked for if and only if that version is known and newer, which
/// is when it is told.
pub proof fn law_time_is_asked_for_newer_versions(
    name: Seq<char>,
    installed: Seq<char>,
    latest: Result<String, String>,
    published: Seq<char>,
    now: int,
)
    ensures
        wants_time(latest, installed) <==> latest is Ok && ver_before(installed, latest->Ok_0@),
        wants_time(latest, installed) <==> update_of(
            name,
            installed,
            latest,
            Some(published),
            now,
        ).published_at is Some,
{
}

} // verus!
