//! The version of DSH: looking for a newer one, updating, installing, and what stands against it.

use crate::locate::{install_opt, DshInstall, InstallView, DSH_PKG_NAME};
use crate::npm::{npm_view_version, version_answered, Queried};
use crate::path::{ancestor, up_by};
use crate::process::DshState;
use crate::text::{opt_view, swap_char, swap_of, views};
use vstd::prelude::*;

verus! {

/// What was found out about a newer version of DSH.
pub struct UpdateCheckResult {
    /// The installed version.
    pub installed: Option<String>,
    /// The newest version.
    pub latest: Option<String>,
    /// Why the newest version is not known.
    pub error: Option<String>,
}

/// The newest version of DSH, as the registry answered.
pub fn get_latest_dsh_version(answer: &Result<Queried, String>) -> (r: Result<String, String>)
    ensures
        match r {
            Ok(v) => version_answered(*answer) == Ok::<Seq<char>, Seq<char>>(v@),
            Err(m) => version_answered(*answer) == Err::<Seq<char>, Seq<char>>(m@),
        },
{
    npm_view_version(answer)
}

/// What was found out about a newer version: that the registry could not be asked is not the same
/// as that there is none.
pub fn update_check(installed: Option<String>, latest: Result<String, String>) -> (r:
    UpdateCheckResult)
    ensures
        opt_view(r.installed) == opt_view(installed),
        match latest {
            Ok(v) => opt_view(r.latest) == Some(v@) && r.error is None,
            Err(e) => r.latest is None && opt_view(r.error) == Some(e@),
        },
{
    match latest {
        Ok(v) => UpdateCheckResult { installed, latest: Some(v), error: None },
        Err(e) => UpdateCheckResult { installed, latest: None, error: Some(e) },
    }
}

/// The directory of the package of an installation: two levels above its program file.
pub fn package_dir(install: &DshInstall) -> (r: Option<String>)
    ensures
        opt_view(r) == up_by(install@.bin, 2),
{
    ancestor(install.bin.as_str(), 2)
}

/// What is known of the directories that an update writes to.
pub struct TargetFacts {
    /// Whether the root of the installation can be written to.
    pub root_writable: bool,
    /// Whether the directory of the package can be written to, where it is known.
    pub package_writable: Option<bool>,
    /// The directory of npm's global packages and whether it can be written to.
    pub prefix: Option<(String, bool)>,
}

/// The directory that an update or an installation writes to, and whether it can. Both directories
/// of an installation count.
pub open spec fn target_of(install: Option<InstallView>, f: TargetFacts) -> (Seq<char>, bool) {
    match install {
        Some(i) => (i.pkg_root, f.root_writable && f.package_writable != Some(false)),
        None => match f.prefix {
            Some(p) => (p.0@, p.1),
            None => (Seq::empty(), false),
        },
    }
}

/// The directory that an update or an installation writes to, and whether it can.
pub fn update_target(install: &Option<DshInstall>, f: &TargetFacts) -> (r: (String, bool))
    ensures
        (r.0@, r.1) == target_of(install_opt(*install), *f),
{
    match install {
        Some(i) => {
            let package_ok = match f.package_writable {
                Some(w) => w,
                None => true,
            };
            (i.pkg_root.clone(), f.root_writable && package_ok)
        },
        None => match &f.prefix {
            Some(p) => (p.0.clone(), p.1),
            None => (String::new(), false),
        },
    }
}

/// How things stand before an update.
pub struct UpdatePreflight {
    /// The installed version.
    pub installed: Option<String>,
    /// The directory that is written to.
    pub target_dir: String,
    /// Whether the installation is a global package.
    pub is_global: bool,
    /// Whether the directory can be written to.
    pub writable: bool,
    /// Whether the launcher has administrator rights.
    pub is_elevated: bool,
    /// Whether it needs them.
    pub needs_admin: bool,
    /// Whether DSH runs.
    pub dsh_running: bool,
}

impl UpdatePreflight {
    /// How things stand before an update.
    pub fn collect(
        install: &Option<DshInstall>,
        f: &TargetFacts,
        installed: Option<String>,
        elevated: bool,
        state: DshState,
    ) -> (r: UpdatePreflight)
        ensures
            opt_view(r.installed) == opt_view(installed),
            (r.target_dir@, r.writable) == target_of(install_opt(*install), *f),
            r.is_global == (match install_opt(*install) {
                Some(i) => i.is_global,
                None => true,
            }),
            r.is_elevated == elevated,
            r.needs_admin == (!r.writable && !elevated),
            r.dsh_running == (state == DshState::Running),
    {
        let (target_dir, writable) = update_target(install, f);
        let is_global = match install {
            Some(i) => i.is_global,
            None => true,
        };
        let dsh_running = match state {
            DshState::Running => true,
            _ => false,
        };
        UpdatePreflight {
            installed,
            target_dir,
            is_global,
            writable,
            is_elevated: elevated,
            needs_admin: !writable && !elevated,
            dsh_running,
        }
    }
}

/// What is told of a directory that cannot be written to, with three ways out.
pub open spec fn not_writable(dir: Seq<char>) -> Seq<char> {
    "目标目录不可写，更新无法完成：\n"@ + dir
        + "\n\n该目录对当前用户只开放「读取+执行」权限，npm install -g 会被系统拒绝。\n任选一种方式解决：\n1. 回到设置页点「以管理员身份重启启动器」，再重新更新（推荐）\n2. 改为装到用户目录：npm config set prefix \"%APPDATA%\\npm\" 后重新安装\n3. 以管理员身份执行一次授权：\n   icacls \""@
        + dir + "\" /grant *S-1-5-32-545:(OI)(CI)M"@
}

/// Whether the directory of an update can be written to. One that is not known is left to npm.
pub fn ensure_writable_for_install(target_dir: &str, writable: bool) -> (r: Result<(), String>)
    ensures
        r is Ok <==> target_dir@.len() == 0 || writable,
        r matches Err(m) ==> m@ == not_writable(target_dir@),
{
    if target_dir.is_empty() || writable {
        return Ok(());
    }
    Err(
        "目标目录不可写，更新无法完成：\n".to_owned().concat(target_dir).concat(
            "\n\n该目录对当前用户只开放「读取+执行」权限，npm install -g 会被系统拒绝。\n任选一种方式解决：\n1. 回到设置页点「以管理员身份重启启动器」，再重新更新（推荐）\n2. 改为装到用户目录：npm config set prefix \"%APPDATA%\\npm\" 后重新安装\n3. 以管理员身份执行一次授权：\n   icacls \"",
        ).concat(target_dir).concat("\" /grant *S-1-5-32-545:(OI)(CI)M"),
    )
}

/// Whether DSH is stopped, as it has to be for its files to be replaced.
pub fn ensure_dsh_stopped_for_install(state: DshState) -> (r: Result<(), String>)
    ensures
        r is Ok <==> state != DshState::Running,
        r matches Err(m) ==> m@
            == "更新前需要先停止 DSH：Windows 上运行中的 node 会占用待替换的文件，直接覆盖会失败。请先在首页点「关闭 Web 界面」，或选择「停止并更新」"@,
{
    match state {
        DshState::Running => Err(
            "更新前需要先停止 DSH：Windows 上运行中的 node 会占用待替换的文件，直接覆盖会失败。请先在首页点「关闭 Web 界面」，或选择「停止并更新」".to_owned(),
        ),
        _ => Ok(()),
    }
}

/// The arguments of npm that bring the newest DSH.
pub open spec fn npm_words(is_global: bool) -> Seq<Seq<char>> {
    (if is_global {
        seq!["install"@, "-g"@]
    } else {
        seq!["install"@]
    }) + seq![DSH_PKG_NAME@ + "@latest"@, "--no-audit"@, "--no-fund"@]
}

/// The arguments of npm that bring the newest DSH, as a global package or into the root of an
/// installation.
pub fn install_args(is_global: bool) -> (r: Vec<String>)
    ensures
        views(r@) == npm_words(is_global),
{
    let mut v: Vec<String> = Vec::new();
    v.push("install".to_owned());
    if is_global {
        v.push("-g".to_owned());
    }
    v.push(DSH_PKG_NAME.to_owned().concat("@latest"));
    v.push("--no-audit".to_owned());
    v.push("--no-fund".to_owned());
    proof {
        assert(views(v@) =~= npm_words(is_global));
    }
    v
}

/// What an update starts from.
pub struct UpdateStart {
    /// The arguments of npm.
    pub args: Vec<String>,
    /// The directory to run it in, for an installation that is no global package.
    pub dir: Option<String>,
}

/// What stands against an update.
pub open spec fn update_refusal(
    install: Option<InstallView>,
    state: DshState,
    root_writable: bool,
) -> Option<Seq<char>> {
    match install {
        None => Some("未安装 DSH，请先点击「未安装 DSH」一键安装"@),
        Some(i) => if state == DshState::Running {
            Some(
                "更新前需要先停止 DSH：Windows 上运行中的 node 会占用待替换的文件，直接覆盖会失败。请先在首页点「关闭 Web 界面」，或选择「停止并更新」"@,
            )
        } else if i.pkg_root.len() > 0 && !root_writable {
            Some(not_writable(i.pkg_root))
        } else {
            None
        },
    }
}

/// What an update starts from, or what stands against it.
pub fn update_dsh(install: &Option<DshInstall>, state: DshState, root_writable: bool) -> (r: Result<
    UpdateStart,
    String,
>)
    ensures
        match r {
            Err(m) => update_refusal(install_opt(*install), state, root_writable) == Some(m@),
            Ok(s) => {
                &&& update_refusal(install_opt(*install), state, root_writable) is None
                &&& views(s.args@) == npm_words(install->0.is_global)
                &&& opt_view(s.dir) == if install->0.is_global {
                    None
                } else {
                    Some(install->0.pkg_root@)
                }
            },
        },
{
    let i = match install {
        None => {
            return Err("未安装 DSH，请先点击「未安装 DSH」一键安装".to_owned());
        },
        Some(i) => i,
    };
    match ensure_dsh_stopped_for_install(state) {
        Ok(_) => {},
        Err(m) => {
            return Err(m);
        },
    }
    match ensure_writable_for_install(i.pkg_root.as_str(), root_writable) {
        Ok(_) => {},
        Err(m) => {
            return Err(m);
        },
    }
    Ok(
        UpdateStart {
            args: install_args(i.is_global),
            dir: if i.is_global {
                None
            } else {
                Some(i.pkg_root.clone())
            },
        },
    )
}

/// What an update came to, from what npm came to and the version that is installed then.
pub fn updated(old_version: &str, npm: &Result<(), String>, found: &Option<String>) -> (r: Result<
    (String, String),
    String,
>)
    ensures
        match *npm {
            Err(e) => r matches Err(m) && m@ == e@,
            Ok(_) => if found is Some && found->0@.len() > 0 {
                r matches Ok(p) && p.0@ == old_version@ && p.1@ == found->0@
            } else {
                r matches Err(m) && m@ == "npm 已执行完成，但更新后未能识别到 DSH 版本号"@
            },
        },
{
    match npm {
        Err(e) => Err(e.clone()),
        Ok(_) => match found {
            Some(v) => if v.as_str().is_empty() {
                Err("npm 已执行完成，但更新后未能识别到 DSH 版本号".to_owned())
            } else {
                Ok((old_version.to_owned(), v.clone()))
            },
            None => Err("npm 已执行完成，但更新后未能识别到 DSH 版本号".to_owned()),
        },
    }
}

/// Why DSH is not installed to `target_dir`.
pub open spec fn install_refusal(state: DshState, target_dir: Seq<char>, writable: bool) -> Option<
    Seq<char>,
> {
    if state == DshState::Running {
        Some(
            "更新前需要先停止 DSH：Windows 上运行中的 node 会占用待替换的文件，直接覆盖会失败。请先在首页点「关闭 Web 界面」，或选择「停止并更新」"@,
        )
    } else if target_dir.len() > 0 && !writable {
        Some(not_writable(target_dir))
    } else {
        None
    }
}

/// Whether DSH may be installed: it does not run, and the directory can be written to.
pub fn install_dsh(state: DshState, target_dir: &str, writable: bool) -> (r: Result<
    Vec<String>,
    String,
>)
    ensures
        match r {
            Ok(v) => install_refusal(state, target_dir@, writable) is None && views(v@) == npm_words(
                true,
            ),
            Err(m) => install_refusal(state, target_dir@, writable) == Some(m@),
        },
{
    match ensure_dsh_stopped_for_install(state) {
        Ok(_) => {},
        Err(m) => {
            return Err(m);
        },
    }
    match ensure_writable_for_install(target_dir, writable) {
        Ok(_) => {},
        Err(m) => {
            return Err(m);
        },
    }
    Ok(install_args(true))
}

/// What an installation came to, from what npm came to and the version that is found then.
pub fn installed(npm: &Result<(), String>, found: &Option<String>) -> (r: Result<String, String>)
    ensures
        match *npm {
            Err(e) => r matches Err(m) && m@ == e@,
            Ok(_) => match *found {
                Some(v) => r matches Ok(x) && x@ == v@,
                None => r matches Err(m) && m@
                    == "npm 安装已执行成功，但未识别到 DSH 程序文件，请检查 npm 输出"@,
            },
        },
{
    match npm {
        Err(e) => Err(e.clone()),
        Ok(_) => match found {
            Some(v) => Ok(v.clone()),
            None => Err(
                "npm 安装已执行成功，但未识别到 DSH 程序文件，请检查 npm 输出".to_owned(),
            ),
        },
    }
}

/// The line in the log about an update that begins.
pub fn update_start_line(old_version: &str, dir: &str, is_global: bool) -> (r: String)
    ensures
        r@ == "开始更新 DSH：当前 v"@ + old_version@ + "，目标目录 "@ + dir@ + "（全局="@ + (if is_global {
            "true"@
        } else {
            "false"@
        }) + "）"@,
{
    "开始更新 DSH：当前 v".to_owned().concat(old_version).concat("，目标目录 ").concat(dir).concat(
        "（全局=",
    ).concat(
        if is_global {
            "true"
        } else {
            "false"
        },
    ).concat("）")
}

/// The line in the log about an installation that begins.
pub fn install_start_line(dir: &str) -> (r: String)
    ensures
        r@ == "开始全局安装 DSH，目标目录 "@ + dir@,
{
    "开始全局安装 DSH，目标目录 ".to_owned().concat(dir)
}

/// The line in the log about an update that is over.
pub fn update_log_line(result: &Result<(String, String), String>) -> (r: String)
    ensures
        r@ == (match *result {
            Ok(p) => "DSH 更新完成：v"@ + p.0@ + " → v"@ + p.1@,
            Err(e) => "DSH 更新失败："@ + swap_of(e@, '\n', ' '),
        }),
{
    match result {
        Ok(p) => "DSH 更新完成：v".to_owned().concat(p.0.as_str()).concat(" → v").concat(
            p.1.as_str(),
        ),
        Err(e) => "DSH 更新失败：".to_owned().concat(swap_char(e.as_str(), '\n', ' ').as_str()),
    }
}

/// The line in the log about an installation that is over.
pub fn install_log_line(result: &Result<String, String>) -> (r: String)
    ensures
        r@ == (match *result {
            Ok(v) => "DSH 安装完成：v"@ + v@,
            Err(e) => "DSH 安装失败："@ + swap_of(e@, '\n', ' '),
        }),
{
    match result {
        Ok(v) => "DSH 安装完成：v".to_owned().concat(v.as_str()),
        Err(e) => "DSH 安装失败：".to_owned().concat(swap_char(e.as_str(), '\n', ' ').as_str()),
    }
}

/// Administrator rights are asked for only where the directory cannot be written to without them,
/// and an update that is let through can be written: it is not refused for its rights later.
pub proof fn law_update_is_let_through(install: Option<InstallView>, f: TargetFacts, state: DshState)
    requires
        install is Some,
        target_of(install, f).1,
        state != DshState::Running,
    ensures
        update_refusal(install, state, f.root_writable) is None,
{
}

} // verus!
