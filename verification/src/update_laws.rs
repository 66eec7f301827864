//! What holds of updates and checks: where an update writes to, what stops it, and what a check of
//! the system tells.

use crate::checks::{all_checks, fixes, runs, CheckFacts};
use crate::locate::InstallView;
use crate::numbers::digits_of;
use crate::process::DshState;
use crate::text::{has_sub, stands_at};
use crate::update::{
    install_refusal, not_writable, npm_words, target_of, update_refusal, TargetFacts,
};
use vstd::prelude::*;

verus! {

/// An update writes to the root of the installation, and can where that root and the directory of
/// the package, as far as it is known, can be written to. A first installation writes to npm's
/// directory; where that is unknown, nothing can be written.
pub proof fn law_where_an_update_writes_to(install: Option<InstallView>, f: TargetFacts)
    ensures
        install is Some ==> target_of(install, f).0 == install->0.pkg_root,
        install is Some ==> (target_of(install, f).1 <==> f.root_writable && !(f.package_writable
            == Some(false))),
        install is None ==> (f.prefix matches Some(p) ==> target_of(install, f) == (p.0@, p.1)),
        install is None && f.prefix is None ==> target_of(install, f).0.len() == 0 && !target_of(
            install,
            f,
        ).1,
{
}

/// An update goes ahead if and only if DSH is installed, does not run, and its root can be written to
/// or is unknown. What stops it is told, and the directory twice.
pub proof fn law_what_stops_an_update(
    install: Option<InstallView>,
    state: DshState,
    root_writable: bool,
)
    ensures
        ({
            let r = update_refusal(install, state, root_writable);
            &&& r is None <==> install is Some && state != DshState::Running && (root_writable
                || install->0.pkg_root.len() == 0)
            &&& install is None ==> r == Some("未安装 DSH，请先点击「未安装 DSH」一键安装"@)
            &&& install is Some && state == DshState::Running ==> r == Some(
                "更新前需要先停止 DSH：Windows 上运行中的 node 会占用待替换的文件，直接覆盖会失败。请先在首页点「关闭 Web 界面」，或选择「停止并更新」"@,
            )
            &&& install is Some && state != DshState::Running && r is Some ==> r == Some(
                not_writable(install->0.pkg_root),
            ) && has_sub(r->0, install->0.pkg_root)
        }),
{
    if install is Some && state != DshState::Running && update_refusal(
        install,
        state,
        root_writable,
    ) is Some {
        let d = install->0.pkg_root;
        let m = not_writable(d);
        let a = "目标目录不可写，更新无法完成：\n"@;
        assert(m.subrange(a.len() as int, (a.len() + d.len()) as int) =~= d);
        assert(stands_at(m, d, a.len() as int));
    }
}

/// npm installs the latest DSH, without an audit and without asking for funds; for all users if and
/// only if the installation is one for all.
pub proof fn law_what_npm_installs(is_global: bool)
    ensures
        npm_words(is_global)[0] == "install"@,
        npm_words(true).len() == 5 && npm_words(true)[1] == "-g"@,
        npm_words(false).len() == 4,
        ({
            let w = npm_words(is_global);
            &&& w[w.len() - 3] == "@deepseek-ai/dsh"@ + "@latest"@
            &&& w[w.len() - 2] == "--no-audit"@
            &&& w[w.len() - 1] == "--no-fund"@
        }),
{
}

/// What is told of the things that DSH needs: whether Node and DSH are there, where npm keeps its
/// cache, whether pnpm is there and which proxy the system uses, in this order.
pub proof fn law_needs_are_checked_in_order(f: CheckFacts)
    ensures
        ({
            let c = all_checks(f);
            &&& c[0].name == "Node.js 环境"@ && c[0].status == if f.node {
                "OK"@
            } else {
                "FAIL"@
            }
            &&& c[1].name == "DSH 程序文件"@ && c[1].status == if f.install is Some {
                "OK"@
            } else {
                "FAIL"@
            }
            &&& f.install is Some ==> c[1].detail == "已识别安装位置："@ + f.install->0.pkg_root@
            &&& c[2].name == "npm 缓存"@ && c[2].status == if f.npm_cache is Some {
                "INFO"@
            } else {
                "WARN"@
            }
            &&& f.npm_cache is Some ==> c[2].detail == "位于 "@ + f.npm_cache->0@
            &&& c[3].name == "pnpm 环境"@ && c[3].status == if f.pnpm {
                "OK"@
            } else {
                "WARN"@
            }
            &&& c[4].name == "系统代理"@ && c[4].status == "INFO"@
            &&& f.proxy_enabled && f.proxy_server@.len() > 0 ==> c[4].detail == "已启用："@
                + f.proxy_server@
            &&& !f.proxy_enabled || f.proxy_server@.len() == 0 ==> c[4].detail == "系统代理未启用"@
        }),
{
}

/// A fault of the settings file is told before the rest and only where there is one. Then it is told
/// which rights the launcher has, whether an update can write to its directory, and how DSH stands.
pub proof fn law_state_is_told_behind_the_needs(f: CheckFacts)
    ensures
        ({
            let c = all_checks(f);
            let n: int = if f.load_error is Some {
                6
            } else {
                5
            };
            let dir = f.target.0@;
            let url = "http://127.0.0.1:"@ + digits_of(f.port as nat);
            &&& c.len() == n + 3
            &&& f.load_error is Some ==> c[5].name == "settings.json"@ && c[5].status == "WARN"@
                && c[5].detail == f.load_error->0@
                + "（已临时使用默认配置，修复保存后重启启动器生效）"@
            &&& c[n].name == "运行权限"@ && c[n].status == "INFO"@
            &&& f.elevated ==> c[n].detail == "以管理员身份运行（受保护目录可写）"@
            &&& !f.elevated ==> c[n].detail != "以管理员身份运行（受保护目录可写）"@
            &&& c[n + 1].name == "更新权限"@ && c[n + 1].status == if f.target.1 {
                "OK"@
            } else {
                "WARN"@
            }
            &&& dir.len() == 0 ==> c[n + 1].detail == "未能识别 DSH 安装目录（尚未安装？）"@
            &&& dir.len() > 0 && f.target.1 ==> c[n + 1].detail == dir + " 可写，DSH 可直接更新/安装"@
            &&& dir.len() > 0 && !f.target.1 ==> c[n + 1].detail == dir
                + " 对当前用户不可写（只有读+执行权限），更新 DSH 会因权限被拒；可在设置页点「以管理员身份重启启动器」后再更新"@
            &&& c[n + 2].name == "运行状态"@ && c[n + 2].status == "INFO"@
            &&& f.state == DshState::Running ==> c[n + 2].detail == "DSH 正在运行："@ + url
            &&& f.state == DshState::Stopped ==> c[n + 2].detail
                == "DSH 未运行，可点击上方按钮启动"@
            &&& f.state == DshState::ForeignPort && f.owner is Some ==> c[n + 2].detail == "端口 "@
                + digits_of(f.port as nat) + " 被其他程序占用（非 DSH 进程）"@ + ("，占用者："@
                + f.owner->0@) + "；可在首页结束该进程，或在设置页修改 Web 端口"@
            &&& f.state == DshState::ForeignPort && f.owner is None ==> c[n + 2].detail == "端口 "@
                + digits_of(f.port as nat) + " 被其他程序占用（非 DSH 进程）"@
                + "；可在首页结束该进程，或在设置页修改 Web 端口"@
        }),
{
    reveal_strlit("以管理员身份运行（受保护目录可写）");
    reveal_strlit(
        "普通用户运行；若下面的「更新权限」为 WARN，可用设置页的「以管理员身份重启启动器」解决",
    );
    assert("普通用户运行；若下面的「更新权限」为 WARN，可用设置页的「以管理员身份重启启动器」解决"@[0]
        != "以管理员身份运行（受保护目录可写）"@[0]);
    let head = "端口 "@ + digits_of(f.port as nat) + " 被其他程序占用（非 DSH 进程）"@;
    assert(head + Seq::<char>::empty() =~= head);
}

/// What is missing is what there is advice for: Node, then DSH.
pub proof fn law_advice_is_for_what_is_missing(node: bool, installed: bool)
    ensures
        fixes(node, installed).len() == (if node {
            0int
        } else {
            1
        }) + (if installed {
            0int
        } else {
            1
        }),
        !installed ==> fixes(node, installed).last() == "npm install -g @deepseek-ai/dsh"@,
        !node ==> fixes(node, installed)[0]
            == "请先安装 Node.js（官网下载 LTS 版）：https://nodejs.org/"@,
{
}

/// DSH is installed if and only if it does not run and the directory can be written to, as far as it
/// is known.
pub proof fn law_what_stops_an_installation(state: DshState, target_dir: Seq<char>, writable: bool)
    ensures
        install_refusal(state, target_dir, writable) is None <==> state != DshState::Running && (
        writable || target_dir.len() == 0),
        state == DshState::Running ==> install_refusal(state, target_dir, writable) == Some(
            "更新前需要先停止 DSH：Windows 上运行中的 node 会占用待替换的文件，直接覆盖会失败。请先在首页点「关闭 Web 界面」，或选择「停止并更新」"@,
        ),
        state != DshState::Running && !writable && target_dir.len() > 0 ==> install_refusal(
            state,
            target_dir,
            writable,
        ) == Some(not_writable(target_dir)),
{
}

/// A check tells that DSH runs only where DSH itself does, not where another program holds its port.
pub proof fn law_only_dsh_itself_runs(state: DshState)
    ensures
        runs(DshState::Running),
        !runs(DshState::Stopped) && !runs(DshState::ForeignPort),
{
}

} // verus!
