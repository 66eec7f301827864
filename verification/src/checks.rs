//! What is looked at before DSH is started, and what can be done about it.

use crate::locate::{install_opt, web_url, DshInstall, InstallView};
use crate::numbers::{decimal, digits_of};
use crate::process::DshState;
use crate::text::{opt_view, views};
use vstd::prelude::*;

verus! {

/// One thing that was looked at.
pub struct CheckItem {
    /// What it is.
    pub name: String,
    /// `OK`, `FAIL`, `WARN` or `INFO`.
    pub status: String,
    /// What is told about it.
    pub detail: String,
}

/// The values of it.
pub struct CheckView {
    /// What it is.
    pub name: Seq<char>,
    /// How it stands.
    pub status: Seq<char>,
    /// What is told about it.
    pub detail: Seq<char>,
}

impl View for CheckItem {
    type V = CheckView;

    open spec fn view(&self) -> CheckView {
        CheckView { name: self.name@, status: self.status@, detail: self.detail@ }
    }
}

/// The values of a list of them.
pub open spec fn check_views(v: Seq<CheckItem>) -> Seq<CheckView> {
    Seq::new(v.len(), |i: int| v[i]@)
}

/// Everything that was looked at.
pub struct ChecksResult {
    /// One by one.
    pub items: Vec<CheckItem>,
    /// Whether DSH runs.
    pub running: bool,
}

/// What was found out.
pub struct CheckFacts {
    /// Whether Node is there.
    pub node: bool,
    /// The installation of DSH.
    pub install: Option<DshInstall>,
    /// The directory of npm's cache.
    pub npm_cache: Option<String>,
    /// Whether pnpm is there.
    pub pnpm: bool,
    /// Whether the system uses a proxy.
    pub proxy_enabled: bool,
    /// Which one.
    pub proxy_server: String,
    /// What is said against the settings file.
    pub load_error: Option<String>,
    /// The directory that an update writes to, and whether it can.
    pub target: (String, bool),
    /// Whether the launcher has administrator rights.
    pub elevated: bool,
    /// How DSH stands.
    pub state: DshState,
    /// Its port.
    pub port: u16,
    /// Who else holds its port.
    pub owner: Option<String>,
}

/// Node.
pub open spec fn node_check(node: bool) -> CheckView {
    if node {
        CheckView { name: "Node.js 环境"@, status: "OK"@, detail: "已找到 node"@ }
    } else {
        CheckView {
            name: "Node.js 环境"@,
            status: "FAIL"@,
            detail: "未找到 node，请先安装 Node.js"@,
        }
    }
}

/// The installation of DSH.
pub open spec fn install_check(install: Option<InstallView>) -> CheckView {
    match install {
        Some(i) => CheckView {
            name: "DSH 程序文件"@,
            status: "OK"@,
            detail: "已识别安装位置："@ + i.pkg_root,
        },
        None => CheckView {
            name: "DSH 程序文件"@,
            status: "FAIL"@,
            detail: "未找到 DSH，请点击右上角「未安装 DSH」一键安装，或手动执行：npm install -g @deepseek-ai/dsh"@,
        },
    }
}

/// The cache of npm.
pub open spec fn cache_check(cache: Option<Seq<char>>) -> CheckView {
    match cache {
        Some(c) => CheckView { name: "npm 缓存"@, status: "INFO"@, detail: "位于 "@ + c },
        None => CheckView {
            name: "npm 缓存"@,
            status: "WARN"@,
            detail: "无法读取 npm 缓存路径"@,
        },
    }
}

/// pnpm.
pub open spec fn pnpm_check(pnpm: bool) -> CheckView {
    if pnpm {
        CheckView { name: "pnpm 环境"@, status: "OK"@, detail: "已找到 pnpm，插件管理可用"@ }
    } else {
        CheckView {
            name: "pnpm 环境"@,
            status: "WARN"@,
            detail: "未找到 pnpm，插件安装/更新不可用（DSH 本体功能不受影响）；请执行 npm install -g pnpm"@,
        }
    }
}

/// The proxy of the system.
pub open spec fn proxy_check(enabled: bool, server: Seq<char>) -> CheckView {
    CheckView {
        name: "系统代理"@,
        status: "INFO"@,
        detail: if enabled && server.len() > 0 {
            "已启用："@ + server
        } else {
            "系统代理未启用"@
        },
    }
}

/// The settings file, where something is said against it.
pub open spec fn settings_check(err: Option<Seq<char>>) -> Seq<CheckView> {
    match err {
        Some(e) => seq![
            CheckView {
                name: "settings.json"@,
                status: "WARN"@,
                detail: e + "（已临时使用默认配置，修复保存后重启启动器生效）"@,
            },
        ],
        None => Seq::empty(),
    }
}

/// The rights of the launcher.
pub open spec fn rights_check(elevated: bool) -> CheckView {
    CheckView {
        name: "运行权限"@,
        status: "INFO"@,
        detail: if elevated {
            "以管理员身份运行（受保护目录可写）"@
        } else {
            "普通用户运行；若下面的「更新权限」为 WARN，可用设置页的「以管理员身份重启启动器」解决"@
        },
    }
}

/// The right to update DSH.
pub open spec fn update_rights_check(target: Seq<char>, writable: bool) -> CheckView {
    CheckView {
        name: "更新权限"@,
        status: if writable {
            "OK"@
        } else {
            "WARN"@
        },
        detail: if target.len() == 0 {
            "未能识别 DSH 安装目录（尚未安装？）"@
        } else if writable {
            target + " 可写，DSH 可直接更新/安装"@
        } else {
            target
                + " 对当前用户不可写（只有读+执行权限），更新 DSH 会因权限被拒；可在设置页点「以管理员身份重启启动器」后再更新"@
        },
    }
}

/// How DSH stands.
pub open spec fn state_check(state: DshState, port: u16, owner: Option<Seq<char>>) -> CheckView {
    CheckView {
        name: "运行状态"@,
        status: "INFO"@,
        detail: match state {
            DshState::Running => "DSH 正在运行："@ + ("http://127.0.0.1:"@ + digits_of(
                port as nat,
            )),
            DshState::ForeignPort => "端口 "@ + digits_of(port as nat)
                + " 被其他程序占用（非 DSH 进程）"@ + (match owner {
                Some(o) => "，占用者："@ + o,
                None => Seq::empty(),
            }) + "；可在首页结束该进程，或在设置页修改 Web 端口"@,
            DshState::Stopped => "DSH 未运行，可点击上方按钮启动"@,
        },
    }
}

/// Everything that is told, in order.
pub open spec fn all_checks(f: CheckFacts) -> Seq<CheckView> {
    seq![
        node_check(f.node),
        install_check(install_opt(f.install)),
        cache_check(opt_view(f.npm_cache)),
        pnpm_check(f.pnpm),
        proxy_check(f.proxy_enabled, f.proxy_server@),
    ] + settings_check(opt_view(f.load_error)) + seq![
        rights_check(f.elevated),
        update_rights_check(f.target.0@, f.target.1),
        state_check(f.state, f.port, opt_view(f.owner)),
    ]
}

fn add_item(items: &mut Vec<CheckItem>, name: &str, status: &str, detail: &str)
    ensures
        check_views(final(items)@) == check_views(old(items)@).push(
            (CheckView { name: name@, status: status@, detail: detail@ }),
        ),
{
    items.push(
        CheckItem {
            name: name.to_owned(),
            status: status.to_owned(),
            detail: detail.to_owned(),
        },
    );
    proof {
        assert(check_views(items@) =~= check_views(old(items)@).push(items@.last()@));
    }
}

fn environment(items: &mut Vec<CheckItem>, f: &CheckFacts)
    ensures
        check_views(final(items)@) == check_views(old(items)@) + seq![
            node_check(f.node),
            install_check(install_opt(f.install)),
            cache_check(opt_view(f.npm_cache)),
            pnpm_check(f.pnpm),
            proxy_check(f.proxy_enabled, f.proxy_server@),
        ],
{
    let ghost before = check_views(items@);
    if f.node {
        add_item(items, "Node.js 环境", "OK", "已找到 node");
    } else {
        add_item(items, "Node.js 环境", "FAIL", "未找到 node，请先安装 Node.js");
    }
    match &f.install {
        Some(i) => {
            add_item(
                items,
                "DSH 程序文件",
                "OK",
                "已识别安装位置：".to_owned().concat(i.pkg_root.as_str()).as_str(),
            );
        },
        None => {
            add_item(
                items,
                "DSH 程序文件",
                "FAIL",
                "未找到 DSH，请点击右上角「未安装 DSH」一键安装，或手动执行：npm install -g @deepseek-ai/dsh",
            );
        },
    }
    match &f.npm_cache {
        Some(c) => {
            add_item(
                items,
                "npm 缓存",
                "INFO",
                "位于 ".to_owned().concat(c.as_str()).as_str(),
            );
        },
        None => {
            add_item(items, "npm 缓存", "WARN", "无法读取 npm 缓存路径");
        },
    }
    if f.pnpm {
        add_item(items, "pnpm 环境", "OK", "已找到 pnpm，插件管理可用");
    } else {
        add_item(
            items,
            "pnpm 环境",
            "WARN",
            "未找到 pnpm，插件安装/更新不可用（DSH 本体功能不受影响）；请执行 npm install -g pnpm",
        );
    }
    if f.proxy_enabled && !f.proxy_server.as_str().is_empty() {
        add_item(
            items,
            "系统代理",
            "INFO",
            "已启用：".to_owned().concat(f.proxy_server.as_str()).as_str(),
        );
    } else {
        add_item(items, "系统代理", "INFO", "系统代理未启用");
    }
    proof {
        assert(check_views(items@) =~= before + seq![
            node_check(f.node),
            install_check(install_opt(f.install)),
            cache_check(opt_view(f.npm_cache)),
            pnpm_check(f.pnpm),
            proxy_check(f.proxy_enabled, f.proxy_server@),
        ]);
    }
}

fn state_text(f: &CheckFacts) -> (r: String)
    ensures
        r@ == state_check(f.state, f.port, opt_view(f.owner)).detail,
{
    match f.state {
        DshState::Running => "DSH 正在运行：".to_owned().concat(web_url(f.port).as_str()),
        DshState::ForeignPort => {
            let head = "端口 ".to_owned().concat(decimal(f.port as u64).as_str()).concat(
                " 被其他程序占用（非 DSH 进程）",
            );
            let mid: String = match &f.owner {
                Some(o) => "，占用者：".to_owned().concat(o.as_str()),
                None => String::new(),
            };
            head.concat(mid.as_str()).concat("；可在首页结束该进程，或在设置页修改 Web 端口")
        },
        DshState::Stopped => "DSH 未运行，可点击上方按钮启动".to_owned(),
    }
}

/// Whether DSH runs.
pub open spec fn runs(state: DshState) -> bool {
    state == DshState::Running
}

/// Everything that is told before DSH is started.
pub fn run_checks(f: &CheckFacts) -> (r: ChecksResult)
    ensures
        check_views(r.items@) == all_checks(*f),
        r.running == runs(f.state),
{
    let mut items: Vec<CheckItem> = Vec::new();
    proof {
        assert(check_views(items@) =~= Seq::empty());
    }
    environment(&mut items, f);
    let ghost first = check_views(items@);
    match &f.load_error {
        Some(e) => {
            add_item(
                &mut items,
                "settings.json",
                "WARN",
                e.clone().concat(
                    "（已临时使用默认配置，修复保存后重启启动器生效）",
                ).as_str(),
            );
        },
        None => {},
    }
    proof {
        assert(check_views(items@) =~= first + settings_check(opt_view(f.load_error)));
    }
    let ghost second = check_views(items@);
    add_item(
        &mut items,
        "运行权限",
        "INFO",
        if f.elevated {
            "以管理员身份运行（受保护目录可写）"
        } else {
            "普通用户运行；若下面的「更新权限」为 WARN，可用设置页的「以管理员身份重启启动器」解决"
        },
    );
    let target = f.target.0.as_str();
    let writable = f.target.1;
    let detail: String = if target.is_empty() {
        "未能识别 DSH 安装目录（尚未安装？）".to_owned()
    } else if writable {
        target.to_owned().concat(" 可写，DSH 可直接更新/安装")
    } else {
        target.to_owned().concat(
            " 对当前用户不可写（只有读+执行权限），更新 DSH 会因权限被拒；可在设置页点「以管理员身份重启启动器」后再更新",
        )
    };
    add_item(
        &mut items,
        "更新权限",
        if writable {
            "OK"
        } else {
            "WARN"
        },
        detail.as_str(),
    );
    let state = state_text(f);
    add_item(&mut items, "运行状态", "INFO", state.as_str());
    proof {
        assert(check_views(items@) =~= second + seq![
            rights_check(f.elevated),
            update_rights_check(f.target.0@, f.target.1),
            state_check(f.state, f.port, opt_view(f.owner)),
        ]);
        assert(check_views(items@) =~= all_checks(*f));
    }
    let running = match f.state {
        DshState::Running => true,
        _ => false,
    };
    ChecksResult { items, running }
}

/// What can be done about what is missing.
pub open spec fn fixes(node: bool, installed: bool) -> Seq<Seq<char>> {
    (if node {
        Seq::empty()
    } else {
        seq!["请先安装 Node.js（官网下载 LTS 版）：https://nodejs.org/"@]
    }) + (if installed {
        Seq::empty()
    } else {
        seq!["npm install -g @deepseek-ai/dsh"@]
    })
}

/// What can be done about what is missing.
pub fn fix_commands(node: bool, installed: bool) -> (r: Vec<String>)
    ensures
        views(r@) == fixes(node, installed),
{
    let mut v: Vec<String> = Vec::new();
    if !node {
        v.push("请先安装 Node.js（官网下载 LTS 版）：https://nodejs.org/".to_owned());
    }
    if !installed {
        v.push("npm install -g @deepseek-ai/dsh".to_owned());
    }
    proof {
        assert(views(v@) =~= fixes(node, installed));
    }
    v
}

proof fn lemma_statuses_differ()
    ensures
        "FAIL"@ != "OK"@,
        "FAIL"@ != "WARN"@,
        "FAIL"@ != "INFO"@,
{
    reveal_strlit("FAIL");
    reveal_strlit("OK");
    reveal_strlit("WARN");
    reveal_strlit("INFO");
    assert("FAIL"@[0] == 'F' && "WARN"@[0] == 'W' && "INFO"@[0] == 'I' && "OK"@.len() == 2
        && "FAIL"@.len() == 4);
}

/// Something fails exactly where there is something to do about it.
pub proof fn law_failures_have_fixes(f: CheckFacts)
    ensures
        (exists|i: int| 0 <= i < all_checks(f).len() && (#[trigger] all_checks(f)[i]).status
            == "FAIL"@) <==> fixes(f.node, f.install is Some).len() > 0,
{
    lemma_statuses_differ();
    let c = all_checks(f);
    if !f.node {
        assert(c[0].status == "FAIL"@);
    }
    if f.install is None {
        assert(c[1].status == "FAIL"@);
    }
    if f.node && f.install is Some {
        assert forall|i: int| 0 <= i < c.len() implies (#[trigger] c[i]).status != "FAIL"@ by {
            let n = settings_check(opt_view(f.load_error)).len();
            assert(i < 5 || i < 5 + n || i == 5 + n || i == 6 + n || i == 7 + n);
        }
    }
}

} // verus!
