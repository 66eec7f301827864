use dsh_launcher::checks::{fix_commands, run_checks, CheckFacts};
use dsh_launcher::locate::{make_install, DshInstall};
use dsh_launcher::npm::Queried;
use dsh_launcher::process::DshState;
use dsh_launcher::update::{
    ensure_dsh_stopped_for_install, ensure_writable_for_install, get_latest_dsh_version,
    install_args, install_dsh, install_log_line, install_start_line, installed, package_dir,
    update_check, update_dsh, update_log_line, update_start_line, update_target, updated,
    TargetFacts, UpdatePreflight,
};

fn some(t: &str) -> Option<String> {
    Some(t.to_string())
}

fn list(items: &[&str]) -> Vec<String> {
    items.iter().map(|s| s.to_string()).collect()
}

fn local() -> DshInstall {
    make_install(r"C:\r\node_modules\@deepseek-ai\dsh\lib\bin.js".to_string(), false)
}

fn global() -> DshInstall {
    make_install(r"C:\g\node_modules\@deepseek-ai\dsh\lib\bin.js".to_string(), true)
}

#[test]
fn looking_for_an_update() {
    let answer: Result<Queried, String> = Ok(Queried {
        out: b"0.1.5\n".to_vec(),
        err: vec![],
        success: true,
        status: "0".to_string(),
    });
    assert_eq!(get_latest_dsh_version(&answer), Ok("0.1.5".to_string()));
    let r = update_check(some("0.1.4"), Ok("0.1.5".to_string()));
    assert_eq!((r.installed, r.latest, r.error), (some("0.1.4"), some("0.1.5"), None));
    let r = update_check(None, Err("e".to_string()));
    assert_eq!((r.installed, r.latest, r.error), (None, None, some("e")));
}

#[test]
fn targets() {
    let facts = |root: bool, package: Option<bool>, prefix: Option<(&str, bool)>| TargetFacts {
        root_writable: root,
        package_writable: package,
        prefix: prefix.map(|(p, w)| (p.to_string(), w)),
    };
    assert_eq!(
        package_dir(&local()).as_deref(),
        Some(r"C:\r\node_modules\@deepseek-ai\dsh")
    );
    let t = |i: Option<DshInstall>, f: TargetFacts| update_target(&i, &f);
    assert_eq!(t(Some(local()), facts(true, Some(true), None)), ("C:\\r".to_string(), true));
    assert_eq!(t(Some(local()), facts(true, Some(false), None)), ("C:\\r".to_string(), false));
    assert_eq!(t(Some(local()), facts(false, Some(true), None)), ("C:\\r".to_string(), false));
    assert_eq!(t(Some(local()), facts(true, None, None)), ("C:\\r".to_string(), true));
    assert_eq!(t(None, facts(true, None, Some(("P", true)))), ("P".to_string(), true));
    assert_eq!(t(None, facts(true, None, None)), (String::new(), false));

    let p = UpdatePreflight::collect(
        &Some(local()),
        &facts(true, Some(false), None),
        some("1"),
        false,
        DshState::Running,
    );
    assert_eq!(p.target_dir, "C:\\r");
    assert!(!p.writable && p.needs_admin && p.dsh_running && !p.is_global && !p.is_elevated);
    assert_eq!(p.installed, some("1"));
    let p = UpdatePreflight::collect(
        &None,
        &facts(false, None, Some(("P", false))),
        None,
        true,
        DshState::ForeignPort,
    );
    assert!(p.is_global && !p.needs_admin && !p.dsh_running && p.is_elevated);
}

const UNWRITABLE: &str = "目标目录不可写，更新无法完成：\nC:\\r\n\n该目录对当前用户只开放「读取+执行」权限，npm install -g 会被系统拒绝。\n任选一种方式解决：\n1. 回到设置页点「以管理员身份重启启动器」，再重新更新（推荐）\n2. 改为装到用户目录：npm config set prefix \"%APPDATA%\\npm\" 后重新安装\n3. 以管理员身份执行一次授权：\n   icacls \"C:\\r\" /grant *S-1-5-32-545:(OI)(CI)M";
const RUNNING: &str = "更新前需要先停止 DSH：Windows 上运行中的 node 会占用待替换的文件，直接覆盖会失败。请先在首页点「关闭 Web 界面」，或选择「停止并更新」";

#[test]
fn what_stands_in_the_way() {
    assert_eq!(ensure_writable_for_install("", false), Ok(()));
    assert_eq!(ensure_writable_for_install("C:\\r", true), Ok(()));
    assert_eq!(
        ensure_writable_for_install("C:\\r", false).err(),
        some(UNWRITABLE)
    );
    assert_eq!(ensure_dsh_stopped_for_install(DshState::Stopped), Ok(()));
    assert_eq!(ensure_dsh_stopped_for_install(DshState::ForeignPort), Ok(()));
    assert_eq!(
        ensure_dsh_stopped_for_install(DshState::Running).err(),
        some(RUNNING)
    );
}

#[test]
fn updating_dsh() {
    let args = ["install", "@deepseek-ai/dsh@latest", "--no-audit", "--no-fund"];
    let global_args = ["install", "-g", "@deepseek-ai/dsh@latest", "--no-audit", "--no-fund"];
    assert_eq!(install_args(false), list(&args));
    assert_eq!(install_args(true), list(&global_args));
    let s = update_dsh(&Some(local()), DshState::Stopped, true).ok().unwrap();
    assert_eq!(s.args, list(&args));
    assert_eq!(s.dir, some("C:\\r"));
    let s = update_dsh(&Some(global()), DshState::Stopped, true).ok().unwrap();
    assert_eq!(s.args, list(&global_args));
    assert_eq!(s.dir, None);
    assert_eq!(
        update_dsh(&None, DshState::Running, true).err(),
        some("未安装 DSH，请先点击「未安装 DSH」一键安装")
    );
    assert_eq!(
        update_dsh(&Some(local()), DshState::Running, false).err(),
        some(RUNNING)
    );
    assert_eq!(
        update_dsh(&Some(local()), DshState::Stopped, false).err(),
        some(UNWRITABLE)
    );
    assert_eq!(
        updated("1", &Ok(()), &some("2")),
        Ok(("1".to_string(), "2".to_string()))
    );
    let lost = some("npm 已执行完成，但更新后未能识别到 DSH 版本号");
    assert_eq!(updated("1", &Ok(()), &None).err(), lost);
    assert_eq!(updated("1", &Ok(()), &some("")).err(), lost);
    assert_eq!(updated("1", &Err("e".to_string()), &some("2")).err(), some("e"));
}

#[test]
fn installing_dsh() {
    assert_eq!(
        install_dsh(DshState::Stopped, "", false),
        Ok(install_args(true))
    );
    assert_eq!(install_dsh(DshState::Running, "", true).err(), some(RUNNING));
    assert_eq!(
        install_dsh(DshState::Stopped, "C:\\r", false).err(),
        some(UNWRITABLE)
    );
    assert_eq!(installed(&Ok(()), &some("2")), Ok("2".to_string()));
    assert_eq!(
        installed(&Ok(()), &None).err(),
        some("npm 安装已执行成功，但未识别到 DSH 程序文件，请检查 npm 输出")
    );
    assert_eq!(installed(&Err("e".to_string()), &None).err(), some("e"));
}

#[test]
fn lines_for_the_log() {
    assert_eq!(
        update_start_line("1", "C:\\r", true),
        "开始更新 DSH：当前 v1，目标目录 C:\\r（全局=true）"
    );
    assert_eq!(
        update_start_line("", "C:\\r", false),
        "开始更新 DSH：当前 v，目标目录 C:\\r（全局=false）"
    );
    assert_eq!(install_start_line("P"), "开始全局安装 DSH，目标目录 P");
    assert_eq!(
        update_log_line(&Ok(("1".to_string(), "2".to_string()))),
        "DSH 更新完成：v1 → v2"
    );
    assert_eq!(update_log_line(&Err("a\nb".to_string())), "DSH 更新失败：a b");
    assert_eq!(install_log_line(&Ok("2".to_string())), "DSH 安装完成：v2");
    assert_eq!(install_log_line(&Err("a\nb".to_string())), "DSH 安装失败：a b");
}

fn facts() -> CheckFacts {
    CheckFacts {
        node: true,
        install: Some(local()),
        npm_cache: some("C:\\cache"),
        pnpm: true,
        proxy_enabled: true,
        proxy_server: "p:1".to_string(),
        load_error: None,
        target: ("C:\\r".to_string(), true),
        elevated: true,
        state: DshState::Running,
        port: 3080,
        owner: None,
    }
}

fn shown(f: &CheckFacts) -> (Vec<String>, bool) {
    let r = run_checks(f);
    (
        r.items
            .iter()
            .map(|i| format!("{}|{}|{}", i.name, i.status, i.detail))
            .collect(),
        r.running,
    )
}

#[test]
fn checks_when_all_is_well() {
    let (items, running) = shown(&facts());
    assert!(running);
    assert_eq!(
        items,
        vec![
            "Node.js 环境|OK|已找到 node",
            "DSH 程序文件|OK|已识别安装位置：C:\\r",
            "npm 缓存|INFO|位于 C:\\cache",
            "pnpm 环境|OK|已找到 pnpm，插件管理可用",
            "系统代理|INFO|已启用：p:1",
            "运行权限|INFO|以管理员身份运行（受保护目录可写）",
            "更新权限|OK|C:\\r 可写，DSH 可直接更新/安装",
            "运行状态|INFO|DSH 正在运行：http://127.0.0.1:3080",
        ]
    );
}

#[test]
fn checks_when_all_is_wrong() {
    let f = CheckFacts {
        node: false,
        install: None,
        npm_cache: None,
        pnpm: false,
        proxy_enabled: true,
        proxy_server: String::new(),
        load_error: some("bad file"),
        target: ("C:\\r".to_string(), false),
        elevated: false,
        state: DshState::ForeignPort,
        port: 3080,
        owner: some("x.exe（PID 5）"),
    };
    let (items, running) = shown(&f);
    assert!(!running);
    assert_eq!(
        items,
        vec![
            "Node.js 环境|FAIL|未找到 node，请先安装 Node.js",
            "DSH 程序文件|FAIL|未找到 DSH，请点击右上角「未安装 DSH」一键安装，或手动执行：npm install -g @deepseek-ai/dsh",
            "npm 缓存|WARN|无法读取 npm 缓存路径",
            "pnpm 环境|WARN|未找到 pnpm，插件安装/更新不可用（DSH 本体功能不受影响）；请执行 npm install -g pnpm",
            "系统代理|INFO|系统代理未启用",
            "settings.json|WARN|bad file（已临时使用默认配置，修复保存后重启启动器生效）",
            "运行权限|INFO|普通用户运行；若下面的「更新权限」为 WARN，可用设置页的「以管理员身份重启启动器」解决",
            "更新权限|WARN|C:\\r 对当前用户不可写（只有读+执行权限），更新 DSH 会因权限被拒；可在设置页点「以管理员身份重启启动器」后再更新",
            "运行状态|INFO|端口 3080 被其他程序占用（非 DSH 进程），占用者：x.exe（PID 5）；可在首页结束该进程，或在设置页修改 Web 端口",
        ]
    );
    let mut f = facts();
    f.target = (String::new(), false);
    f.state = DshState::Stopped;
    let (items, running) = shown(&f);
    assert!(!running);
    assert_eq!(items[6], "更新权限|WARN|未能识别 DSH 安装目录（尚未安装？）");
    assert_eq!(items[7], "运行状态|INFO|DSH 未运行，可点击上方按钮启动");
}

#[test]
fn fixes() {
    assert_eq!(
        fix_commands(false, false),
        list(&[
            "请先安装 Node.js（官网下载 LTS 版）：https://nodejs.org/",
            "npm install -g @deepseek-ai/dsh"
        ])
    );
    assert!(fix_commands(true, true).is_empty());
}
