use dsh_launcher::launch::{
    get_web_cmd, open_url, open_web_log, read_web_log, restart_dsh, spawn_web, start_tui, start_web,
    stop_web, tail_file, tail_start, trial_step, tui_args, tui_diagnose, url_opened, web_answer,
    web_args, web_exit_message, web_log_path, web_start_line, RestartEvidence, RestartStep,
    StopEvidence, StopStep, TrialStep, TuiEvidence, TuiStep, TuiTrial, WebStep, WEB_LOG_LIMIT,
    WEB_LOG_SHOWN, WEB_LOG_TOLD, WEB_WAIT,
};
use dsh_launcher::process::DshState;

fn some(t: &str) -> Option<String> {
    Some(t.to_string())
}

#[test]
fn the_web_log() {
    assert_eq!(web_log_path(&some("C:\\app"), "C:\\cwd"), "C:\\app\\web.log");
    assert_eq!(web_log_path(&None, "C:\\cwd"), "C:\\cwd\\web.log");
    assert!(open_web_log(WEB_LOG_LIMIT + 1));
    assert!(!open_web_log(1024 * 1024));
    assert_eq!(WEB_LOG_SHOWN, 256 * 1024);
    assert_eq!(tail_start(10_000, WEB_LOG_TOLD), 10_000 - 8192);
    assert_eq!(tail_start(5, 8192), 0);
    assert_eq!(tail_file(b"\xb8\xad a"), "\u{fffd}\u{fffd} a");
    assert_eq!(read_web_log(None), (String::new(), false));
    assert_eq!(read_web_log(Some("中".as_bytes())), ("中".to_string(), true));
    assert_eq!(web_start_line(7), "==== DSH web 启动（PID 7）====");
}

#[test]
fn starting_the_web_mode() {
    assert_eq!(
        web_args(&some("b.js")),
        Ok(vec!["b.js".to_string(), "web".to_string(), "--no-open".to_string()])
    );
    assert_eq!(web_args(&None).err(), some("未找到 dsh CLI 入口文件"));
    assert_eq!(WEB_WAIT, 8000);
    assert!(spawn_web(true, true, 9, 8) == WebStep::Started);
    assert!(spawn_web(false, true, 9, 8) == WebStep::Exited);
    assert!(spawn_web(false, false, 8, 8) == WebStep::Starting);
    assert!(spawn_web(false, false, 7, 8) == WebStep::Sleep);
    assert_eq!(
        web_exit_message("1", " \n"),
        "DSH 启动后立即退出（退出码 1），web.log 无输出"
    );
    assert_eq!(
        web_exit_message("1", " a\nb \n"),
        "DSH 启动失败（退出码 1）\n\n--- web.log 末尾 ---\na\nb"
    );
    assert_eq!(web_answer(WebStep::Started), Some("started"));
    assert_eq!(web_answer(WebStep::Starting), Some("starting"));
    assert_eq!(web_answer(WebStep::Exited), None);
    assert_eq!(web_answer(WebStep::Sleep), None);
    assert_eq!(start_web(DshState::Running, 3080), Ok(some("already-running")));
    assert_eq!(start_web(DshState::Stopped, 3080), Ok(None));
    assert_eq!(
        start_web(DshState::ForeignPort, 3080).err(),
        some("端口 3080 已被其他程序占用，无法启动 DSH。可停止占用程序，或在 settings.json 中修改 webPort")
    );
}

#[test]
fn the_terminal_mode() {
    let lines: Vec<String> = (0..20).map(|i| format!("e{}\n\n", i)).collect();
    let expected: Vec<String> = (5..20).map(|i| format!("e{}", i)).collect();
    assert_eq!(
        tui_diagnose(&TuiTrial::Exited("1".to_string(), lines.concat())),
        expected.join("\n")
    );
    assert_eq!(
        tui_diagnose(&TuiTrial::Exited("1".to_string(), " \n".to_string())),
        "（退出码 1，无 stderr 输出）"
    );
    assert_eq!(tui_diagnose(&TuiTrial::StillRuns), "（诊断运行 6 秒未退出，可能已正常启动）");
    assert_eq!(tui_diagnose(&TuiTrial::NoFile("e".to_string())), "诊断日志创建失败：e");
    assert_eq!(tui_diagnose(&TuiTrial::NotStarted("e".to_string())), "诊断执行失败：e");
}

fn tui_told(ev: &TuiEvidence) -> Result<String, String> {
    match start_tui(ev) {
        TuiStep::Done(r) => r,
        _ => panic!("not done"),
    }
}

#[test]
fn starting_the_terminal_mode() {
    let mut ev = TuiEvidence {
        has_profile: false,
        installed: None,
        bin: None,
        spawned: None,
        exited: None,
        diagnosis: None,
    };
    assert!(matches!(
        start_tui(&ev),
        TuiStep::Install(a) if a == vec!["add", "@deepseek-harness-tui/dsh-tui"]
    ));
    ev.installed = Some(Err("x".to_string()));
    assert_eq!(tui_told(&ev).err(), some("TUI 自动安装失败：x"));
    ev.installed = Some(Ok(()));
    assert!(matches!(start_tui(&ev), TuiStep::AskBin));
    ev.installed = None;
    ev.has_profile = true;
    assert!(matches!(start_tui(&ev), TuiStep::AskBin));
    ev.bin = Some(None);
    assert_eq!(tui_told(&ev).err(), some("未找到 dsh CLI 入口文件"));
    ev.bin = Some(some("b.js"));
    assert!(matches!(start_tui(&ev), TuiStep::Spawn(a) if a == tui_args("b.js")));
    assert_eq!(tui_args("b.js"), vec!["b.js", "--profile", "dsh-tui"]);
    ev.spawned = Some(Err("no".to_string()));
    assert_eq!(tui_told(&ev).err(), some("启动失败：no"));
    ev.spawned = Some(Ok(7));
    assert!(matches!(start_tui(&ev), TuiStep::Watch));
    ev.exited = Some(None);
    assert_eq!(
        tui_told(&ev),
        Ok("TUI 已启动（PID 7），请在弹出的命令行窗口中操作".to_string())
    );
    ev.exited = Some(some("1"));
    assert!(matches!(start_tui(&ev), TuiStep::Diagnose));
    ev.diagnosis = some("d");
    assert_eq!(
        tui_told(&ev).err(),
        some("TUI 启动失败（退出码 1）\n\n--- 诊断输出 ---\nd")
    );
    ev.diagnosis = some("");
    assert_eq!(tui_told(&ev).err(), some("TUI 启动失败（退出码 1）"));
}

fn stopped(ev: &StopEvidence) -> Result<String, String> {
    match stop_web(3080, ev) {
        StopStep::Done(r) => r,
        _ => panic!("not done"),
    }
}

#[test]
fn stopping() {
    let mut ev = StopEvidence {
        listening: None,
        chosen: None,
        kills: None,
        released: None,
    };
    assert!(matches!(stop_web(3080, &ev), StopStep::AskListening));
    ev.listening = Some(false);
    assert_eq!(stopped(&ev), Ok("not-running".to_string()));
    ev.listening = Some(true);
    assert!(matches!(stop_web(3080, &ev), StopStep::Choose));
    ev.chosen = Some(vec![]);
    assert_eq!(
        stopped(&ev).err(),
        some("端口 3080 被其他程序占用，无法安全终止（启动器只终止 DSH 进程）")
    );
    ev.chosen = Some(vec![1, 2]);
    assert!(matches!(stop_web(3080, &ev), StopStep::Kill));
    ev.kills = Some(vec![Ok(()), Ok(())]);
    assert!(matches!(stop_web(3080, &ev), StopStep::AwaitRelease));
    ev.released = Some(true);
    assert_eq!(stopped(&ev), Ok("stopped:2".to_string()));
    ev.released = Some(false);
    assert_eq!(stopped(&ev).err(), some("still-running"));
    ev.kills = Some(vec![Err("a".to_string()), Ok(()), Err("b".to_string())]);
    assert_eq!(stopped(&ev).err(), some("a\nb"));
}

fn restarted(ev: &RestartEvidence) -> Result<String, String> {
    match restart_dsh(3080, ev) {
        RestartStep::Done(r) => r,
        _ => panic!("not done"),
    }
}

#[test]
fn restarting() {
    let mut ev = RestartEvidence {
        chosen: None,
        kills: None,
        released: None,
        spawned: None,
    };
    assert!(matches!(restart_dsh(3080, &ev), RestartStep::Choose));
    ev.chosen = Some(vec![]);
    assert!(matches!(restart_dsh(3080, &ev), RestartStep::Kill));
    ev.kills = Some(vec![]);
    assert!(matches!(restart_dsh(3080, &ev), RestartStep::AwaitRelease));
    ev.released = Some(false);
    assert_eq!(
        restarted(&ev).err(),
        some("端口 3080 被其他程序占用，无法重启 DSH。可修改 webPort 或停止占用程序")
    );
    ev.chosen = Some(vec![1]);
    ev.kills = Some(vec![Ok(())]);
    assert_eq!(restarted(&ev).err(), some("still-running"));
    ev.released = Some(true);
    assert!(matches!(restart_dsh(3080, &ev), RestartStep::Spawn));
    ev.spawned = Some(Ok("started".to_string()));
    assert_eq!(restarted(&ev), Ok("ok".to_string()));
    ev.spawned = Some(Ok("starting".to_string()));
    assert_eq!(restarted(&ev), Ok("starting".to_string()));
    ev.spawned = Some(Err("e".to_string()));
    assert_eq!(restarted(&ev).err(), some("e"));
}

#[test]
fn opening_links() {
    assert_eq!(open_url(" https://x/?a=1&b=2 "), Ok("https://x/?a=1&b=2".to_string()));
    assert_eq!(open_url("http://x"), Ok("http://x".to_string()));
    for bad in ["ftp://x", "file:///c", "", "http://a\nb", "http://a\u{7f}"] {
        assert_eq!(open_url(bad).err(), some("仅支持打开 http/https 链接"));
    }
    assert_eq!(url_opened(true), Ok("opened".to_string()));
    assert_eq!(url_opened(false).err(), some("系统无法打开该链接"));
    assert_eq!(get_web_cmd(&some("C:\\a b\\bin.js")), Ok("node \"C:\\a b\\bin.js\" web".to_string()));
    assert_eq!(get_web_cmd(&None).err(), some("未找到 dsh CLI 入口文件"));
}

#[test]
fn trial_steps() {
    assert!(matches!(trial_step(true, 9, 3), TrialStep::Exited));
    assert!(matches!(trial_step(false, 3, 3), TrialStep::StillRuns));
    assert!(matches!(trial_step(false, 2, 3), TrialStep::Sleep));
}
