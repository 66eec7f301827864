use dsh_launcher::json::parse;
use dsh_launcher::npm::{
    apply_registry, clear_which_cache, exit_line, failure_of, npm_failure_message, npm_program,
    npm_timeout_line, npm_view_publish_time, npm_view_version, run_cmd_streaming, run_npm,
    run_npm_query, time_of, version_in, wait_step, which, Ended, LineTail, Polled, Queried, WaitStep,
    WhichCache, COMMAND_MINUTES, NPM_SECONDS, NPM_VIEW_SECONDS, TAIL_KEEP, WHICH_NEGATIVE_TTL,
};

fn some(t: &str) -> Option<String> {
    Some(t.to_string())
}

#[test]
fn found_programs_are_remembered() {
    let mut cache = WhichCache::new();
    assert_eq!(which(&cache, "node", 0), None);
    cache.remember("node", true, 10);
    cache.remember("pnpm", false, 10);
    assert_eq!(which(&cache, "node", 10_000_000), Some(true));
    assert_eq!(which(&cache, "pnpm", 10 + WHICH_NEGATIVE_TTL - 1), Some(false));
    assert_eq!(which(&cache, "pnpm", 10 + WHICH_NEGATIVE_TTL), None);
    cache.remember("pnpm", true, 20);
    assert_eq!(which(&cache, "pnpm", 999_999), Some(true));
    clear_which_cache(&mut cache);
    assert_eq!(which(&cache, "node", 0), None);
}

#[test]
fn programs_and_registry() {
    assert_eq!(npm_program(true), "npm.cmd");
    assert_eq!(npm_program(false), "npm");
    assert_eq!(apply_registry(""), None);
    assert_eq!(
        apply_registry("https://r"),
        Some(("npm_config_registry".to_string(), "https://r".to_string()))
    );
}

#[test]
fn waiting() {
    assert!(wait_step(Polled::Exited, 9, 5) == WaitStep::Finish);
    assert!(wait_step(Polled::Running, 4, 5) == WaitStep::Sleep);
    assert!(wait_step(Polled::Running, 5, 5) == WaitStep::TimeOut);
    assert!(wait_step(Polled::Failed, 0, 5) == WaitStep::GiveUp);
    assert_eq!((COMMAND_MINUTES, NPM_SECONDS, NPM_VIEW_SECONDS), (30, 15, 30));
}

fn tail(lines: &[&str]) -> LineTail {
    let mut t = LineTail::new();
    for l in lines {
        t.push(l.to_string());
    }
    t
}

#[test]
fn the_last_lines_are_kept() {
    let mut t = LineTail::new();
    for i in 0..TAIL_KEEP + 3 {
        t.push(format!("{}", i));
    }
    assert_eq!(t.tail(2), "201\n202");
    assert_eq!(t.tail(1000).lines().count(), TAIL_KEEP);
    assert!(t.tail(1000).starts_with("3\n"));
    assert_eq!(t.tail(0), "");
    assert_eq!(LineTail::new().tail(5), "");
}

#[test]
fn commands_end() {
    let none = || LineTail::new();
    let run = |e: Ended, o: &LineTail, r: &LineTail| run_cmd_streaming("npm", &e, o, r).err();
    assert_eq!(run(Ended::Exited(true, "0".to_string()), &none(), &none()), None);
    assert_eq!(
        run(Ended::NotStarted("e".to_string()), &none(), &none()),
        some("npm 启动失败：e")
    );
    assert_eq!(
        run(Ended::TimedOut, &none(), &none()),
        some("npm 超时（30 分钟），已终止子进程")
    );
    assert_eq!(
        run(Ended::WaitFailed("e".to_string()), &none(), &none()),
        some("npm 等待失败：e")
    );
    let bad = || Ended::Exited(false, "exit code: 1".to_string());
    assert_eq!(
        run(bad(), &none(), &none()),
        some("npm 执行失败（退出码 exit code: 1）")
    );
    assert_eq!(
        run(bad(), &tail(&["1", "2", "3", "4", "5", "6"]), &none()),
        some("npm 执行失败（退出码 exit code: 1）\n--- 输出末尾 ---\n2\n3\n4\n5\n6")
    );
    assert_eq!(
        run(bad(), &tail(&["1"]), &tail(&["x", "y"])),
        some("npm 执行失败（退出码 exit code: 1）\n--- 错误输出末尾 ---\nx\ny")
    );
    assert_eq!(exit_line("npm", "exit code: 0"), "----- npm 退出码：exit code: 0 -----");
}

#[test]
fn queries_end() {
    let ok = || Ended::Exited(false, "1".to_string());
    assert_eq!(run_npm(&ok()), Ok(()));
    assert_eq!(run_npm(&Ended::TimedOut).err(), some("npm 查询超时（15 秒）"));
    assert_eq!(run_npm(&Ended::NotStarted("e".to_string())).err(), some("e"));
    assert_eq!(run_npm(&Ended::WaitFailed("w".to_string())).err(), some("w"));
    assert_eq!(
        npm_timeout_line(&vec!["root".to_string(), "-g".to_string()]),
        "npm root -g 查询超时（15 秒）"
    );
    assert_eq!(run_npm_query(&ok(), 30), Ok(()));
    assert_eq!(
        run_npm_query(&Ended::TimedOut, 30).err(),
        some("npm 查询超时（30 秒），registry 响应过慢")
    );
    assert_eq!(
        run_npm_query(&Ended::NotStarted("e".to_string()), 30).err(),
        some("npm 启动失败：e")
    );
    assert_eq!(
        run_npm_query(&Ended::WaitFailed("e".to_string()), 30).err(),
        some("npm 等待失败：e")
    );
}

#[test]
fn failures_of_npm() {
    assert_eq!(failure_of("npm view", "1", " \n"), "npm view 失败（退出码 1）");
    let err: Vec<String> = (0..12).map(|i| format!("l{}\r\n \r\n", i)).collect();
    assert_eq!(
        failure_of("npm view", "1", &err.concat()),
        "npm view 失败（退出码 1）：\nl4\nl5\nl6\nl7\nl8\nl9\nl10\nl11"
    );
    assert_eq!(
        npm_failure_message("npm view", "1", b"a\xff\n"),
        "npm view 失败（退出码 1）：\na\u{fffd}"
    );
}

fn answer(out: &[u8], err: &[u8], success: bool) -> Result<Queried, String> {
    Ok(Queried {
        out: out.to_vec(),
        err: err.to_vec(),
        success,
        status: "exit code: 1".to_string(),
    })
}

#[test]
fn versions_of_packages() {
    assert_eq!(version_in("warn\n 1.2.3 \n\n"), Ok("1.2.3".to_string()));
    assert_eq!(version_in(" \n").err(), some("npm view 无输出"));
    assert_eq!(npm_view_version(&answer(b"1.0.0\r\n", b"", true)), Ok("1.0.0".to_string()));
    assert_eq!(
        npm_view_version(&answer(b"1.0.0", b"E404", false)).err(),
        some("npm view 失败（退出码 exit code: 1）：\nE404")
    );
    assert_eq!(npm_view_version(&Err("gone".to_string())).err(), some("gone"));
}

#[test]
fn times_of_versions() {
    let times = b"{\"created\":\"x\",\"1.0.0\":\"2026-09-10T06:53:19.720Z\",\"2.0.0\":5}";
    assert_eq!(
        npm_view_publish_time(&answer(times, b"", true), "1.0.0").as_deref(),
        Some("2026-09-10T06:53:19.720Z")
    );
    assert_eq!(npm_view_publish_time(&answer(times, b"", true), "2.0.0"), None);
    assert_eq!(npm_view_publish_time(&answer(times, b"", true), "3.0.0"), None);
    assert_eq!(npm_view_publish_time(&answer(times, b"", false), "1.0.0"), None);
    assert_eq!(npm_view_publish_time(&answer(b"oops", b"", true), "1.0.0"), None);
    assert_eq!(npm_view_publish_time(&Err("e".to_string()), "1.0.0"), None);
    assert_eq!(time_of(&parse("{\"a\":\"b\"}").unwrap(), "a").as_deref(), Some("b"));
}
