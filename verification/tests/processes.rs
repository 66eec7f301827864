use dsh_launcher::process::{
    dsh_pids_for_termination, dsh_running_for_backup, dsh_running_for_restore, dsh_state,
    filter_dsh_pids, filter_query, find_dsh_pids, identity_in, identity_query, is_dsh_response,
    kill_port_owner, listeners_in, looks_like_dsh_response, pids_in, port_owner_info,
    probe_reads_on, probe_request, process_identity, release_step, state_name, track_dsh_pid,
    tracked_dsh_running, untrack_dsh_pid, DshState, KillEvidence, KillStep, PortOwnerInfo,
    ReleaseStep, StateEvidence, StateMemory, StateStep, Termination,
};

#[test]
fn process_filter_fails_closed_without_verified_binary() {
    let pids = vec![1234, 5678];
    assert!(filter_dsh_pids(&pids, "", Some(b"1234\n")).is_empty());
    assert!(filter_dsh_pids(&vec![], "some-bin", Some(b"1234\n")).is_empty());
}

#[test]
fn process_filter_answers() {
    let pids = vec![1234, 5678];
    assert_eq!(filter_query(&pids, ""), None);
    assert_eq!(filter_query(&vec![], "b"), None);
    assert_eq!(
        filter_query(&pids, "C:\\it's\\bin.js").as_deref(),
        Some("Get-CimInstance Win32_Process -Filter 'ProcessId=1234 or ProcessId=5678' | Where-Object { $_.CommandLine -and ($_.CommandLine.IndexOf('C:\\it''s\\bin.js', [System.StringComparison]::OrdinalIgnoreCase) -ge 0) } | ForEach-Object { [int]$_.ProcessId }")
    );
    assert_eq!(
        filter_dsh_pids(&pids, "b", Some(b" 5678 \r\n99\r\nx\r\n1234\r\n")),
        vec![5678, 1234]
    );
    assert!(filter_dsh_pids(&pids, "b", None).is_empty());
    assert_eq!(pids_in("5678", &pids), vec![5678]);
}

#[test]
fn recognizes_dsh_web_response() {
    let real = b"HTTP/1.1 401 Unauthorized\r\ncache-control: no-store\r\n\
content-type: text/plain; charset=utf-8\r\nVary: Accept-Encoding\r\n\r\n\
dsh web authentication required; reopen the URL printed by dsh web.";
    assert!(looks_like_dsh_response(real), "真实 401 响应必须被识别");
    assert!(looks_like_dsh_response(b"HTTP/1.1 200 OK\r\n\r\nDSH Web"));
    assert!(!looks_like_dsh_response(
        b"HTTP/1.1 200 OK\r\n\r\n<html>nginx</html>"
    ));
    assert!(!looks_like_dsh_response(b""));
    assert!(!looks_like_dsh_response(b"not http at all"));
}

#[test]
fn responses_in_bytes() {
    assert!(looks_like_dsh_response(b"\xff\xfedSh WEb\xff"));
    assert!(is_dsh_response("a dsh web b"));
    assert!(!is_dsh_response("dsh  web"));
    assert_eq!(
        probe_request(3080),
        "GET / HTTP/1.0\r\nHost: 127.0.0.1:3080\r\nConnection: close\r\n\r\n"
    );
}

#[test]
fn pids_are_tracked_once() {
    let mut pids = vec![];
    track_dsh_pid(&mut pids, 5);
    track_dsh_pid(&mut pids, 6);
    track_dsh_pid(&mut pids, 5);
    assert_eq!(pids, vec![5, 6]);
    untrack_dsh_pid(&mut pids, 5);
    untrack_dsh_pid(&mut pids, 9);
    assert_eq!(pids, vec![6]);
    assert!(tracked_dsh_running(&mut pids, &vec![6, 7]));
    assert!(dsh_running_for_backup(&mut pids, &vec![6]));
    assert!(!dsh_running_for_backup(&mut pids, &vec![]));
    assert!(pids.is_empty());
    assert!(!dsh_running_for_restore(&mut pids, &vec![], false));
    assert!(dsh_running_for_restore(&mut pids, &vec![], true));
}

fn signs() -> StateEvidence {
    StateEvidence {
        alive: vec![],
        listening: None,
        mine: None,
        probe: None,
    }
}

#[test]
fn states() {
    let mut mem = StateMemory {
        pids: vec![7],
        foreign_until: Some(50),
    };
    let mut ev = signs();
    ev.alive = vec![7];
    assert!(dsh_state(&mut mem, &ev, 0) == StateStep::Known(DshState::Running));
    let mut ev = signs();
    assert!(dsh_state(&mut mem, &ev, 0) == StateStep::AskListening);
    assert!(mem.pids.is_empty());
    ev.listening = Some(true);
    assert!(dsh_state(&mut mem, &ev, 49) == StateStep::Known(DshState::ForeignPort));
    assert!(dsh_state(&mut mem, &ev, 50) == StateStep::AskMine);
    ev.mine = Some(vec![]);
    assert!(dsh_state(&mut mem, &ev, 50) == StateStep::AskProbe);
    ev.probe = Some(true);
    assert!(dsh_state(&mut mem, &ev, 50) == StateStep::Known(DshState::Running));
    assert!(mem.pids.is_empty());
    ev.probe = Some(false);
    assert!(dsh_state(&mut mem, &ev, 50) == StateStep::Known(DshState::ForeignPort));
    assert_eq!(mem.foreign_until, Some(30_050));
    ev.listening = Some(false);
    assert!(dsh_state(&mut mem, &ev, 60) == StateStep::Known(DshState::Stopped));
    assert_eq!(mem.foreign_until, None);
    let mut ev = signs();
    ev.listening = Some(true);
    ev.mine = Some(vec![8, 9]);
    assert!(dsh_state(&mut mem, &ev, 70) == StateStep::Known(DshState::Running));
    assert_eq!(mem.pids, vec![8, 9]);
    assert_eq!(state_name(DshState::Running), "running");
    assert_eq!(state_name(DshState::ForeignPort), "foreign-port");
    assert_eq!(state_name(DshState::Stopped), "stopped");
}

const NETSTAT: &str = "\r\n  Proto  Local Address   Foreign Address   State   PID\r\n  TCP    0.0.0.0:3080     0.0.0.0:0     LISTENING       11\r\n  TCP    [::]:3080        [::]:0        LISTENING       11\r\n  TCP    127.0.0.1:30800  0.0.0.0:0     LISTENING       12\r\n  TCP    127.0.0.1:13080  0.0.0.0:0     LISTENING       13\r\n  TCP    127.0.0.1:3080   1.2.3.4:9     ESTABLISHED     14\r\n  UDP    0.0.0.0:3080     *:*           15\r\n  TCP    127.0.0.1:3080   0.0.0.0:0     LISTENING       16\r\n";

#[test]
fn listeners() {
    assert_eq!(listeners_in(NETSTAT, 3080), vec![11, 16]);
    assert_eq!(find_dsh_pids(Some(NETSTAT.as_bytes()), 30800), vec![12]);
    assert_eq!(
        find_dsh_pids(Some(b"\xff\n TCP a:3080 b LISTENING 4294967296\n TCP a:+3080 b LISTENING +21"), 3080),
        vec![21]
    );
    assert!(find_dsh_pids(None, 3080).is_empty());
}

#[test]
fn only_dsh_is_ended() {
    let is = |t: Termination, p: &[u32]| matches!(t, Termination::Pids(v) if v == p.to_vec());
    let listening = vec![1, 2];
    assert!(is(dsh_pids_for_termination(&vec![], &vec![], None), &[]));
    assert!(is(dsh_pids_for_termination(&listening, &vec![2], None), &[2]));
    assert!(matches!(
        dsh_pids_for_termination(&listening, &vec![], None),
        Termination::AskProbe
    ));
    assert!(is(dsh_pids_for_termination(&listening, &vec![], Some(true)), &[1, 2]));
    assert!(is(dsh_pids_for_termination(&listening, &vec![], Some(false)), &[]));
}

#[test]
fn identities() {
    assert_eq!(
        identity_query(77),
        "[Console]::OutputEncoding=[Text.Encoding]::UTF8; Get-CimInstance Win32_Process -Filter 'ProcessId=77' | ForEach-Object { $_.Name + '|' + $_.ExecutablePath }"
    );
    let pair = |a: &str, b: &str| (a.to_string(), b.to_string());
    assert_eq!(identity_in("\r\n node.exe | C:\\中 文\\node.exe \r\nx|y"), pair("node.exe", "C:\\中 文\\node.exe"));
    assert_eq!(identity_in("System"), pair("System", ""));
    assert_eq!(identity_in(" \n"), pair("", ""));
    assert_eq!(process_identity(Some(b"a|b|c")), pair("a", "b|c"));
    assert_eq!(process_identity(None), pair("", ""));
}

#[test]
fn port_owners() {
    let id = |n: &str, p: &str| (n.to_string(), p.to_string());
    assert!(port_owner_info(&vec![], true, true, id("a", "b")).is_none());
    let o = port_owner_info(&vec![5, 6], false, true, id("nginx.exe", "C:\\n")).unwrap();
    assert_eq!(o.pid, 5);
    assert!(!o.is_dsh && o.likely_dsh);
    assert_eq!(o.describe(), "nginx.exe（PID 5）");
    let o = port_owner_info(&vec![5], true, true, id("", "C:\\n")).unwrap();
    assert!(o.is_dsh && !o.likely_dsh);
    assert_eq!(o.describe(), "C:\\n（PID 5）");
    let o = PortOwnerInfo {
        pid: 9,
        name: String::new(),
        path: String::new(),
        is_dsh: false,
        likely_dsh: false,
    };
    assert_eq!(o.describe(), "未知进程（PID 9）");
}

fn kill() -> KillEvidence {
    KillEvidence {
        listeners: None,
        verified: None,
        probe: None,
        name: None,
        killed: None,
        released: None,
    }
}

fn refused(pid: u32, ev: &KillEvidence) -> String {
    match kill_port_owner(pid, 100, 3080, ev) {
        KillStep::Done(Err(e)) => e,
        _ => panic!("not refused"),
    }
}

#[test]
fn ending_a_port_owner() {
    let mut ev = kill();
    for pid in [0, 4, 100] {
        assert_eq!(refused(pid, &ev), "拒绝终止系统进程或启动器自身");
    }
    let next = |ev: &KillEvidence| kill_port_owner(5, 100, 3080, ev);
    assert!(matches!(next(&ev), KillStep::AskListeners));
    ev.listeners = Some(vec![6]);
    assert_eq!(
        refused(5, &ev),
        "进程 5 已不再监听端口 3080（可能刚刚退出），请点「重新检测」"
    );
    ev.listeners = Some(vec![6, 5]);
    assert!(matches!(next(&ev), KillStep::AskVerified));
    ev.verified = Some(true);
    assert_eq!(refused(5, &ev), "该进程就是 DSH 自身，请改用「关闭 Web 界面」");
    ev.verified = Some(false);
    assert!(matches!(next(&ev), KillStep::AskProbe));
    ev.probe = Some(true);
    assert_eq!(
        refused(5, &ev),
        "该端口由 DSH 自身占用（可能以管理员权限运行），请改用「关闭 Web 界面」；若关闭失败，请点「以管理员身份重启启动器」后重试"
    );
    ev.probe = Some(false);
    assert!(matches!(next(&ev), KillStep::AskName));
    ev.name = Some("x.exe".to_string());
    assert!(matches!(next(&ev), KillStep::Kill(l) if l == "结束占用端口 3080 的进程：x.exe (PID 5)"));
    ev.killed = Some(Err("no".to_string()));
    assert_eq!(refused(5, &ev), "no");
    ev.killed = Some(Ok(()));
    assert!(matches!(next(&ev), KillStep::AwaitRelease));
    ev.released = Some(false);
    assert_eq!(
        refused(5, &ev),
        "已结束 x.exe (PID 5)，但端口 3080 仍被监听（可能存在多个占用者）"
    );
    ev.released = Some(true);
    ev.name = Some(String::new());
    assert!(matches!(next(&ev), KillStep::Done(Ok(t)) if t == "已结束 PID 5，端口 3080 已释放"));
}

#[test]
fn release_steps() {
    assert!(matches!(release_step(false, 0, 3), ReleaseStep::Free));
    assert!(matches!(release_step(true, 2, 3), ReleaseStep::Sleep));
    assert!(matches!(release_step(true, 3, 3), ReleaseStep::Held));
}

#[test]
fn probe_reading_ends() {
    assert!(probe_reads_on(1023, false));
    assert!(!probe_reads_on(1024, false));
    assert!(!probe_reads_on(0, true));
}
