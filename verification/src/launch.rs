//! Starting and stopping DSH: its web interface in the background, and its terminal interface.

use crate::npm::{last_lines, last_n, lines_said, said_lines};
use crate::numbers::{decimal, digits_of};
use crate::process::DshState;
use crate::text::{
    chars_of, control, is_ctrl, is_space, join, join_of, lines_of, opt_view, same, starts, trim,
    trim_of, views, Strip,
};
use crate::text_laws::{all_stripped, law_strip_takes_off_what_stands_round};
use crate::util::{beside, beside_exe, lossy, lossy_text};
use vstd::prelude::*;

verus! {

/// What is told where another start is under way.
pub const START_BUSY_MSG: &'static str = "另一个启动操作正在进行，请稍候…";

/// From this size on the log of the web interface is emptied at the next start.
pub const WEB_LOG_LIMIT: u64 = 0x10_0000;

/// How much of the log is shown to a reader.
pub const WEB_LOG_SHOWN: u64 = 0x4_0000;

/// How much of the log is told where a start failed.
pub const WEB_LOG_TOLD: u64 = 8192;

/// The path of the log of the web interface.
pub fn web_log_path(exe_dir: &Option<String>, cwd: &str) -> (r: String)
    ensures
        r@ == beside(opt_view(*exe_dir), cwd@, "web.log"@),
{
    beside_exe(exe_dir, cwd, "web.log")
}

/// Whether the log of the web interface is to be emptied.
pub open spec fn web_log_full(len: u64) -> bool {
    len > WEB_LOG_LIMIT
}

/// Whether the log of the web interface is to be emptied.
pub fn open_web_log(len: u64) -> (r: bool)
    ensures
        r == web_log_full(len),
{
    len > WEB_LOG_LIMIT
}

/// Where the last `max` bytes of a file of `len` bytes start.
pub open spec fn tail_from(len: u64, max: u64) -> u64 {
    if len > max {
        (len - max) as u64
    } else {
        0
    }
}

/// Where the last `max` bytes of a file of `len` bytes start.
pub fn tail_start(len: u64, max: u64) -> (r: u64)
    ensures
        r == tail_from(len, max),
{
    if len > max {
        len - max
    } else {
        0
    }
}

/// The end of a log as a text.
pub fn tail_file(bytes: &[u8]) -> (r: String)
    ensures
        r@ == lossy_text(bytes@),
{
    lossy(bytes)
}

/// The end of the log of the web interface, and whether there is a log.
pub fn read_web_log(bytes: Option<&[u8]>) -> (r: (String, bool))
    ensures
        r.1 == (bytes is Some),
        r.0@ == (match bytes {
            Some(b) => lossy_text(b@),
            None => Seq::empty(),
        }),
{
    match bytes {
        Some(b) => (tail_file(b), true),
        None => (String::new(), false),
    }
}

/// The line in the log of the web interface at a start.
pub fn web_start_line(pid: u32) -> (r: String)
    ensures
        r@ == "==== DSH web 启动（PID "@ + digits_of(pid as nat) + "）===="@,
{
    "==== DSH web 启动（PID ".to_owned().concat(decimal(pid as u64).as_str()).concat("）====")
}

/// The arguments of Node for the web interface, which opens no browser by itself.
pub fn web_args(bin: &Option<String>) -> (r: Result<Vec<String>, String>)
    ensures
        match bin {
            Some(b) => r matches Ok(v) && views(v@) == seq![b@, "web"@, "--no-open"@],
            None => r matches Err(m) && m@ == "未找到 dsh CLI 入口文件"@,
        },
{
    match bin {
        None => Err("未找到 dsh CLI 入口文件".to_owned()),
        Some(b) => {
            let mut v: Vec<String> = Vec::new();
            v.push(b.clone());
            v.push("web".to_owned());
            v.push("--no-open".to_owned());
            proof {
                assert(views(v@) =~= seq![b@, "web"@, "--no-open"@]);
            }
            Ok(v)
        },
    }
}

/// How long the web interface is waited for, in milliseconds.
pub const WEB_WAIT: u64 = 8_000;

/// What to do about a web interface that was started.
#[derive(PartialEq, Eq, Structural, Clone, Copy)]
pub enum WebStep {
    /// It is there: remember its process.
    Started,
    /// It ended: tell why.
    Exited,
    /// It is slow, but it runs.
    Starting,
    /// Wait a little and look again.
    Sleep,
}

/// What to do about a web interface that was started and is waited for until `deadline`.
pub open spec fn web_step(listening: bool, exited: bool, now: u64, deadline: u64) -> WebStep {
    if listening {
        WebStep::Started
    } else if exited {
        WebStep::Exited
    } else if now >= deadline {
        WebStep::Starting
    } else {
        WebStep::Sleep
    }
}

/// What to do about a web interface that was started and is waited for until `deadline`. One that
/// is slow is no failure.
pub fn spawn_web(listening: bool, exited: bool, now: u64, deadline: u64) -> (r: WebStep)
    ensures
        r == web_step(listening, exited, now, deadline),
{
    if listening {
        WebStep::Started
    } else if exited {
        WebStep::Exited
    } else if now >= deadline {
        WebStep::Starting
    } else {
        WebStep::Sleep
    }
}

/// Why a web interface ended, with the end of its log.
pub open spec fn web_exit(status: Seq<char>, log: Seq<char>) -> Seq<char> {
    let t = trim_of(log);
    if t.len() == 0 {
        "DSH 启动后立即退出（退出码 "@ + status + "），web.log 无输出"@
    } else {
        "DSH 启动失败（退出码 "@ + status + "）\n\n--- web.log 末尾 ---\n"@ + t
    }
}

/// Why a web interface ended, with the end of its log.
pub fn web_exit_message(status: &str, log: &str) -> (r: String)
    ensures
        r@ == web_exit(status@, log@),
{
    let t = trim(log);
    if t.is_empty() {
        "DSH 启动后立即退出（退出码 ".to_owned().concat(status).concat("），web.log 无输出")
    } else {
        "DSH 启动失败（退出码 ".to_owned().concat(status).concat(
            "）\n\n--- web.log 末尾 ---\n",
        ).concat(t)
    }
}

/// What is told of a web interface that was started, once it is there or slow to come.
pub fn web_answer(step: WebStep) -> (r: Option<&'static str>)
    ensures
        match r {
            Some(t) => (step == WebStep::Started && t@ == "started"@) || (step == WebStep::Starting
                && t@ == "starting"@),
            None => step == WebStep::Exited || step == WebStep::Sleep,
        },
{
    match step {
        WebStep::Started => Some("started"),
        WebStep::Starting => Some("starting"),
        _ => None,
    }
}

/// Whether the web interface is to be started: not where it runs, which is answered, and not where
/// something else holds its port.
pub fn start_web(state: DshState, port: u16) -> (r: Result<Option<String>, String>)
    ensures
        match state {
            DshState::Running => r matches Ok(Some(s)) && s@ == "already-running"@,
            DshState::Stopped => r matches Ok(None),
            DshState::ForeignPort => r matches Err(m) && m@ == "端口 "@ + digits_of(port as nat)
                + " 已被其他程序占用，无法启动 DSH。可停止占用程序，或在 settings.json 中修改 webPort"@,
        },
{
    match state {
        DshState::Running => Ok(Some("already-running".to_owned())),
        DshState::Stopped => Ok(None),
        DshState::ForeignPort => Err(
            "端口 ".to_owned().concat(decimal(port as u64).as_str()).concat(
                " 已被其他程序占用，无法启动 DSH。可停止占用程序，或在 settings.json 中修改 webPort",
            ),
        ),
    }
}

/// The profile of the terminal interface.
pub const TUI_PROFILE: &'static str = "dsh-tui";

/// The plugin that the terminal interface is.
pub const TUI_PACKAGE: &'static str = "@deepseek-harness-tui/dsh-tui";

/// What is told before the terminal interface is installed.
pub const TUI_INSTALLING: &'static str = "TUI 未安装，正在自动安装 @deepseek-harness-tui/dsh-tui …";

/// What is told behind its installation.
pub const TUI_INSTALLED: &'static str = "TUI 安装完成，正在启动…";

/// How long a terminal interface is watched that was started, in milliseconds.
pub const TUI_WATCH: u64 = 2_500;

/// How long a trial run of the terminal interface may take, in milliseconds.
pub const TRIAL_WAIT: u64 = 6_000;

/// What to do about a trial that was started.
#[derive(PartialEq, Eq, Structural, Clone, Copy)]
pub enum TrialStep {
    /// It ended: read what it said.
    Exited,
    /// It runs long enough: end it.
    StillRuns,
    /// Wait a little and look again.
    Sleep,
}

/// What to do about a trial that was started and is waited for until `deadline`.
pub open spec fn trial_next(exited: bool, now: u64, deadline: u64) -> TrialStep {
    if exited {
        TrialStep::Exited
    } else if now >= deadline {
        TrialStep::StillRuns
    } else {
        TrialStep::Sleep
    }
}

/// What to do about a trial that was started and is waited for until `deadline`.
pub fn trial_step(exited: bool, now: u64, deadline: u64) -> (r: TrialStep)
    ensures
        r == trial_next(exited, now, deadline),
{
    if exited {
        TrialStep::Exited
    } else if now >= deadline {
        TrialStep::StillRuns
    } else {
        TrialStep::Sleep
    }
}

/// What a trial run of the terminal interface showed.
pub enum TuiTrial {
    /// The file for its errors could not be made.
    NoFile(String),
    /// It could not be started.
    NotStarted(String),
    /// It ended with a status, having written its errors.
    Exited(String, String),
    /// It still ran after some seconds.
    StillRuns,
}

/// The last lines of a text that are not blank.
pub open spec fn last_said(s: Seq<char>, n: int) -> Seq<char> {
    join_of(last_n(said_lines(lines_of(s)), n), "\n"@)
}

fn last_words(s: &str, n: usize) -> (r: String)
    ensures
        r@ == last_said(s@, n as int),
{
    let ls = lines_said(s);
    let from: usize = if ls.len() <= n {
        0
    } else {
        ls.len() - n
    };
    proof {
        assert(views(ls@).skip(0) =~= views(ls@));
    }
    last_lines(&ls, from)
}

/// What is told of a trial run of the terminal interface.
pub open spec fn trial_text(t: TuiTrial) -> Seq<char> {
    match t {
        TuiTrial::NoFile(e) => "诊断日志创建失败："@ + e@,
        TuiTrial::NotStarted(e) => "诊断执行失败："@ + e@,
        TuiTrial::Exited(status, err) => {
            let tail = last_said(err@, 15);
            if tail.len() == 0 {
                "（退出码 "@ + status@ + "，无 stderr 输出）"@
            } else {
                tail
            }
        },
        TuiTrial::StillRuns => "（诊断运行 6 秒未退出，可能已正常启动）"@,
    }
}

/// What is told of a trial run of the terminal interface.
pub fn tui_diagnose(t: &TuiTrial) -> (r: String)
    ensures
        r@ == trial_text(*t),
{
    match t {
        TuiTrial::NoFile(e) => "诊断日志创建失败：".to_owned().concat(e.as_str()),
        TuiTrial::NotStarted(e) => "诊断执行失败：".to_owned().concat(e.as_str()),
        TuiTrial::Exited(status, err) => {
            let tail = last_words(err.as_str(), 15);
            if tail.as_str().is_empty() {
                "（退出码 ".to_owned().concat(status.as_str()).concat("，无 stderr 输出）")
            } else {
                tail
            }
        },
        TuiTrial::StillRuns => "（诊断运行 6 秒未退出，可能已正常启动）".to_owned(),
    }
}

/// What was found out and done so far to start the terminal interface.
pub struct TuiEvidence {
    /// Whether its profile is there.
    pub has_profile: bool,
    /// What came of installing it.
    pub installed: Option<Result<(), String>>,
    /// The program file of DSH, once it was looked for.
    pub bin: Option<Option<String>>,
    /// What came of starting it: its process.
    pub spawned: Option<Result<u32, String>>,
    /// The status with which it ended at once, if it did, once it was watched.
    pub exited: Option<Option<String>>,
    /// What a trial run showed.
    pub diagnosis: Option<String>,
}

/// What to do next to start the terminal interface.
pub enum TuiStep {
    /// Install it with this command on its profile.
    Install(Vec<String>),
    /// Look for the program file of DSH.
    AskBin,
    /// Start Node with these arguments, in a console of its own, and remember the process.
    Spawn(Vec<String>),
    /// Watch it for a while.
    Watch,
    /// Find out by a trial run why it ended.
    Diagnose,
    /// It is over.
    Done(Result<String, String>),
}

/// The values of a step.
pub enum TuiView {
    /// Install it.
    Install(Seq<Seq<char>>),
    /// Look for the program file of DSH.
    AskBin,
    /// Start it.
    Spawn(Seq<Seq<char>>),
    /// Watch it for a while.
    Watch,
    /// Find out why it ended.
    Diagnose,
    /// It is over.
    Done(Result<Seq<char>, Seq<char>>),
}

impl View for TuiStep {
    type V = TuiView;

    open spec fn view(&self) -> TuiView {
        match self {
            TuiStep::Install(v) => TuiView::Install(views(v@)),
            TuiStep::AskBin => TuiView::AskBin,
            TuiStep::Spawn(v) => TuiView::Spawn(views(v@)),
            TuiStep::Watch => TuiView::Watch,
            TuiStep::Diagnose => TuiView::Diagnose,
            TuiStep::Done(Ok(s)) => TuiView::Done(Ok(s@)),
            TuiStep::Done(Err(s)) => TuiView::Done(Err(s@)),
        }
    }
}

/// Why a terminal interface ended, with what a trial run showed.
pub open spec fn tui_failure(status: Seq<char>, diagnosis: Seq<char>) -> Seq<char> {
    let head = "TUI 启动失败（退出码 "@ + status + "）"@;
    if diagnosis.len() == 0 {
        head
    } else {
        head + "\n\n--- 诊断输出 ---\n"@ + diagnosis
    }
}

/// What to do next once the terminal interface is installed.
pub open spec fn tui_launch(ev: TuiEvidence) -> TuiView {
    match ev.bin {
        None => TuiView::AskBin,
        Some(None) => TuiView::Done(Err("未找到 dsh CLI 入口文件"@)),
        Some(Some(b)) => match ev.spawned {
            None => TuiView::Spawn(seq![b@, "--profile"@, TUI_PROFILE@]),
            Some(Err(e)) => TuiView::Done(Err("启动失败："@ + e@)),
            Some(Ok(pid)) => match ev.exited {
                None => TuiView::Watch,
                Some(None) => TuiView::Done(
                    Ok(
                        "TUI 已启动（PID "@ + digits_of(pid as nat)
                            + "），请在弹出的命令行窗口中操作"@,
                    ),
                ),
                Some(Some(status)) => match ev.diagnosis {
                    None => TuiView::Diagnose,
                    Some(d) => TuiView::Done(Err(tui_failure(status@, d@))),
                },
            },
        },
    }
}

/// What to do next to start the terminal interface: it is installed first where its profile is
/// missing.
pub open spec fn tui_next(ev: TuiEvidence) -> TuiView {
    if ev.has_profile {
        tui_launch(ev)
    } else {
        match ev.installed {
            None => TuiView::Install(seq!["add"@, TUI_PACKAGE@]),
            Some(Err(e)) => TuiView::Done(Err("TUI 自动安装失败："@ + e@)),
            Some(Ok(_)) => tui_launch(ev),
        }
    }
}

fn failed_tui(status: &str, diagnosis: &str) -> (r: String)
    ensures
        r@ == tui_failure(status@, diagnosis@),
{
    let head = "TUI 启动失败（退出码 ".to_owned().concat(status).concat("）");
    if diagnosis.is_empty() {
        head
    } else {
        head.concat("\n\n--- 诊断输出 ---\n").concat(diagnosis)
    }
}

/// The arguments of Node for the terminal interface.
pub fn tui_args(bin: &str) -> (r: Vec<String>)
    ensures
        views(r@) == seq![bin@, "--profile"@, TUI_PROFILE@],
{
    let mut v: Vec<String> = Vec::new();
    v.push(bin.to_owned());
    v.push("--profile".to_owned());
    v.push(TUI_PROFILE.to_owned());
    proof {
        assert(views(v@) =~= seq![bin@, "--profile"@, TUI_PROFILE@]);
    }
    v
}

fn launch_tui(ev: &TuiEvidence) -> (r: TuiStep)
    ensures
        r@ == tui_launch(*ev),
{
    let bin = match &ev.bin {
        None => {
            return TuiStep::AskBin;
        },
        Some(None) => {
            return TuiStep::Done(Err("未找到 dsh CLI 入口文件".to_owned()));
        },
        Some(Some(b)) => b,
    };
    let pid = match &ev.spawned {
        None => {
            return TuiStep::Spawn(tui_args(bin.as_str()));
        },
        Some(Err(e)) => {
            return TuiStep::Done(Err("启动失败：".to_owned().concat(e.as_str())));
        },
        Some(Ok(pid)) => *pid,
    };
    match &ev.exited {
        None => TuiStep::Watch,
        Some(None) => TuiStep::Done(
            Ok(
                "TUI 已启动（PID ".to_owned().concat(decimal(pid as u64).as_str()).concat(
                    "），请在弹出的命令行窗口中操作",
                ),
            ),
        ),
        Some(Some(status)) => match &ev.diagnosis {
            None => TuiStep::Diagnose,
            Some(d) => TuiStep::Done(Err(failed_tui(status.as_str(), d.as_str()))),
        },
    }
}

/// What to do next to start the terminal interface, by what was found out and done so far.
pub fn start_tui(ev: &TuiEvidence) -> (r: TuiStep)
    ensures
        r@ == tui_next(*ev),
{
    if !ev.has_profile {
        match &ev.installed {
            None => {
                let mut v: Vec<String> = Vec::new();
                v.push("add".to_owned());
                v.push(TUI_PACKAGE.to_owned());
                proof {
                    assert(views(v@) =~= seq!["add"@, TUI_PACKAGE@]);
                }
                return TuiStep::Install(v);
            },
            Some(Err(e)) => {
                return TuiStep::Done(Err("TUI 自动安装失败：".to_owned().concat(e.as_str())));
            },
            Some(Ok(_)) => {},
        }
    }
    launch_tui(ev)
}

/// A start of the terminal interface tells of success only where it was started and still ran, and
/// it is started only where its profile is there or was installed.
pub proof fn law_tui_tells_what_runs(ev: TuiEvidence)
    ensures
        tui_next(ev) is Done && tui_next(ev)->Done_0 is Ok ==> ev.spawned is Some && ev.spawned->0 is Ok
            && ev.exited == Some(None::<String>),
        tui_next(ev) is Spawn ==> ev.has_profile || (ev.installed is Some && ev.installed->0 is Ok),
{
}

/// Why processes could not be ended.
pub open spec fn kill_errors(v: Seq<Result<(), String>>) -> Seq<Seq<char>>
    decreases v.len(),
{
    if v.len() == 0 {
        Seq::empty()
    } else {
        match v.last() {
            Err(e) => kill_errors(v.drop_last()).push(e@),
            Ok(_) => kill_errors(v.drop_last()),
        }
    }
}

/// What is told where the port is still in use behind the ending of DSH: why its processes could
/// not be ended, or only that it still runs.
pub open spec fn still_running(v: Seq<Result<(), String>>) -> Seq<char> {
    let e = kill_errors(v);
    if e.len() == 0 {
        "still-running"@
    } else {
        join_of(e, "\n"@)
    }
}

fn still_running_message(v: &Vec<Result<(), String>>) -> (r: String)
    ensures
        r@ == still_running(v@),
{
    let mut errors: Vec<String> = Vec::new();
    let mut i: usize = 0;
    proof {
        assert(views(errors@) =~= Seq::empty());
    }
    while i < v.len()
        invariant
            i <= v@.len(),
            views(errors@) == kill_errors(v@.take(i as int)),
        decreases v@.len() - i,
    {
        let ghost before = errors@;
        proof {
            let next = v@.take(i + 1);
            assert(next.drop_last() =~= v@.take(i as int));
            assert(next.last() == v@[i as int]);
        }
        match &v[i] {
            Err(e) => {
                errors.push(e.clone());
                proof {
                    assert(views(errors@) =~= views(before).push(e@));
                }
            },
            Ok(_) => {},
        }
        i += 1;
    }
    proof {
        assert(v@.take(v@.len() as int) =~= v@);
        assert(views(errors@).len() == errors@.len());
    }
    if errors.len() == 0 {
        "still-running".to_owned()
    } else {
        join(&errors, "\n")
    }
}

/// How often the port is looked at until it counts as still in use.
pub const RELEASE_LOOKS: u32 = 24;

/// How long to wait between two looks, in milliseconds.
pub const LOOK_WAIT: u64 = 250;

/// What was found out and done so far to stop the web interface.
pub struct StopEvidence {
    /// Whether something listens on the port.
    pub listening: Option<bool>,
    /// The processes that may be ended as DSH.
    pub chosen: Option<Vec<u32>>,
    /// What came of ending them.
    pub kills: Option<Vec<Result<(), String>>>,
    /// Whether the port is free now.
    pub released: Option<bool>,
}

/// What to do next to stop the web interface.
pub enum StopStep {
    /// Find out who listens on the port.
    AskListening,
    /// Find out which of them may be ended as DSH.
    Choose,
    /// End them.
    Kill,
    /// Wait for the port to become free.
    AwaitRelease,
    /// It is over.
    Done(Result<String, String>),
}

/// The values of a step.
pub enum StopView {
    /// Find out who listens on the port.
    AskListening,
    /// Find out which of them may be ended as DSH.
    Choose,
    /// End them.
    Kill,
    /// Wait for the port to become free.
    AwaitRelease,
    /// It is over.
    Done(Result<Seq<char>, Seq<char>>),
}

impl View for StopStep {
    type V = StopView;

    open spec fn view(&self) -> StopView {
        match self {
            StopStep::AskListening => StopView::AskListening,
            StopStep::Choose => StopView::Choose,
            StopStep::Kill => StopView::Kill,
            StopStep::AwaitRelease => StopView::AwaitRelease,
            StopStep::Done(Ok(s)) => StopView::Done(Ok(s@)),
            StopStep::Done(Err(s)) => StopView::Done(Err(s@)),
        }
    }
}

/// What to do next to stop the web interface on `port`.
pub open spec fn stop_next(port: u16, ev: StopEvidence) -> StopView {
    match ev.listening {
        None => StopView::AskListening,
        Some(false) => StopView::Done(Ok("not-running"@)),
        Some(true) => match ev.chosen {
            None => StopView::Choose,
            Some(c) => if c@.len() == 0 {
                StopView::Done(
                    Err(
                        "端口 "@ + digits_of(port as nat)
                            + " 被其他程序占用，无法安全终止（启动器只终止 DSH 进程）"@,
                    ),
                )
            } else {
                match ev.kills {
                    None => StopView::Kill,
                    Some(k) => match ev.released {
                        None => StopView::AwaitRelease,
                        Some(true) => StopView::Done(
                            Ok("stopped:"@ + digits_of(c@.len())),
                        ),
                        Some(false) => StopView::Done(Err(still_running(k@))),
                    },
                }
            },
        },
    }
}

/// What to do next to stop the web interface on `port`. Only processes of DSH are ended.
pub fn stop_web(port: u16, ev: &StopEvidence) -> (r: StopStep)
    ensures
        r@ == stop_next(port, *ev),
{
    match ev.listening {
        None => {
            return StopStep::AskListening;
        },
        Some(l) => if !l {
            return StopStep::Done(Ok("not-running".to_owned()));
        },
    }
    let c = match &ev.chosen {
        None => {
            return StopStep::Choose;
        },
        Some(c) => c,
    };
    if c.len() == 0 {
        return StopStep::Done(
            Err(
                "端口 ".to_owned().concat(decimal(port as u64).as_str()).concat(
                    " 被其他程序占用，无法安全终止（启动器只终止 DSH 进程）",
                ),
            ),
        );
    }
    let k = match &ev.kills {
        None => {
            return StopStep::Kill;
        },
        Some(k) => k,
    };
    match ev.released {
        None => StopStep::AwaitRelease,
        Some(released) => if released {
            StopStep::Done(Ok("stopped:".to_owned().concat(decimal(c.len() as u64).as_str())))
        } else {
            StopStep::Done(Err(still_running_message(k)))
        },
    }
}

/// What was found out and done so far to restart DSH.
pub struct RestartEvidence {
    /// The processes that may be ended as DSH.
    pub chosen: Option<Vec<u32>>,
    /// What came of ending them.
    pub kills: Option<Vec<Result<(), String>>>,
    /// Whether the port is free now.
    pub released: Option<bool>,
    /// What came of starting the web interface.
    pub spawned: Option<Result<String, String>>,
}

/// What to do next to restart DSH.
pub enum RestartStep {
    /// Find out which processes may be ended as DSH.
    Choose,
    /// End them.
    Kill,
    /// Wait for the port to become free.
    AwaitRelease,
    /// Start the web interface.
    Spawn,
    /// It is over.
    Done(Result<String, String>),
}

/// The values of a step.
pub enum RestartView {
    /// Find out which processes may be ended as DSH.
    Choose,
    /// End them.
    Kill,
    /// Wait for the port to become free.
    AwaitRelease,
    /// Start the web interface.
    Spawn,
    /// It is over.
    Done(Result<Seq<char>, Seq<char>>),
}

impl View for RestartStep {
    type V = RestartView;

    open spec fn view(&self) -> RestartView {
        match self {
            RestartStep::Choose => RestartView::Choose,
            RestartStep::Kill => RestartView::Kill,
            RestartStep::AwaitRelease => RestartView::AwaitRelease,
            RestartStep::Spawn => RestartView::Spawn,
            RestartStep::Done(Ok(s)) => RestartView::Done(Ok(s@)),
            RestartStep::Done(Err(s)) => RestartView::Done(Err(s@)),
        }
    }
}

/// What to do next to restart DSH on `port`.
pub open spec fn restart_next(port: u16, ev: RestartEvidence) -> RestartView {
    match ev.chosen {
        None => RestartView::Choose,
        Some(c) => match ev.kills {
            None => RestartView::Kill,
            Some(k) => match ev.released {
                None => RestartView::AwaitRelease,
                Some(false) => RestartView::Done(
                    Err(
                        if c@.len() == 0 {
                            "端口 "@ + digits_of(port as nat)
                                + " 被其他程序占用，无法重启 DSH。可修改 webPort 或停止占用程序"@
                        } else {
                            still_running(k@)
                        },
                    ),
                ),
                Some(true) => match ev.spawned {
                    None => RestartView::Spawn,
                    Some(Err(e)) => RestartView::Done(Err(e@)),
                    Some(Ok(s)) => RestartView::Done(
                        Ok(
                            if s@ == "starting"@ {
                                "starting"@
                            } else {
                                "ok"@
                            },
                        ),
                    ),
                },
            },
        },
    }
}

/// What to do next to restart DSH on `port`. A new one is started only where the port is free.
pub fn restart_dsh(port: u16, ev: &RestartEvidence) -> (r: RestartStep)
    ensures
        r@ == restart_next(port, *ev),
{
    let c = match &ev.chosen {
        None => {
            return RestartStep::Choose;
        },
        Some(c) => c,
    };
    let k = match &ev.kills {
        None => {
            return RestartStep::Kill;
        },
        Some(k) => k,
    };
    match ev.released {
        None => {
            return RestartStep::AwaitRelease;
        },
        Some(released) => if !released {
            if c.len() == 0 {
                return RestartStep::Done(
                    Err(
                        "端口 ".to_owned().concat(decimal(port as u64).as_str()).concat(
                            " 被其他程序占用，无法重启 DSH。可修改 webPort 或停止占用程序",
                        ),
                    ),
                );
            }
            return RestartStep::Done(Err(still_running_message(k)));
        },
    }
    match &ev.spawned {
        None => RestartStep::Spawn,
        Some(Err(e)) => RestartStep::Done(Err(e.clone())),
        Some(Ok(s)) => RestartStep::Done(
            Ok(
                (if same(s.as_str(), "starting") {
                    "starting"
                } else {
                    "ok"
                }).to_owned(),
            ),
        ),
    }
}

/// A new DSH is started only where the port is free and those chosen were ended; stopping tells of
/// success only where the port is free.
pub proof fn law_port_is_free_first(port: u16, a: RestartEvidence, b: StopEvidence)
    ensures
        restart_next(port, a) is Spawn ==> a.released == Some(true) && a.kills is Some,
        (stop_next(port, b) is Done && stop_next(port, b)->Done_0 is Ok && b.listening == Some(
            true,
        )) ==> b.released == Some(true),
        stop_next(port, b) is Kill ==> b.chosen is Some && b.chosen->0@.len() > 0,
{
}

/// Whether an address may be opened in a browser: one of HTTP, without control characters.
pub open spec fn url_ok(url: Seq<char>) -> bool {
    let u = trim_of(url);
    &&& "http://"@.is_prefix_of(u) || "https://"@.is_prefix_of(u)
    &&& forall|i: int| 0 <= i < u.len() ==> !is_ctrl(#[trigger] u[i])
}

/// The address to open in a browser, or why it is not opened.
pub fn open_url(url: &str) -> (r: Result<String, String>)
    ensures
        match r {
            Ok(u) => url_ok(url@) && u@ == trim_of(url@),
            Err(m) => !url_ok(url@) && m@ == "仅支持打开 http/https 链接"@,
        },
{
    let u = trim(url);
    if !starts(u, "http://") && !starts(u, "https://") {
        return Err("仅支持打开 http/https 链接".to_owned());
    }
    let cs = chars_of(u);
    let mut i: usize = 0;
    while i < cs.len()
        invariant
            cs@ == u@,
            u@ == trim_of(url@),
            i <= cs@.len(),
            forall|k: int| 0 <= k < i ==> !is_ctrl(#[trigger] cs@[k]),
        decreases cs@.len() - i,
    {
        if control(cs[i]) {
            proof {
                assert(is_ctrl(u@[i as int]));
            }
            return Err("仅支持打开 http/https 链接".to_owned());
        }
        i += 1;
    }
    Ok(u.to_owned())
}

/// What is told behind the opening of an address.
pub fn url_opened(ok: bool) -> (r: Result<String, String>)
    ensures
        r is Ok <==> ok,
        r matches Ok(s) ==> s@ == "opened"@,
        r matches Err(m) ==> m@ == "系统无法打开该链接"@,
{
    if ok {
        Ok("opened".to_owned())
    } else {
        Err("系统无法打开该链接".to_owned())
    }
}

/// The command that starts the web interface by hand.
pub fn get_web_cmd(bin: &Option<String>) -> (r: Result<String, String>)
    ensures
        match bin {
            Some(b) => r matches Ok(s) && s@ == "node \""@ + b@ + "\" web"@,
            None => r matches Err(m) && m@ == "未找到 dsh CLI 入口文件"@,
        },
{
    match bin {
        Some(b) => Ok("node \"".to_owned().concat(b.as_str()).concat("\" web")),
        None => Err("未找到 dsh CLI 入口文件".to_owned()),
    }
}

/// Stopping goes forward wherever there is something to end: those chosen are ended, the port is
/// waited for, and success is told with their number once it is free. Where it is still in use, the
/// reasons are told for which some could not be ended.
pub proof fn law_stopping_goes_forward(port: u16, ev: StopEvidence)
    requires
        ev.listening == Some(true),
        ev.chosen is Some,
        ev.chosen->0@.len() > 0,
    ensures
        ev.kills is None ==> stop_next(port, ev) == StopView::Kill,
        ev.kills is Some && ev.released is None ==> stop_next(port, ev) == StopView::AwaitRelease,
        ev.kills is Some && ev.released == Some(true) ==> stop_next(port, ev) == StopView::Done(
            Ok("stopped:"@ + digits_of(ev.chosen->0@.len())),
        ),
        ev.kills is Some && ev.released == Some(false) && kill_errors(ev.kills->0@).len() == 0
            ==> stop_next(port, ev) == StopView::Done(Err("still-running"@)),
        ev.kills is Some && ev.released == Some(false) && kill_errors(ev.kills->0@).len() > 0
            ==> stop_next(port, ev) == StopView::Done(
            Err(join_of(kill_errors(ev.kills->0@), "\n"@)),
        ),
{
}

/// Stopping looks first whether something listens, and only then whom to end. Where nothing
/// listens it is over; a foreign program is told of only where something listens and nobody may be
/// ended, with the port.
pub proof fn law_stopping_asks_before_it_ends(port: u16, ev: StopEvidence)
    ensures
        ev.listening is None <==> stop_next(port, ev) == StopView::AskListening,
        ev.listening == Some(false) ==> stop_next(port, ev) == StopView::Done(Ok("not-running"@)),
        ev.listening == Some(true) && ev.chosen is None <==> stop_next(port, ev)
            == StopView::Choose,
        ev.listening == Some(true) && ev.chosen is Some && ev.chosen->0@.len() == 0 ==> stop_next(
            port,
            ev,
        ) == StopView::Done(
            Err(
                "端口 "@ + digits_of(port as nat)
                    + " 被其他程序占用，无法安全终止（启动器只终止 DSH 进程）"@,
            ),
        ),
        stop_next(port, ev) is Done && stop_next(port, ev)->Done_0 is Err ==> ev.listening == Some(
            true,
        ) && ev.chosen is Some && (ev.chosen->0@.len() == 0 || (ev.kills is Some && ev.released
            == Some(false))),
{
}

/// A restart ends those chosen, waits for the port and starts DSH once the port is free, also
/// where nobody was to be ended; what comes of the start is what comes of the restart.
pub proof fn law_restarting_goes_forward(port: u16, ev: RestartEvidence)
    ensures
        ev.chosen is None <==> restart_next(port, ev) == RestartView::Choose,
        ev.chosen is Some && ev.kills is None <==> restart_next(port, ev) == RestartView::Kill,
        ev.chosen is Some && ev.kills is Some ==> {
            &&& ev.released is None <==> restart_next(port, ev) == RestartView::AwaitRelease
            &&& ev.released == Some(true) && ev.spawned is None <==> restart_next(port, ev)
                == RestartView::Spawn
            &&& ev.released == Some(false) && ev.chosen->0@.len() == 0 ==> restart_next(port, ev)
                == RestartView::Done(
                Err(
                    "端口 "@ + digits_of(port as nat)
                        + " 被其他程序占用，无法重启 DSH。可修改 webPort 或停止占用程序"@,
                ),
            )
            &&& ev.released == Some(false) && ev.chosen->0@.len() > 0 ==> restart_next(port, ev)
                == RestartView::Done(
                Err(
                    if kill_errors(ev.kills->0@).len() == 0 {
                        "still-running"@
                    } else {
                        join_of(kill_errors(ev.kills->0@), "\n"@)
                    },
                ),
            )
            &&& ev.released == Some(true) && ev.spawned is Some && ev.spawned->0 is Err
                ==> restart_next(port, ev) == RestartView::Done(Err(ev.spawned->0->Err_0@))
            &&& ev.released == Some(true) && ev.spawned is Some && ev.spawned->0 is Ok
                && ev.spawned->0->Ok_0@ == "starting"@ ==> restart_next(port, ev)
                == RestartView::Done(Ok("starting"@))
            &&& ev.released == Some(true) && ev.spawned is Some && ev.spawned->0 is Ok
                && ev.spawned->0->Ok_0@ != "starting"@ ==> restart_next(port, ev)
                == RestartView::Done(Ok("ok"@))
        },
{
}

/// The reasons for which processes could not be ended are those of the failures, each once, in
/// their order.
pub proof fn law_reasons_are_those_of_the_failures(
    a: Seq<Result<(), String>>,
    e: String,
    b: Seq<Result<(), String>>,
)
    ensures
        kill_errors(a + b) == kill_errors(a) + kill_errors(b),
        kill_errors(seq![Err::<(), String>(e)]) == seq![e@],
        kill_errors(seq![Ok::<(), String>(())]) == Seq::<Seq<char>>::empty(),
    decreases b.len(),
{
    let none = Seq::<Result<(), String>>::empty();
    assert(kill_errors(none) =~= Seq::empty());
    assert(seq![Err::<(), String>(e)].drop_last() =~= none);
    assert(seq![Ok::<(), String>(())].drop_last() =~= none);
    assert(kill_errors(seq![Err::<(), String>(e)]) =~= seq![e@]);
    if b.len() == 0 {
        assert(a + b =~= a);
        assert(kill_errors(a) + kill_errors(b) =~= kill_errors(a));
    } else {
        assert((a + b).drop_last() =~= a + b.drop_last());
        law_reasons_are_those_of_the_failures(a, e, b.drop_last());
        assert(kill_errors(a + b) =~= kill_errors(a) + kill_errors(b));
    }
}

/// The start of the terminal interface goes forward: a missing profile is installed, the program
/// file is looked for and started with the profile of the terminal interface, and it is watched. One
/// that still runs is told of with its process, one that ended is tried again to tell why.
pub proof fn law_tui_start_goes_forward(ev: TuiEvidence)
    ensures
        !ev.has_profile && ev.installed is None <==> tui_next(ev) is Install,
        tui_next(ev) is Install ==> tui_next(ev)->Install_0 == seq![
            "add"@,
            "@deepseek-harness-tui/dsh-tui"@,
        ],
        !ev.has_profile && ev.installed is Some && ev.installed->0 is Err ==> tui_next(ev)
            == TuiView::Done(Err("TUI 自动安装失败："@ + ev.installed->0->Err_0@)),
        ev.has_profile || (ev.installed is Some && ev.installed->0 is Ok) ==> {
            &&& ev.bin is None <==> tui_next(ev) is AskBin
            &&& ev.bin is Some && ev.bin->0 is None ==> tui_next(ev) == TuiView::Done(
                Err("未找到 dsh CLI 入口文件"@),
            )
            &&& ev.bin is Some && ev.bin->0 is Some ==> {
                &&& ev.spawned is None ==> tui_next(ev) == TuiView::Spawn(
                    seq![ev.bin->0->0@, "--profile"@, "dsh-tui"@],
                )
                &&& ev.spawned is Some && ev.spawned->0 is Err ==> tui_next(ev) == TuiView::Done(
                    Err("启动失败："@ + ev.spawned->0->Err_0@),
                )
                &&& ev.spawned is Some && ev.spawned->0 is Ok ==> {
                    &&& ev.exited is None ==> tui_next(ev) == TuiView::Watch
                    &&& ev.exited is Some && ev.exited->0 is None ==> tui_next(ev) == TuiView::Done(
                        Ok(
                            "TUI 已启动（PID "@ + digits_of(ev.spawned->0->Ok_0 as nat)
                                + "），请在弹出的命令行窗口中操作"@,
                        ),
                    )
                    &&& ev.exited is Some && ev.exited->0 is Some && ev.diagnosis is None
                        ==> tui_next(ev) == TuiView::Diagnose
                    &&& ev.exited is Some && ev.exited->0 is Some && ev.diagnosis is Some
                        && ev.diagnosis->0@.len() > 0 ==> tui_next(ev) == TuiView::Done(
                        Err(
                            "TUI 启动失败（退出码 "@ + ev.exited->0->0@
                                + "）"@ + "\n\n--- 诊断输出 ---\n"@ + ev.diagnosis->0@,
                        ),
                    )
                    &&& ev.exited is Some && ev.exited->0 is Some && ev.diagnosis is Some
                        && ev.diagnosis->0@.len() == 0 ==> tui_next(ev) == TuiView::Done(
                        Err("TUI 启动失败（退出码 "@ + ev.exited->0->0@ + "）"@),
                    )
                }
            }
        },
{
}

/// Where the web interface ended, what its log says is told without the white space round it, and
/// a log that says nothing is told to be empty; the status is told either way.
pub proof fn law_exit_is_told_with_the_log(
    status: Seq<char>,
    a: Seq<char>,
    w: Seq<char>,
    b: Seq<char>,
)
    requires
        all_stripped(a, Strip::Space),
        all_stripped(b, Strip::Space),
        w.len() > 0 ==> !is_space(w[0]) && !is_space(w.last()),
    ensures
        w.len() > 0 ==> web_exit(status, a + w + b) == "DSH 启动失败（退出码 "@ + status
            + "）\n\n--- web.log 末尾 ---\n"@ + w,
        w.len() == 0 ==> web_exit(status, a + w + b) == "DSH 启动后立即退出（退出码 "@ + status
            + "），web.log 无输出"@,
{
    law_strip_takes_off_what_stands_round(a, w, b, Strip::Space);
}

/// The addresses that are opened are those of HTTP, with white space round them or without it, in
/// which no control character stands.
pub proof fn law_addresses_of_http_are_opened(a: Seq<char>, u: Seq<char>, b: Seq<char>)
    requires
        all_stripped(a, Strip::Space),
        all_stripped(b, Strip::Space),
        u.len() > 0 ==> !is_space(u[0]) && !is_space(u.last()),
    ensures
        url_ok(a + u + b) <==> ((u.len() >= 7 && u.take(7) == "http://"@) || (u.len() >= 8 && u.take(8)
            == "https://"@)) && forall|i: int| 0 <= i < u.len() ==> !is_ctrl(#[trigger] u[i]),
{
    law_strip_takes_off_what_stands_round(a, u, b, Strip::Space);
    reveal_strlit("http://");
    reveal_strlit("https://");
    if u.len() >= 7 {
        assert(u.subrange(0, 7) =~= u.take(7));
    }
    if u.len() >= 8 {
        assert(u.subrange(0, 8) =~= u.take(8));
    }
}

/// A web interface that listens is there, one that ended is not waited for, and any other is waited
/// for up to the deadline and then counts as slow.
pub proof fn law_web_interface_is_waited_for(
    listening: bool,
    exited: bool,
    now: u64,
    deadline: u64,
)
    ensures
        web_step(listening, exited, now, deadline) == WebStep::Started <==> listening,
        web_step(listening, exited, now, deadline) == WebStep::Exited <==> exited && !listening,
        web_step(listening, exited, now, deadline) == WebStep::Sleep <==> !exited && !listening && now
            < deadline,
        trial_next(exited, now, deadline) == TrialStep::Exited <==> exited,
        trial_next(exited, now, deadline) == TrialStep::Sleep <==> !exited && now < deadline,
{
}

/// The end of a file that is shown is as long as it may be, and reaches to the end of the file.
pub proof fn law_end_of_a_file_is_shown(len: u64, max: u64)
    ensures
        len >= max ==> len - tail_from(len, max) == max,
        len <= max ==> tail_from(len, max) == 0,
{
}

/// What is told of a trial of the terminal interface: why there was none, its last 15 lines that say
/// something, its status where it said nothing, or that it still ran.
pub proof fn law_trial_is_told_with_its_last_lines(
    e: String,
    status: String,
    err: String,
    a: Seq<Seq<char>>,
    b: Seq<Seq<char>>,
)
    requires
        said_lines(lines_of(err@)) == a + b,
        b.len() == 15 || (b.len() < 15 && a.len() == 0),
    ensures
        trial_text(TuiTrial::NoFile(e)) == "诊断日志创建失败："@ + e@,
        trial_text(TuiTrial::NotStarted(e)) == "诊断执行失败："@ + e@,
        join_of(b, "\n"@).len() > 0 ==> trial_text(TuiTrial::Exited(status, err)) == join_of(
            b,
            "\n"@,
        ),
        join_of(b, "\n"@).len() == 0 ==> trial_text(TuiTrial::Exited(status, err)) == "（退出码 "@
            + status@ + "，无 stderr 输出）"@,
{
    if a.len() == 0 {
        assert(a + b =~= b);
    } else {
        assert((a + b).skip(a.len() as int) =~= b);
    }
}

/// The log of the web interface is emptied once it is over 1 MiB.
pub proof fn law_web_log_is_emptied_when_it_is_full(len: u64)
    ensures
        web_log_full(len) <==> len > 1024 * 1024,
{
}

} // verus!
