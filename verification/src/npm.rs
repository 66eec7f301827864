//! Running npm and other programs: what is remembered, awaited and told about them.

use crate::json::{as_text, field, get, json_bytes, parse_bytes, text, Json};
use crate::numbers::{decimal, digits_of};
use crate::text::{join, join_of, lines, lines_of, opt_view, same, trim, trim_of, views};
use crate::util::{lossy, lossy_text};
use vstd::prelude::*;

verus! {

/// How long it is remembered that a program is missing, in milliseconds.
pub const WHICH_NEGATIVE_TTL: u64 = 60_000;

/// What was found out about a program.
pub struct WhichEntry {
    /// The program.
    pub name: String,
    /// Whether it is there.
    pub found: bool,
    /// When that was found out, in milliseconds.
    pub at: u64,
}

/// What is remembered about programs.
pub struct WhichCache {
    entries: Vec<WhichEntry>,
}

/// What a list of entries says; a later one counts.
pub open spec fn entries_map(v: Seq<WhichEntry>) -> Map<Seq<char>, (bool, u64)>
    decreases v.len(),
{
    if v.len() == 0 {
        Map::empty()
    } else {
        entries_map(v.drop_last()).insert(v.last().name@, (v.last().found, v.last().at))
    }
}

/// What is remembered of `name` at the time `now`: that it is there, or that it was missing a
/// short while ago.
pub open spec fn remembered(m: Map<Seq<char>, (bool, u64)>, name: Seq<char>, now: u64) -> Option<
    bool,
> {
    if m.dom().contains(name) && (m[name].0 || now - m[name].1 < WHICH_NEGATIVE_TTL) {
        Some(m[name].0)
    } else {
        None
    }
}

proof fn lemma_entries(v: Seq<WhichEntry>, name: Seq<char>, i: int)
    requires
        0 <= i <= v.len(),
        forall|j: int| i <= j < v.len() ==> (#[trigger] v[j]).name@ != name,
    ensures
        i == 0 ==> !entries_map(v).dom().contains(name),
        i > 0 && v[i - 1].name@ == name ==> entries_map(v).dom().contains(name) && entries_map(
            v,
        )[name] == (v[i - 1].found, v[i - 1].at),
    decreases v.len(),
{
    if i < v.len() {
        assert(v[v.len() - 1].name@ != name);
        assert forall|j: int| i <= j < v.drop_last().len() implies (#[trigger] v.drop_last()[j]).name@
            != name by {
            assert(v.drop_last()[j] == v[j]);
        }
        lemma_entries(v.drop_last(), name, i);
    }
}

proof fn lemma_replaced(v: Seq<WhichEntry>, i: int, x: (bool, u64))
    requires
        0 <= i < v.len(),
    ensures
        entries_map(v.remove(i)).insert(v[i].name@, x) == entries_map(v).insert(v[i].name@, x),
    decreases v.len(),
{
    let name = v[i].name@;
    let w = v.remove(i);
    if i == v.len() - 1 {
        assert(w =~= v.drop_last());
    } else {
        assert(w.drop_last() =~= v.drop_last().remove(i));
        assert(v.drop_last()[i] == v[i]);
        lemma_replaced(v.drop_last(), i, x);
        let l = v.last();
        assert(w.last() == l);
        let a = entries_map(v.drop_last().remove(i));
        let b = entries_map(v.drop_last());
        let y = (l.found, l.at);
        assert(a.insert(name, x) =~= b.insert(name, x));
        if l.name@ != name {
            assert(a.insert(l.name@, y).insert(name, x) =~= a.insert(name, x).insert(l.name@, y));
            assert(b.insert(l.name@, y).insert(name, x) =~= b.insert(name, x).insert(l.name@, y));
        } else {
            assert(a.insert(name, y).insert(name, x) =~= a.insert(name, x));
            assert(b.insert(name, y).insert(name, x) =~= b.insert(name, x));
        }
    }
    assert(entries_map(w).insert(name, x) =~= entries_map(v).insert(name, x));
}

impl View for WhichCache {
    type V = Map<Seq<char>, (bool, u64)>;

    closed spec fn view(&self) -> Map<Seq<char>, (bool, u64)> {
        entries_map(self.entries@)
    }
}

impl WhichCache {
    /// A memory that holds nothing.
    pub fn new() -> (r: WhichCache)
        ensures
            r@ == Map::<Seq<char>, (bool, u64)>::empty(),
    {
        WhichCache { entries: Vec::new() }
    }

    /// Remembers whether the program `name` is there.
    pub fn remember(&mut self, name: &str, found: bool, now: u64)
        ensures
            final(self)@ == old(self)@.insert(name@, (found, now)),
    {
        let mut i: usize = 0;
        while i < self.entries.len() && !same(self.entries[i].name.as_str(), name)
            invariant
                i <= self.entries@.len(),
                self.entries@ == old(self).entries@,
            decreases self.entries@.len() - i,
        {
            i += 1;
        }
        let ghost known = self.entries@;
        if i < self.entries.len() {
            let _ = self.entries.remove(i);
            proof {
                lemma_replaced(known, i as int, (found, now));
            }
        }
        let ghost before = self.entries@;
        self.entries.push(WhichEntry { name: name.to_owned(), found, at: now });
        proof {
            assert(self.entries@.drop_last() =~= before);
        }
    }
}

/// What is remembered of the program `name`. Where nothing is, it has to be looked for.
pub fn which(cache: &WhichCache, name: &str, now: u64) -> (r: Option<bool>)
    ensures
        r == remembered(cache@, name@, now),
{
    let mut i: usize = cache.entries.len();
    while i > 0
        invariant
            i <= cache.entries@.len(),
            forall|j: int|
                i <= j < cache.entries@.len() ==> (#[trigger] cache.entries@[j]).name@ != name@,
        decreases i,
    {
        let e = &cache.entries[i - 1];
        if same(e.name.as_str(), name) {
            proof {
                lemma_entries(cache.entries@, name@, i as int);
            }
            if e.found || now < e.at || now - e.at < WHICH_NEGATIVE_TTL {
                return Some(e.found);
            }
            return None;
        }
        i -= 1;
    }
    proof {
        lemma_entries(cache.entries@, name@, 0);
    }
    None
}

/// Forgets everything about programs.
pub fn clear_which_cache(cache: &mut WhichCache)
    ensures
        final(cache)@ == Map::<Seq<char>, (bool, u64)>::empty(),
{
    cache.entries = Vec::new();
}

/// A program that was found stays found, and one that was missing is looked for again after a
/// minute.
pub proof fn law_missing_program_is_looked_for_again(
    m: Map<Seq<char>, (bool, u64)>,
    name: Seq<char>,
    then_at: u64,
    now: u64,
)
    ensures
        remembered(m.insert(name, (true, then_at)), name, now) == Some(true),
        now - then_at >= WHICH_NEGATIVE_TTL ==> remembered(
            m.insert(name, (false, then_at)),
            name,
            now,
        ) is None,
        now - then_at < WHICH_NEGATIVE_TTL ==> remembered(
            m.insert(name, (false, then_at)),
            name,
            now,
        ) == Some(false),
{
}

/// The program that npm is: its command file, where there is one.
pub fn npm_program(has_cmd: bool) -> (r: &'static str)
    ensures
        r@ == if has_cmd {
            "npm.cmd"@
        } else {
            "npm"@
        },
{
    if has_cmd {
        "npm.cmd"
    } else {
        "npm"
    }
}

/// The variable that makes npm and pnpm use the registry of the settings.
pub fn apply_registry(registry: &str) -> (r: Option<(String, String)>)
    ensures
        match r {
            Some(p) => registry@.len() > 0 && p.0@ == "npm_config_registry"@ && p.1@ == registry@,
            None => registry@.len() == 0,
        },
{
    if registry.is_empty() {
        None
    } else {
        Some(("npm_config_registry".to_owned(), registry.to_owned()))
    }
}

/// What a look at a running program showed.
#[derive(PartialEq, Eq, Structural, Clone, Copy)]
pub enum Polled {
    /// It has ended.
    Exited,
    /// It still runs.
    Running,
    /// It could not be looked at.
    Failed,
}

/// What to do about a program that is waited for.
#[derive(PartialEq, Eq, Structural, Clone, Copy)]
pub enum WaitStep {
    /// Take its result.
    Finish,
    /// Wait a little and look again.
    Sleep,
    /// End it with all that it started, for its time is over.
    TimeOut,
    /// End it with all that it started, for it cannot be waited for.
    GiveUp,
}

/// What to do about a program that is waited for until `deadline`.
pub open spec fn wait_next(polled: Polled, now: u64, deadline: u64) -> WaitStep {
    match polled {
        Polled::Exited => WaitStep::Finish,
        Polled::Failed => WaitStep::GiveUp,
        Polled::Running => if now < deadline {
            WaitStep::Sleep
        } else {
            WaitStep::TimeOut
        },
    }
}

/// What to do about a program that is waited for until `deadline`.
pub fn wait_step(polled: Polled, now: u64, deadline: u64) -> (r: WaitStep)
    ensures
        r == wait_next(polled, now, deadline),
{
    match polled {
        Polled::Exited => WaitStep::Finish,
        Polled::Failed => WaitStep::GiveUp,
        Polled::Running => if now < deadline {
            WaitStep::Sleep
        } else {
            WaitStep::TimeOut
        },
    }
}

/// How a program ended.
pub enum Ended {
    /// It could not be started.
    NotStarted(String),
    /// Its time was over.
    TimedOut,
    /// It could not be waited for.
    WaitFailed(String),
    /// It ended by itself, well or not, with a status.
    Exited(bool, String),
}

/// How many lines of output are kept for a message.
pub const TAIL_KEEP: usize = 200;

/// How long a command may run, in minutes.
pub const COMMAND_MINUTES: u64 = 30;

/// How long a quick question to npm may take, in seconds.
pub const NPM_SECONDS: u64 = 15;

/// How long a question to the registry may take, in seconds.
pub const NPM_VIEW_SECONDS: u64 = 30;

/// The last `n` of a list.
pub open spec fn last_n<T>(s: Seq<T>, n: int) -> Seq<T> {
    if s.len() <= n {
        s
    } else {
        s.skip(s.len() - n)
    }
}

/// The end of an output: its last lines.
pub struct LineTail {
    lines: Vec<String>,
}

impl View for LineTail {
    type V = Seq<Seq<char>>;

    closed spec fn view(&self) -> Seq<Seq<char>> {
        views(self.lines@)
    }
}

impl LineTail {
    /// Not more lines are held than a message needs.
    #[verifier::type_invariant]
    spec fn inv(self) -> bool {
        self.lines@.len() <= TAIL_KEEP
    }

    /// The end of an output that has not begun.
    pub fn new() -> (r: LineTail)
        ensures
            r@ == Seq::<Seq<char>>::empty(),
    {
        let lines: Vec<String> = Vec::new();
        proof {
            assert(views(lines@) =~= Seq::empty());
        }
        LineTail { lines }
    }

    /// Takes a further line.
    pub fn push(&mut self, line: String)
        ensures
            final(self)@ == last_n(old(self)@.push(line@), TAIL_KEEP as int),
    {
        proof {
            use_type_invariant(&*self);
        }
        let ghost before = self.lines@;
        let mut kept: Vec<String> = Vec::new();
        std::mem::swap(&mut kept, &mut self.lines);
        if kept.len() == TAIL_KEEP {
            let _ = kept.remove(0);
        }
        kept.push(line);
        proof {
            assert(views(kept@) =~= last_n(views(before).push(line@), TAIL_KEEP as int));
        }
        self.lines = kept;
    }

    /// The last `n` lines as one text.
    pub fn tail(&self, n: usize) -> (r: String)
        ensures
            r@ == join_of(last_n(self@, n as int), "\n"@),
    {
        let from: usize = if self.lines.len() <= n {
            0
        } else {
            self.lines.len() - n
        };
        proof {
            assert(views(self.lines@).skip(0) =~= views(self.lines@));
        }
        last_lines(&self.lines, from)
    }
}

/// The lines from the position `from` on as one text.
pub(crate) fn last_lines(v: &Vec<String>, from: usize) -> (r: String)
    requires
        from <= v@.len(),
    ensures
        r@ == join_of(views(v@).skip(from as int), "\n"@),
{
    let mut out: Vec<String> = Vec::new();
    let mut i: usize = from;
    proof {
        assert(views(out@) =~= Seq::empty());
        assert(views(v@).subrange(from as int, from as int) =~= Seq::empty());
    }
    while i < v.len()
        invariant
            from <= i <= v@.len(),
            views(out@) == views(v@).subrange(from as int, i as int),
        decreases v@.len() - i,
    {
        let ghost before = out@;
        out.push(v[i].clone());
        proof {
            assert(views(out@) =~= views(before).push(views(v@)[i as int]));
            assert(views(v@).subrange(from as int, i + 1) =~= views(v@).subrange(
                from as int,
                i as int,
            ).push(views(v@)[i as int]));
        }
        i += 1;
    }
    proof {
        assert(views(v@).subrange(from as int, v@.len() as int) =~= views(v@).skip(from as int));
    }
    join(&out, "\n")
}

/// A line that came out before the last `k` lines is forgotten, the last ones are kept: pushing
/// one line after the other keeps the last lines of all that came.
pub proof fn law_tail_keeps_the_last_lines(all: Seq<Seq<char>>, line: Seq<char>)
    ensures
        last_n(last_n(all, TAIL_KEEP as int).push(line), TAIL_KEEP as int) == last_n(
            all.push(line),
            TAIL_KEEP as int,
        ),
{
    assert(last_n(last_n(all, TAIL_KEEP as int).push(line), TAIL_KEEP as int) =~= last_n(
        all.push(line),
        TAIL_KEEP as int,
    ));
}

/// What is told of a command that failed: the end of its errors, or else of its output.
pub open spec fn failure_text(
    op: Seq<char>,
    status: Seq<char>,
    out: Seq<Seq<char>>,
    err: Seq<Seq<char>>,
) -> Seq<char> {
    let head = op + " 执行失败（退出码 "@ + status + "）"@;
    let e = join_of(last_n(err, 15), "\n"@);
    let o = join_of(last_n(out, 5), "\n"@);
    if e.len() > 0 {
        head + "\n--- 错误输出末尾 ---\n"@ + e
    } else if o.len() > 0 {
        head + "\n--- 输出末尾 ---\n"@ + o
    } else {
        head
    }
}

/// What a command came to.
pub open spec fn command_result(
    op: Seq<char>,
    ended: Ended,
    out: Seq<Seq<char>>,
    err: Seq<Seq<char>>,
) -> Result<(), Seq<char>> {
    match ended {
        Ended::NotStarted(e) => Err(op + " 启动失败："@ + e@),
        Ended::TimedOut => Err(
            op + " 超时（"@ + digits_of(COMMAND_MINUTES as nat) + " 分钟），已终止子进程"@,
        ),
        Ended::WaitFailed(e) => Err(op + " 等待失败："@ + e@),
        Ended::Exited(ok, status) => if ok {
            Ok(())
        } else {
            Err(failure_text(op, status@, out, err))
        },
    }
}

/// What a command came to, whose output ended with `out` and `err`.
pub fn run_cmd_streaming(op_name: &str, ended: &Ended, out: &LineTail, err: &LineTail) -> (r: Result<
    (),
    String,
>)
    ensures
        match r {
            Ok(_) => command_result(op_name@, *ended, out@, err@) is Ok,
            Err(m) => command_result(op_name@, *ended, out@, err@) == Err::<(), Seq<char>>(m@),
        },
{
    match ended {
        Ended::NotStarted(e) => Err(op_name.to_owned().concat(" 启动失败：").concat(e.as_str())),
        Ended::TimedOut => Err(
            op_name.to_owned().concat(" 超时（").concat(decimal(COMMAND_MINUTES).as_str()).concat(
                " 分钟），已终止子进程",
            ),
        ),
        Ended::WaitFailed(e) => Err(op_name.to_owned().concat(" 等待失败：").concat(e.as_str())),
        Ended::Exited(ok, status) => {
            if *ok {
                return Ok(());
            }
            let e = err.tail(15);
            let o = out.tail(5);
            let mut msg = op_name.to_owned().concat(" 执行失败（退出码 ").concat(
                status.as_str(),
            ).concat("）");
            if !e.as_str().is_empty() {
                msg.append("\n--- 错误输出末尾 ---\n");
                msg.append(e.as_str());
            } else if !o.as_str().is_empty() {
                msg.append("\n--- 输出末尾 ---\n");
                msg.append(o.as_str());
            }
            Err(msg)
        },
    }
}

/// The line in the log behind the output of a command.
pub fn exit_line(op_name: &str, status: &str) -> (r: String)
    ensures
        r@ == "----- "@ + op_name@ + " 退出码："@ + status@ + " -----"@,
{
    "----- ".to_owned().concat(op_name).concat(" 退出码：").concat(status).concat(" -----")
}

/// What a quick question to npm came to. How npm judged of it does not count.
pub fn run_npm(ended: &Ended) -> (r: Result<(), String>)
    ensures
        match *ended {
            Ended::NotStarted(e) => r matches Err(m) && m@ == e@,
            Ended::WaitFailed(e) => r matches Err(m) && m@ == e@,
            Ended::TimedOut => r matches Err(m) && m@ == "npm 查询超时（15 秒）"@,
            Ended::Exited(_, _) => r is Ok,
        },
{
    match ended {
        Ended::NotStarted(e) => Err(e.clone()),
        Ended::WaitFailed(e) => Err(e.clone()),
        Ended::TimedOut => Err("npm 查询超时（15 秒）".to_owned()),
        Ended::Exited(_, _) => Ok(()),
    }
}

/// The line in the log about a quick question that npm did not answer.
pub fn npm_timeout_line(args: &Vec<String>) -> (r: String)
    ensures
        r@ == "npm "@ + join_of(views(args@), " "@) + " 查询超时（15 秒）"@,
{
    "npm ".to_owned().concat(join(args, " ").as_str()).concat(" 查询超时（15 秒）")
}

/// What a question to the registry came to, apart from how npm judged of it.
pub fn run_npm_query(ended: &Ended, seconds: u64) -> (r: Result<(), String>)
    ensures
        match *ended {
            Ended::NotStarted(e) => r matches Err(m) && m@ == "npm 启动失败："@ + e@,
            Ended::WaitFailed(e) => r matches Err(m) && m@ == "npm 等待失败："@ + e@,
            Ended::TimedOut => r matches Err(m) && m@ == "npm 查询超时（"@ + digits_of(
                seconds as nat,
            ) + " 秒），registry 响应过慢"@,
            Ended::Exited(_, _) => r is Ok,
        },
{
    match ended {
        Ended::NotStarted(e) => Err("npm 启动失败：".to_owned().concat(e.as_str())),
        Ended::WaitFailed(e) => Err("npm 等待失败：".to_owned().concat(e.as_str())),
        Ended::TimedOut => Err(
            "npm 查询超时（".to_owned().concat(decimal(seconds).as_str()).concat(
                " 秒），registry 响应过慢",
            ),
        ),
        Ended::Exited(_, _) => Ok(()),
    }
}

/// The lines that are not blank.
pub open spec fn said_lines(ls: Seq<Seq<char>>) -> Seq<Seq<char>>
    decreases ls.len(),
{
    if ls.len() == 0 {
        Seq::empty()
    } else if trim_of(ls.last()).len() > 0 {
        said_lines(ls.drop_last()).push(ls.last())
    } else {
        said_lines(ls.drop_last())
    }
}

/// The lines of a text that are not blank.
pub(crate) fn lines_said(s: &str) -> (r: Vec<String>)
    ensures
        views(r@) == said_lines(lines_of(s@)),
{
    let ls = lines(s);
    let ghost all = views(ls@);
    let mut out: Vec<String> = Vec::new();
    let mut i: usize = 0;
    proof {
        assert(views(out@) =~= Seq::empty());
    }
    while i < ls.len()
        invariant
            i <= ls@.len(),
            all == views(ls@),
            views(out@) == said_lines(all.take(i as int)),
        decreases ls@.len() - i,
    {
        let ghost before = out@;
        proof {
            let next = all.take(i + 1);
            assert(next.drop_last() =~= all.take(i as int));
            assert(next.last() == ls@[i as int]@);
        }
        if !trim(ls[i].as_str()).is_empty() {
            out.push(ls[i].clone());
            proof {
                assert(views(out@) =~= views(before).push(ls@[i as int]@));
            }
        }
        i += 1;
    }
    proof {
        assert(all.take(all.len() as int) =~= all);
    }
    out
}

/// What is told of a question that npm answered with an error: the end of what it said.
pub open spec fn npm_failure(op: Seq<char>, status: Seq<char>, err: Seq<char>) -> Seq<char> {
    let tail = join_of(last_n(said_lines(lines_of(err)), 8), "\n"@);
    if tail.len() == 0 {
        op + " 失败（退出码 "@ + status + "）"@
    } else {
        op + " 失败（退出码 "@ + status + "）：\n"@ + tail
    }
}

/// What is told of a question that npm answered with the error text `err`.
pub fn failure_of(op: &str, status: &str, err: &str) -> (r: String)
    ensures
        r@ == npm_failure(op@, status@, err@),
{
    let ls = lines_said(err);
    let from: usize = if ls.len() <= 8 {
        0
    } else {
        ls.len() - 8
    };
    let tail = last_lines(&ls, from);
    proof {
        assert(views(ls@).skip(0) =~= views(ls@));
    }
    let head = op.to_owned().concat(" 失败（退出码 ").concat(status);
    if tail.as_str().is_empty() {
        head.concat("）")
    } else {
        head.concat("）：\n").concat(tail.as_str())
    }
}

/// What is told of a question that npm answered with an error.
pub fn npm_failure_message(op: &str, status: &str, err: &[u8]) -> (r: String)
    ensures
        r@ == npm_failure(op@, status@, lossy_text(err@)),
{
    failure_of(op, status, lossy(err).as_str())
}

/// What npm answered to a question.
pub struct Queried {
    /// Its output.
    pub out: Vec<u8>,
    /// Its errors.
    pub err: Vec<u8>,
    /// Whether it ended well.
    pub success: bool,
    /// Its status.
    pub status: String,
}

/// The version in the output of `npm view`: the last line that is not blank.
pub open spec fn viewed_version(out: Seq<char>) -> Option<Seq<char>> {
    let ls = said_lines(lines_of(out));
    if ls.len() == 0 {
        None
    } else {
        Some(trim_of(ls.last()))
    }
}

/// The version in the output of `npm view`.
pub fn version_in(out: &str) -> (r: Result<String, String>)
    ensures
        match r {
            Ok(v) => viewed_version(out@) == Some(v@),
            Err(m) => viewed_version(out@) is None && m@ == "npm view 无输出"@,
        },
{
    let ls = lines_said(out);
    if ls.len() == 0 {
        Err("npm view 无输出".to_owned())
    } else {
        Ok(trim(ls[ls.len() - 1].as_str()).to_owned())
    }
}

/// The newest version of a package, as the registry answered.
pub open spec fn version_answered(answer: Result<Queried, String>) -> Result<Seq<char>, Seq<char>> {
    match answer {
        Err(e) => Err(e@),
        Ok(q) => if !q.success {
            Err(npm_failure("npm view"@, q.status@, lossy_text(q.err@)))
        } else {
            match viewed_version(lossy_text(q.out@)) {
                Some(v) => Ok(v),
                None => Err("npm view 无输出"@),
            }
        },
    }
}

/// The newest version of a package, as the registry answered.
pub fn npm_view_version(answer: &Result<Queried, String>) -> (r: Result<String, String>)
    ensures
        match r {
            Ok(v) => version_answered(*answer) == Ok::<Seq<char>, Seq<char>>(v@),
            Err(m) => version_answered(*answer) == Err::<Seq<char>, Seq<char>>(m@),
        },
{
    match answer {
        Err(e) => Err(e.clone()),
        Ok(q) => if !q.success {
            Err(npm_failure_message("npm view", q.status.as_str(), q.err.as_slice()))
        } else {
            version_in(lossy(q.out.as_slice()).as_str())
        },
    }
}

/// The publish time of a version in the registry's table of times.
pub fn time_of(times: &Json, version: &str) -> (r: Option<String>)
    ensures
        opt_view(r) == as_text(field(times@, version@)),
{
    match text(get(times, version)) {
        Some(s) => Some(s.to_owned()),
        None => None,
    }
}

/// The publish time of a version, as the registry answered. Where it did not, there is none.
pub fn npm_view_publish_time(answer: &Result<Queried, String>, version: &str) -> (r: Option<String>)
    ensures
        opt_view(r) == (match *answer {
            Ok(q) => if q.success && json_bytes(q.out@) is Some {
                as_text(field(json_bytes(q.out@)->0, version@))
            } else {
                None
            },
            Err(_) => None,
        }),
{
    match answer {
        Ok(q) => {
            if !q.success {
                return None;
            }
            match parse_bytes(q.out.as_slice()) {
                Some(j) => time_of(&j, version),
                None => None,
            }
        },
        Err(_) => None,
    }
}

} // verus!
