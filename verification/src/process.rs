//! Whether DSH runs, who holds its port, and what may be ended.
//!
//! A port that is in use does not show that DSH runs: another service may hold it. So a process
//! counts as DSH only where the launcher started it, where its command line names the program file
//! of DSH, or where its web server answers as DSH does.

use crate::numbers::{decimal, digits_of, number, number_in};
use crate::text::{
    double_char, doubled, find_char, has_sub, holds, join, join_of, length, lines, lines_of, lower,
    lower_of, part, position, same, split, split_of, trim, trim_of, views, words, words_of,
};
use crate::util::{lossy, lossy_text};
use vstd::prelude::*;

verus! {

/// `s` with `pid` in it.
pub open spec fn with_pid(s: Seq<u32>, pid: u32) -> Seq<u32> {
    if s.contains(pid) {
        s
    } else {
        s.push(pid)
    }
}

/// Those of `s` that `keep` holds.
pub open spec fn only(s: Seq<u32>, keep: Seq<u32>) -> Seq<u32>
    decreases s.len(),
{
    if s.len() == 0 {
        Seq::empty()
    } else if keep.contains(s.last()) {
        only(s.drop_last(), keep).push(s.last())
    } else {
        only(s.drop_last(), keep)
    }
}

/// Whether one of `pids` lives.
pub open spec fn one_lives(pids: Seq<u32>, alive: Seq<u32>) -> bool {
    only(pids, alive).len() > 0
}

/// Those of `s` that are not `pid`.
pub open spec fn without_pid(s: Seq<u32>, pid: u32) -> Seq<u32>
    decreases s.len(),
{
    if s.len() == 0 {
        Seq::empty()
    } else if s.last() == pid {
        without_pid(s.drop_last(), pid)
    } else {
        without_pid(s.drop_last(), pid).push(s.last())
    }
}

fn has_pid(v: &Vec<u32>, pid: u32) -> (r: bool)
    ensures
        r == v@.contains(pid),
{
    let mut i: usize = 0;
    while i < v.len()
        invariant
            i <= v@.len(),
            forall|j: int| 0 <= j < i ==> v@[j] != pid,
        decreases v@.len() - i,
    {
        if v[i] == pid {
            return true;
        }
        i += 1;
    }
    false
}

/// Remembers that the launcher runs the process `pid`.
pub fn track_dsh_pid(pids: &mut Vec<u32>, pid: u32)
    ensures
        final(pids)@ == with_pid(old(pids)@, pid),
{
    if !has_pid(pids, pid) {
        pids.push(pid);
    }
}

/// Forgets the process `pid`.
pub fn untrack_dsh_pid(pids: &mut Vec<u32>, pid: u32)
    ensures
        final(pids)@ == without_pid(old(pids)@, pid),
{
    let mut out: Vec<u32> = Vec::new();
    let mut i: usize = 0;
    while i < pids.len()
        invariant
            i <= pids@.len(),
            pids@ == old(pids)@,
            out@ == without_pid(pids@.take(i as int), pid),
        decreases pids@.len() - i,
    {
        proof {
            let next = pids@.take(i + 1);
            assert(next.drop_last() =~= pids@.take(i as int));
            assert(next.last() == pids@[i as int]);
        }
        if pids[i] != pid {
            out.push(pids[i]);
        }
        i += 1;
    }
    proof {
        assert(pids@.take(pids@.len() as int) =~= pids@);
    }
    *pids = out;
}

/// Whether a process that the launcher started still runs, where `alive` are those of them that
/// do. The others are forgotten.
pub fn tracked_dsh_running(pids: &mut Vec<u32>, alive: &Vec<u32>) -> (r: bool)
    ensures
        final(pids)@ == only(old(pids)@, alive@),
        r == one_lives(old(pids)@, alive@),
{
    let mut out: Vec<u32> = Vec::new();
    let mut i: usize = 0;
    while i < pids.len()
        invariant
            i <= pids@.len(),
            pids@ == old(pids)@,
            out@ == only(pids@.take(i as int), alive@),
        decreases pids@.len() - i,
    {
        proof {
            let next = pids@.take(i + 1);
            assert(next.drop_last() =~= pids@.take(i as int));
            assert(next.last() == pids@[i as int]);
        }
        if has_pid(alive, pids[i]) {
            out.push(pids[i]);
        }
        i += 1;
    }
    proof {
        assert(pids@.take(pids@.len() as int) =~= pids@);
    }
    *pids = out;
    pids.len() > 0
}

/// Whether a restore has to wait for a process of the launcher, or for one that listens.
pub open spec fn restore_waits(pids: Seq<u32>, alive: Seq<u32>, listening: bool) -> bool {
    one_lives(pids, alive) || listening
}

/// Whether a backup has to wait: only for a DSH that the launcher started, since a backup changes
/// nothing.
pub fn dsh_running_for_backup(pids: &mut Vec<u32>, alive: &Vec<u32>) -> (r: bool)
    ensures
        final(pids)@ == only(old(pids)@, alive@),
        r == one_lives(old(pids)@, alive@),
{
    tracked_dsh_running(pids, alive)
}

/// Whether a restore has to wait: for anything that holds the port too, since it replaces the
/// data.
pub fn dsh_running_for_restore(pids: &mut Vec<u32>, alive: &Vec<u32>, listening: bool) -> (r: bool)
    ensures
        final(pids)@ == only(old(pids)@, alive@),
        r == restore_waits(old(pids)@, alive@, listening),
{
    let own = tracked_dsh_running(pids, alive);
    own || listening
}

proof fn lemma_only(s: Seq<u32>, keep: Seq<u32>, pid: u32)
    ensures
        only(s, keep).contains(pid) <==> s.contains(pid) && keep.contains(pid),
    decreases s.len(),
{
    if s.len() > 0 {
        let d = s.drop_last();
        lemma_only(d, keep, pid);
        let a = only(d, keep);
        let b = only(s, keep);
        assert(s[s.len() - 1] == s.last());
        if d.contains(pid) {
            let k = choose|k: int| 0 <= k < d.len() && d[k] == pid;
            assert(s[k] == pid);
        }
        if s.contains(pid) && pid != s.last() {
            let k = choose|k: int| 0 <= k < s.len() && s[k] == pid;
            assert(d[k] == pid);
        }
        if a.contains(pid) {
            let k = choose|k: int| 0 <= k < a.len() && a[k] == pid;
            assert(b[k] == pid);
        }
        if b.contains(pid) && !a.contains(pid) {
            let k = choose|k: int| 0 <= k < b.len() && b[k] == pid;
            if k < a.len() {
                assert(a[k] == pid);
            }
        }
        if pid == s.last() && keep.contains(pid) {
            assert(b[a.len() as int] == pid);
        }
    }
}

/// A process that was remembered and still runs stays remembered; one that was forgotten does not
/// come back.
pub proof fn law_tracked_are_the_living(pids: Seq<u32>, alive: Seq<u32>, pid: u32)
    ensures
        only(pids, alive).contains(pid) <==> pids.contains(pid) && alive.contains(pid),
        with_pid(pids, pid).contains(pid),
        !without_pid(pids, pid).contains(pid),
{
    lemma_only(pids, alive, pid);
    if !pids.contains(pid) {
        assert(pids.push(pid)[pids.len() as int] == pid);
    }
    lemma_without(pids, pid);
}

proof fn lemma_without(s: Seq<u32>, pid: u32)
    ensures
        !without_pid(s, pid).contains(pid),
    decreases s.len(),
{
    if s.len() > 0 {
        lemma_without(s.drop_last(), pid);
        let a = without_pid(s.drop_last(), pid);
        let b = without_pid(s, pid);
        if b.contains(pid) {
            let k = choose|k: int| 0 <= k < b.len() && b[k] == pid;
            if k < a.len() {
                assert(a[k] == pid);
            }
        }
    }
}

/// How DSH stands.
#[derive(PartialEq, Eq, Structural, Clone, Copy)]
pub enum DshState {
    /// It runs.
    Running,
    /// Something else holds its port, or it cannot be told what.
    ForeignPort,
    /// Nothing holds its port.
    Stopped,
}

/// The name of a state.
pub fn state_name(s: DshState) -> (r: &'static str)
    ensures
        r@ == (match s {
            DshState::Running => "running"@,
            DshState::ForeignPort => "foreign-port"@,
            DshState::Stopped => "stopped"@,
        }),
{
    match s {
        DshState::Running => "running",
        DshState::ForeignPort => "foreign-port",
        DshState::Stopped => "stopped",
    }
}

/// How long it is remembered that something else holds the port, in milliseconds.
pub const FOREIGN_PORT_TTL: u64 = 30_000;

/// What is remembered about the state of DSH.
pub struct StateMemory {
    /// The processes that the launcher runs.
    pub pids: Vec<u32>,
    /// Until when something else counts as the holder of the port.
    pub foreign_until: Option<u64>,
}

/// What was found out about the state of DSH so far.
pub struct StateEvidence {
    /// The processes of the launcher that still run.
    pub alive: Vec<u32>,
    /// Whether something listens on the port.
    pub listening: Option<bool>,
    /// The listeners whose command line names DSH.
    pub mine: Option<Vec<u32>>,
    /// Whether the port answers as DSH does.
    pub probe: Option<bool>,
}

/// The state of DSH, or what has to be found out first.
#[derive(PartialEq, Eq, Structural, Clone, Copy)]
pub enum StateStep {
    /// The state.
    Known(DshState),
    /// Whether something listens on the port.
    AskListening,
    /// The listeners whose command line names DSH.
    AskMine,
    /// Whether the port answers as DSH does.
    AskProbe,
}

/// `s` with all of `more` in it.
pub open spec fn with_pids(s: Seq<u32>, more: Seq<u32>) -> Seq<u32>
    decreases more.len(),
{
    if more.len() == 0 {
        s
    } else {
        with_pid(with_pids(s, more.drop_last()), more.last())
    }
}

/// The next step towards the state, what is remembered then, and until when something else counts
/// as the holder of the port.
pub open spec fn state_next(
    pids: Seq<u32>,
    until: Option<u64>,
    ev: StateEvidence,
    now: u64,
) -> (StateStep, Seq<u32>, Option<u64>) {
    let live = only(pids, ev.alive@);
    if live.len() > 0 {
        (StateStep::Known(DshState::Running), live, until)
    } else {
        match ev.listening {
            None => (StateStep::AskListening, live, until),
            Some(false) => (StateStep::Known(DshState::Stopped), live, None),
            Some(true) => if until is Some && now < until->0 {
                (StateStep::Known(DshState::ForeignPort), live, until)
            } else {
                match ev.mine {
                    None => (StateStep::AskMine, live, until),
                    Some(m) => if m@.len() > 0 {
                        (StateStep::Known(DshState::Running), with_pids(live, m@), until)
                    } else {
                        match ev.probe {
                            None => (StateStep::AskProbe, live, until),
                            Some(true) => (StateStep::Known(DshState::Running), live, until),
                            Some(false) => (
                                StateStep::Known(DshState::ForeignPort),
                                live,
                                Some(
                                    (if now + FOREIGN_PORT_TTL <= u64::MAX {
                                        now + FOREIGN_PORT_TTL
                                    } else {
                                        u64::MAX as int
                                    }) as u64,
                                ),
                            ),
                        }
                    },
                }
            },
        }
    }
}

/// The state of DSH by what was found out so far, or what has to be found out next.
///
/// A DSH whose command line cannot be read is known by its answer, but it is not remembered as the
/// launcher's own.
pub fn dsh_state(mem: &mut StateMemory, ev: &StateEvidence, now: u64) -> (r: StateStep)
    ensures
        (r, final(mem).pids@, final(mem).foreign_until) == state_next(
            old(mem).pids@,
            old(mem).foreign_until,
            *ev,
            now,
        ),
{
    if tracked_dsh_running(&mut mem.pids, &ev.alive) {
        return StateStep::Known(DshState::Running);
    }
    match ev.listening {
        None => {
            return StateStep::AskListening;
        },
        Some(false) => {
            mem.foreign_until = None;
            return StateStep::Known(DshState::Stopped);
        },
        Some(true) => {},
    }
    match mem.foreign_until {
        Some(until) => if now < until {
            return StateStep::Known(DshState::ForeignPort);
        },
        None => {},
    }
    match &ev.mine {
        None => StateStep::AskMine,
        Some(m) => {
            if m.len() > 0 {
                let ghost live = mem.pids@;
                let ghost until = mem.foreign_until;
                let mut i: usize = 0;
                while i < m.len()
                    invariant
                        i <= m@.len(),
                        mem.foreign_until == until,
                        mem.pids@ == with_pids(live, m@.take(i as int)),
                    decreases m@.len() - i,
                {
                    proof {
                        let next = m@.take(i + 1);
                        assert(next.drop_last() =~= m@.take(i as int));
                        assert(next.last() == m@[i as int]);
                    }
                    track_dsh_pid(&mut mem.pids, m[i]);
                    i += 1;
                }
                proof {
                    assert(m@.take(m@.len() as int) =~= m@);
                }
                return StateStep::Known(DshState::Running);
            }
            match ev.probe {
                None => StateStep::AskProbe,
                Some(true) => StateStep::Known(DshState::Running),
                Some(false) => {
                    mem.foreign_until = Some(
                        if now <= u64::MAX - FOREIGN_PORT_TTL {
                            now + FOREIGN_PORT_TTL
                        } else {
                            u64::MAX
                        },
                    );
                    StateStep::Known(DshState::ForeignPort)
                },
            }
        },
    }
}

/// DSH counts as running only where there is a sign of it: a living process of the launcher, a
/// listener whose command line names it, or its answer on the port. A port in use alone is none.
pub proof fn law_running_needs_a_sign(
    pids: Seq<u32>,
    until: Option<u64>,
    ev: StateEvidence,
    now: u64,
)
    requires
        state_next(pids, until, ev, now).0 == StateStep::Known(DshState::Running),
    ensures
        only(pids, ev.alive@).len() > 0 || (ev.listening == Some(true) && ((ev.mine is Some
            && ev.mine->0@.len() > 0) || ev.probe == Some(true))),
{
}

/// With all that can be found out, the state is known.
pub proof fn law_state_is_decided(pids: Seq<u32>, until: Option<u64>, ev: StateEvidence, now: u64)
    requires
        ev.listening is Some,
        ev.mine is Some,
        ev.probe is Some,
    ensures
        state_next(pids, until, ev, now).0 is Known,
{
}

/// The process that a line of `netstat -ano` shows listening on `port`.
pub open spec fn listener(line: Seq<char>, port: u16) -> Option<u32> {
    let w = words_of(line);
    if w.len() >= 5 && w[3] == "LISTENING"@ && number_in(
        split_of(w[1], ':').last(),
        u16::MAX as nat,
    ) == Some(port as nat) {
        match number_in(w.last(), u32::MAX as nat) {
            Some(n) => Some(n as u32),
            None => None,
        }
    } else {
        None
    }
}

/// The processes that the lines show listening on `port`, each one once.
pub open spec fn listeners(ls: Seq<Seq<char>>, port: u16) -> Seq<u32>
    decreases ls.len(),
{
    if ls.len() == 0 {
        Seq::empty()
    } else {
        let before = listeners(ls.drop_last(), port);
        match listener(ls.last(), port) {
            Some(pid) => with_pid(before, pid),
            None => before,
        }
    }
}

fn line_listener(line: &str, port: u16) -> (r: Option<u32>)
    ensures
        r == listener(line@, port),
{
    let w = words(line);
    let ghost v = views(w@);
    if w.len() < 5 {
        return None;
    }
    proof {
        assert(v[3] == w@[3]@ && v[1] == w@[1]@ && v.last() == w@[w@.len() - 1]@);
    }
    if !same(w[3].as_str(), "LISTENING") {
        return None;
    }
    let parts = split(w[1].as_str(), ':');
    proof {
        assert(views(parts@).last() == parts@[parts@.len() - 1]@);
    }
    match number(parts[parts.len() - 1].as_str(), u16::MAX as u64) {
        Some(n) => if n != port as u64 {
            return None;
        },
        None => {
            return None;
        },
    }
    match number(w[w.len() - 1].as_str(), u32::MAX as u64) {
        Some(n) => Some(n as u32),
        None => None,
    }
}

/// The processes that a text of `netstat -ano` shows listening on `port`.
pub fn listeners_in(out: &str, port: u16) -> (r: Vec<u32>)
    ensures
        r@ == listeners(lines_of(out@), port),
{
    let ls = lines(out);
    let ghost all = views(ls@);
    let mut pids: Vec<u32> = Vec::new();
    let mut i: usize = 0;
    while i < ls.len()
        invariant
            i <= ls@.len(),
            all == views(ls@),
            pids@ == listeners(all.take(i as int), port),
        decreases ls@.len() - i,
    {
        proof {
            let next = all.take(i + 1);
            assert(next.drop_last() =~= all.take(i as int));
            assert(next.last() == ls@[i as int]@);
        }
        match line_listener(ls[i].as_str(), port) {
            Some(pid) => {
                track_dsh_pid(&mut pids, pid);
            },
            None => {},
        }
        i += 1;
    }
    proof {
        assert(all.take(all.len() as int) =~= all);
    }
    pids
}

/// The processes that listen on `port`, from the output of `netstat -ano`.
pub fn find_dsh_pids(out: Option<&[u8]>, port: u16) -> (r: Vec<u32>)
    ensures
        r@ == (match out {
            Some(b) => listeners(lines_of(lossy_text(b@)), port),
            None => Seq::empty(),
        }),
{
    match out {
        Some(b) => listeners_in(lossy(b).as_str(), port),
        None => Vec::new(),
    }
}

/// The conditions that name the processes.
pub open spec fn pid_conditions(pids: Seq<u32>) -> Seq<Seq<char>> {
    Seq::new(pids.len(), |i: int| "ProcessId="@ + digits_of(pids[i] as nat))
}

/// The question which of the processes have the program file `bin` in their command line.
pub open spec fn filter_question(pids: Seq<u32>, bin: Seq<char>) -> Seq<char> {
    "Get-CimInstance Win32_Process -Filter '"@ + join_of(pid_conditions(pids), " or "@)
        + "' | Where-Object { $_.CommandLine -and ($_.CommandLine.IndexOf('"@ + doubled(bin, '\'')
        + "', [System.StringComparison]::OrdinalIgnoreCase) -ge 0) } | ForEach-Object { [int]$_.ProcessId }"@
}

/// The question which of the processes have the program file `bin` in their command line. None is
/// asked where there are no processes or no program file.
pub fn filter_query(pids: &Vec<u32>, bin: &str) -> (r: Option<String>)
    ensures
        crate::text::opt_view(r) == if pids@.len() == 0 || bin@.len() == 0 {
            None
        } else {
            Some(filter_question(pids@, bin@))
        },
{
    if pids.len() == 0 || bin.is_empty() {
        return None;
    }
    let mut conds: Vec<String> = Vec::new();
    let mut i: usize = 0;
    while i < pids.len()
        invariant
            i <= pids@.len(),
            views(conds@) == pid_conditions(pids@).take(i as int),
        decreases pids@.len() - i,
    {
        let ghost before = conds@;
        conds.push("ProcessId=".to_owned().concat(decimal(pids[i] as u64).as_str()));
        proof {
            assert(views(conds@) =~= views(before).push(conds@.last()@));
            assert(conds@.last()@ == pid_conditions(pids@)[i as int]);
            assert(views(conds@) =~= pid_conditions(pids@).take(i + 1));
        }
        i += 1;
    }
    proof {
        assert(views(conds@) =~= pid_conditions(pids@));
    }
    Some(
        "Get-CimInstance Win32_Process -Filter '".to_owned().concat(
            join(&conds, " or ").as_str(),
        ).concat("' | Where-Object { $_.CommandLine -and ($_.CommandLine.IndexOf('").concat(
            double_char(bin, '\'').as_str(),
        ).concat(
            "', [System.StringComparison]::OrdinalIgnoreCase) -ge 0) } | ForEach-Object { [int]$_.ProcessId }",
        ),
    )
}

/// The processes that an answer names, of those that were asked for.
pub open spec fn named_pids(ls: Seq<Seq<char>>, pids: Seq<u32>) -> Seq<u32>
    decreases ls.len(),
{
    if ls.len() == 0 {
        Seq::empty()
    } else {
        let before = named_pids(ls.drop_last(), pids);
        match number_in(trim_of(ls.last()), u32::MAX as nat) {
            Some(n) => if pids.contains(n as u32) {
                before.push(n as u32)
            } else {
                before
            },
            None => before,
        }
    }
}

/// The processes that an answer names, of those that were asked for.
pub fn pids_in(answer: &str, pids: &Vec<u32>) -> (r: Vec<u32>)
    ensures
        r@ == named_pids(lines_of(answer@), pids@),
{
    let ls = lines(answer);
    let ghost all = views(ls@);
    let mut out: Vec<u32> = Vec::new();
    let mut i: usize = 0;
    while i < ls.len()
        invariant
            i <= ls@.len(),
            all == views(ls@),
            out@ == named_pids(all.take(i as int), pids@),
        decreases ls@.len() - i,
    {
        proof {
            let next = all.take(i + 1);
            assert(next.drop_last() =~= all.take(i as int));
            assert(next.last() == ls@[i as int]@);
        }
        match number(trim(ls[i].as_str()), u32::MAX as u64) {
            Some(n) => {
                let pid: u32 = n as u32;
                if has_pid(pids, pid) {
                    out.push(pid);
                }
            },
            None => {},
        }
        i += 1;
    }
    proof {
        assert(all.take(all.len() as int) =~= all);
    }
    out
}

/// Those of `pids` whose command line names the program file `bin`, by the answer to the question.
pub open spec fn dsh_among(pids: Seq<u32>, bin: Seq<char>, answer: Option<Seq<char>>) -> Seq<u32> {
    if pids.len() == 0 || bin.len() == 0 || answer is None {
        Seq::empty()
    } else {
        named_pids(lines_of(answer->0), pids)
    }
}

/// Those of the processes whose command line names the program file `bin`, as `answer` says.
/// Where there is no program file or no answer, there are none: what is not known is not ended.
pub fn filter_dsh_pids(pids: &Vec<u32>, bin: &str, answer: Option<&[u8]>) -> (r: Vec<u32>)
    ensures
        r@ == dsh_among(
            pids@,
            bin@,
            match answer {
                Some(b) => Some(lossy_text(b@)),
                None => None,
            },
        ),
{
    if pids.len() == 0 || bin.is_empty() {
        return Vec::new();
    }
    match answer {
        Some(b) => pids_in(lossy(b).as_str(), pids),
        None => Vec::new(),
    }
}

/// Only processes that were asked for are ever named.
pub proof fn law_named_pids_were_asked_for(ls: Seq<Seq<char>>, pids: Seq<u32>, i: int)
    requires
        0 <= i < named_pids(ls, pids).len(),
    ensures
        pids.contains(named_pids(ls, pids)[i]),
    decreases ls.len(),
{
    if ls.len() > 0 {
        let before = named_pids(ls.drop_last(), pids);
        if i < before.len() {
            law_named_pids_were_asked_for(ls.drop_last(), pids, i);
        }
    }
}

/// Whether a text is a response of the DSH web server.
pub open spec fn dsh_response(t: Seq<char>) -> bool {
    has_sub(lower_of(t), "dsh web"@)
}

/// Whether a text is a response of the DSH web server.
pub fn is_dsh_response(t: &str) -> (r: bool)
    ensures
        r == dsh_response(t@),
{
    holds(lower(t).as_str(), "dsh web")
}

/// Whether bytes are a response of the DSH web server.
pub fn looks_like_dsh_response(bytes: &[u8]) -> (r: bool)
    ensures
        r == dsh_response(lossy_text(bytes@)),
{
    is_dsh_response(lossy(bytes).as_str())
}

/// How many bytes of a response are enough to know it by.
pub const PROBE_ENOUGH: usize = 1024;

/// Whether a response is read on.
pub open spec fn reads_on(got: usize, ended: bool) -> bool {
    !ended && got < PROBE_ENOUGH
}

/// Whether a response is read on, `got` bytes of it being there and its end seen or not.
pub fn probe_reads_on(got: usize, ended: bool) -> (r: bool)
    ensures
        r == reads_on(got, ended),
{
    !ended && got < PROBE_ENOUGH
}

/// The request that DSH is known by the answer to.
pub fn probe_request(port: u16) -> (r: String)
    ensures
        r@ == "GET / HTTP/1.0\r\nHost: 127.0.0.1:"@ + digits_of(port as nat)
            + "\r\nConnection: close\r\n\r\n"@,
{
    "GET / HTTP/1.0\r\nHost: 127.0.0.1:".to_owned().concat(decimal(port as u64).as_str()).concat(
        "\r\nConnection: close\r\n\r\n",
    )
}

/// The processes that may be ended as DSH, or what has to be found out first.
pub enum Termination {
    /// The processes.
    Pids(Vec<u32>),
    /// Whether the port answers as DSH does.
    AskProbe,
}

/// The processes that may be ended as DSH, once that is known: of the listeners those whose command
/// line names it, or all of them where the port answers as DSH does.
pub open spec fn endable(pids: Seq<u32>, verified: Seq<u32>, probe: Option<bool>) -> Option<
    Seq<u32>,
> {
    if pids.len() == 0 {
        Some(Seq::empty())
    } else if verified.len() > 0 {
        Some(verified)
    } else {
        match probe {
            Some(true) => Some(pids),
            Some(false) => Some(Seq::empty()),
            None => None,
        }
    }
}

/// The processes that may be ended as DSH: of the listeners those whose command line names it, or
/// all of them where the port answers as DSH does. Where neither shows it, there are none.
pub fn dsh_pids_for_termination(
    pids: &Vec<u32>,
    verified: &Vec<u32>,
    probe: Option<bool>,
) -> (r: Termination)
    ensures
        match r {
            Termination::Pids(v) => endable(pids@, verified@, probe) == Some(v@),
            Termination::AskProbe => endable(pids@, verified@, probe) is None,
        },
{
    if pids.len() == 0 {
        return Termination::Pids(Vec::new());
    }
    if verified.len() > 0 {
        return Termination::Pids(copy_pids(verified));
    }
    match probe {
        None => Termination::AskProbe,
        Some(true) => Termination::Pids(copy_pids(pids)),
        Some(false) => Termination::Pids(Vec::new()),
    }
}

/// Only listeners are ended, and only where the command line of one of them names DSH or the port
/// answers as DSH does.
pub proof fn law_only_dsh_is_ended(
    pids: Seq<u32>,
    answer: Seq<Seq<char>>,
    probe: Option<bool>,
    i: int,
)
    requires
        endable(pids, named_pids(answer, pids), probe) is Some,
        0 <= i < endable(pids, named_pids(answer, pids), probe)->0.len(),
    ensures
        pids.contains(endable(pids, named_pids(answer, pids), probe)->0[i]),
        named_pids(answer, pids).contains(endable(pids, named_pids(answer, pids), probe)->0[i])
            || probe == Some(true),
{
    let named = named_pids(answer, pids);
    if named.len() > 0 {
        law_named_pids_were_asked_for(answer, pids, i);
        assert(named.contains(named[i]));
    } else {
        assert(pids.contains(pids[i]));
    }
}

fn copy_pids(v: &Vec<u32>) -> (r: Vec<u32>)
    ensures
        r@ == v@,
{
    let mut out: Vec<u32> = Vec::new();
    let mut i: usize = 0;
    while i < v.len()
        invariant
            i <= v@.len(),
            out@ == v@.take(i as int),
        decreases v@.len() - i,
    {
        out.push(v[i]);
        proof {
            assert(v@.take(i + 1) =~= v@.take(i as int).push(v@[i as int]));
        }
        i += 1;
    }
    proof {
        assert(v@.take(v@.len() as int) =~= v@);
    }
    out
}

/// Who holds the port.
pub struct PortOwnerInfo {
    /// The process.
    pub pid: u32,
    /// Its name, where it is known.
    pub name: String,
    /// The path of its program, where it is known.
    pub path: String,
    /// Whether its command line names DSH.
    pub is_dsh: bool,
    /// Whether it answers as DSH does, its command line being unknown.
    pub likely_dsh: bool,
}

/// Who holds a port: the name of the process, or its path where it has none.
pub open spec fn owner_text(name: Seq<char>, path: Seq<char>, pid: u32) -> Seq<char> {
    (if name.len() > 0 {
        name
    } else if path.len() > 0 {
        path
    } else {
        "未知进程"@
    }) + "（PID "@ + digits_of(pid as nat) + "）"@
}

impl PortOwnerInfo {
    /// The process in one line: its name or path, and its number.
    pub fn describe(&self) -> (r: String)
        ensures
            r@ == owner_text(self.name@, self.path@, self.pid),
    {
        let what: String = if !self.name.as_str().is_empty() {
            self.name.clone()
        } else if !self.path.as_str().is_empty() {
            self.path.clone()
        } else {
            "未知进程".to_owned()
        };
        what.concat("（PID ").concat(decimal(self.pid as u64).as_str()).concat("）")
    }
}

/// The question for the name and the program of a process.
pub fn identity_query(pid: u32) -> (r: String)
    ensures
        r@
            == "[Console]::OutputEncoding=[Text.Encoding]::UTF8; Get-CimInstance Win32_Process -Filter 'ProcessId="@
            + digits_of(pid as nat) + "' | ForEach-Object { $_.Name + '|' + $_.ExecutablePath }"@,
{
    "[Console]::OutputEncoding=[Text.Encoding]::UTF8; Get-CimInstance Win32_Process -Filter 'ProcessId=".to_owned().concat(
    decimal(pid as u64).as_str()).concat("' | ForEach-Object { $_.Name + '|' + $_.ExecutablePath }")
}

/// The first line that is not blank, trimmed.
pub open spec fn first_said(ls: Seq<Seq<char>>) -> Option<Seq<char>>
    decreases ls.len(),
{
    if ls.len() == 0 {
        None
    } else if trim_of(ls[0]).len() > 0 {
        Some(trim_of(ls[0]))
    } else {
        first_said(ls.skip(1))
    }
}

/// The name and the program that an answer gives.
pub open spec fn identity_of(answer: Seq<char>) -> (Seq<char>, Seq<char>) {
    match first_said(lines_of(answer)) {
        Some(l) => {
            let n = find_char(l, '|');
            if n < l.len() {
                (trim_of(l.take(n)), trim_of(l.skip(n + 1)))
            } else {
                (l, Seq::empty())
            }
        },
        None => (Seq::empty(), Seq::empty()),
    }
}

/// The name and the program that an answer gives.
pub fn identity_in(answer: &str) -> (r: (String, String))
    ensures
        (r.0@, r.1@) == identity_of(answer@),
{
    let ls = lines(answer);
    let ghost all = views(ls@);
    let mut i: usize = 0;
    proof {
        assert(all.skip(0) =~= all);
    }
    while i < ls.len()
        invariant
            i <= ls@.len(),
            all == views(ls@),
            all == lines_of(answer@),
            first_said(all) == first_said(all.skip(i as int)),
        decreases ls@.len() - i,
    {
        let l = trim(ls[i].as_str());
        proof {
            assert(all.skip(i as int)[0] == ls@[i as int]@);
            assert(all.skip(i as int).skip(1) =~= all.skip(i + 1));
        }
        if !l.is_empty() {
            let n: usize = position(l, '|');
            let len: usize = length(l);
            if n < len {
                let a = part(l, 0, n);
                let b = part(l, n + 1, len);
                proof {
                    assert(a@ =~= l@.take(n as int));
                    assert(b@ =~= l@.skip(n + 1));
                }
                return (trim(a).to_owned(), trim(b).to_owned());
            }
            return (l.to_owned(), String::new());
        }
        i += 1;
    }
    (String::new(), String::new())
}

/// The name and the program of a process, empty where there is no answer.
pub fn process_identity(answer: Option<&[u8]>) -> (r: (String, String))
    ensures
        (r.0@, r.1@) == (match answer {
            Some(b) => identity_of(lossy_text(b@)),
            None => (Seq::empty(), Seq::empty()),
        }),
{
    match answer {
        Some(b) => identity_in(lossy(b).as_str()),
        None => (String::new(), String::new()),
    }
}

/// Who holds the port: the first of the listeners, with what was found out about it.
pub fn port_owner_info(
    pids: &Vec<u32>,
    verified: bool,
    probe: bool,
    identity: (String, String),
) -> (r: Option<PortOwnerInfo>)
    ensures
        match r {
            Some(o) => {
                &&& pids@.len() > 0 && o.pid == pids@[0]
                &&& o.name@ == identity.0@ && o.path@ == identity.1@
                &&& o.is_dsh == verified
                &&& o.likely_dsh == (!verified && probe)
            },
            None => pids@.len() == 0,
        },
{
    if pids.len() == 0 {
        return None;
    }
    Some(
        PortOwnerInfo {
            pid: pids[0],
            name: identity.0,
            path: identity.1,
            is_dsh: verified,
            likely_dsh: !verified && probe,
        },
    )
}

/// How often the port is looked at until it counts as still in use behind the ending of a process.
pub const KILL_LOOKS: u32 = 12;

/// What to do about a port that is to become free.
#[derive(PartialEq, Eq, Structural, Clone, Copy)]
pub enum ReleaseStep {
    /// It is free.
    Free,
    /// It counts as still in use.
    Held,
    /// Wait a little and look again.
    Sleep,
}

/// What to do about a port that is to become free, after `slept` waits of at most `looks`.
pub open spec fn release_next(listening: bool, slept: u32, looks: u32) -> ReleaseStep {
    if !listening {
        ReleaseStep::Free
    } else if slept < looks {
        ReleaseStep::Sleep
    } else {
        ReleaseStep::Held
    }
}

/// What to do about a port that is to become free, after `slept` waits of at most `looks`.
pub fn release_step(listening: bool, slept: u32, looks: u32) -> (r: ReleaseStep)
    ensures
        r == release_next(listening, slept, looks),
{
    if !listening {
        ReleaseStep::Free
    } else if slept < looks {
        ReleaseStep::Sleep
    } else {
        ReleaseStep::Held
    }
}

/// What was found out and done so far about a process that holds the port and is to be ended.
pub struct KillEvidence {
    /// Who listens on the port.
    pub listeners: Option<Vec<u32>>,
    /// Whether the command line of the process names DSH.
    pub verified: Option<bool>,
    /// Whether the port answers as DSH does.
    pub probe: Option<bool>,
    /// The name of the process.
    pub name: Option<String>,
    /// What came of ending it.
    pub killed: Option<Result<(), String>>,
    /// Whether the port is free now.
    pub released: Option<bool>,
}

/// What to do next about a process that holds the port.
pub enum KillStep {
    /// Find out who listens on the port.
    AskListeners,
    /// Find out whether its command line names DSH.
    AskVerified,
    /// Find out whether the port answers as DSH does.
    AskProbe,
    /// Find out its name.
    AskName,
    /// End it, and log the line.
    Kill(String),
    /// Wait for the port to become free.
    AwaitRelease,
    /// It is done, or refused.
    Done(Result<String, String>),
}

/// The values of a step.
pub enum KillView {
    /// Find out who listens on the port.
    AskListeners,
    /// Find out whether its command line names DSH.
    AskVerified,
    /// Find out whether the port answers as DSH does.
    AskProbe,
    /// Find out its name.
    AskName,
    /// End it.
    Kill(Seq<char>),
    /// Wait for the port to become free.
    AwaitRelease,
    /// It is done, or refused.
    Done(Result<Seq<char>, Seq<char>>),
}

impl View for KillStep {
    type V = KillView;

    open spec fn view(&self) -> KillView {
        match self {
            KillStep::AskListeners => KillView::AskListeners,
            KillStep::AskVerified => KillView::AskVerified,
            KillStep::AskProbe => KillView::AskProbe,
            KillStep::AskName => KillView::AskName,
            KillStep::Kill(s) => KillView::Kill(s@),
            KillStep::AwaitRelease => KillView::AwaitRelease,
            KillStep::Done(Ok(s)) => KillView::Done(Ok(s@)),
            KillStep::Done(Err(s)) => KillView::Done(Err(s@)),
        }
    }
}

/// A process for a reader.
pub open spec fn who_of(pid: u32, name: Seq<char>) -> Seq<char> {
    if name.len() == 0 {
        "PID "@ + digits_of(pid as nat)
    } else {
        name + " (PID "@ + digits_of(pid as nat) + ")"@
    }
}

/// What to do next about the process `pid` that holds `port`, `own` being the launcher's own.
pub open spec fn kill_next(pid: u32, own: u32, port: u16, ev: KillEvidence) -> KillView {
    if pid == 0 || pid == 4 || pid == own {
        KillView::Done(Err("拒绝终止系统进程或启动器自身"@))
    } else if ev.listeners is None {
        KillView::AskListeners
    } else if !ev.listeners->0@.contains(pid) {
        KillView::Done(
            Err(
                "进程 "@ + digits_of(pid as nat) + " 已不再监听端口 "@ + digits_of(port as nat)
                    + "（可能刚刚退出），请点「重新检测」"@,
            ),
        )
    } else if ev.verified is None {
        KillView::AskVerified
    } else if ev.verified->0 {
        KillView::Done(Err("该进程就是 DSH 自身，请改用「关闭 Web 界面」"@))
    } else if ev.probe is None {
        KillView::AskProbe
    } else if ev.probe->0 {
        KillView::Done(
            Err(
                "该端口由 DSH 自身占用（可能以管理员权限运行），请改用「关闭 Web 界面」；若关闭失败，请点「以管理员身份重启启动器」后重试"@,
            ),
        )
    } else if ev.name is None {
        KillView::AskName
    } else {
        let who = who_of(pid, ev.name->0@);
        match ev.killed {
            None => KillView::Kill(
                "结束占用端口 "@ + digits_of(port as nat) + " 的进程："@ + who,
            ),
            Some(Err(e)) => KillView::Done(Err(e@)),
            Some(Ok(_)) => match ev.released {
                None => KillView::AwaitRelease,
                Some(true) => KillView::Done(
                    Ok("已结束 "@ + who + "，端口 "@ + digits_of(port as nat) + " 已释放"@),
                ),
                Some(false) => KillView::Done(
                    Err(
                        "已结束 "@ + who + "，但端口 "@ + digits_of(port as nat)
                            + " 仍被监听（可能存在多个占用者）"@,
                    ),
                ),
            },
        }
    }
}

fn who(pid: u32, name: &str) -> (r: String)
    ensures
        r@ == who_of(pid, name@),
{
    if name.is_empty() {
        "PID ".to_owned().concat(decimal(pid as u64).as_str())
    } else {
        name.to_owned().concat(" (PID ").concat(decimal(pid as u64).as_str()).concat(")")
    }
}

/// What to do next about the process `pid` that holds `port`, `own` being the launcher's own.
///
/// It is ended only where it is neither a process of the system nor DSH, and where it still listens
/// on the port, so that no other process is hit that got its number meanwhile.
pub fn kill_port_owner(pid: u32, own: u32, port: u16, ev: &KillEvidence) -> (r: KillStep)
    ensures
        r@ == kill_next(pid, own, port, *ev),
{
    if pid == 0 || pid == 4 || pid == own {
        return KillStep::Done(Err("拒绝终止系统进程或启动器自身".to_owned()));
    }
    match &ev.listeners {
        None => {
            return KillStep::AskListeners;
        },
        Some(l) => if !has_pid(l, pid) {
            return KillStep::Done(
                Err(
                    "进程 ".to_owned().concat(decimal(pid as u64).as_str()).concat(
                        " 已不再监听端口 ",
                    ).concat(decimal(port as u64).as_str()).concat(
                        "（可能刚刚退出），请点「重新检测」",
                    ),
                ),
            );
        },
    }
    match ev.verified {
        None => {
            return KillStep::AskVerified;
        },
        Some(v) => if v {
            return KillStep::Done(Err("该进程就是 DSH 自身，请改用「关闭 Web 界面」".to_owned()));
        },
    }
    match ev.probe {
        None => {
            return KillStep::AskProbe;
        },
        Some(p) => if p {
            return KillStep::Done(
                Err(
                    "该端口由 DSH 自身占用（可能以管理员权限运行），请改用「关闭 Web 界面」；若关闭失败，请点「以管理员身份重启启动器」后重试".to_owned(),
                ),
            );
        },
    }
    let name = match &ev.name {
        None => {
            return KillStep::AskName;
        },
        Some(n) => n,
    };
    let who = who(pid, name.as_str());
    let port_text = decimal(port as u64);
    match &ev.killed {
        None => KillStep::Kill(
            "结束占用端口 ".to_owned().concat(port_text.as_str()).concat(" 的进程：").concat(
                who.as_str(),
            ),
        ),
        Some(Err(e)) => KillStep::Done(Err(e.clone())),
        Some(Ok(_)) => match ev.released {
            None => KillStep::AwaitRelease,
            Some(true) => KillStep::Done(
                Ok(
                    "已结束 ".to_owned().concat(who.as_str()).concat("，端口 ").concat(
                        port_text.as_str(),
                    ).concat(" 已释放"),
                ),
            ),
            Some(false) => KillStep::Done(
                Err(
                    "已结束 ".to_owned().concat(who.as_str()).concat("，但端口 ").concat(
                        port_text.as_str(),
                    ).concat(" 仍被监听（可能存在多个占用者）"),
                ),
            ),
        },
    }
}

/// A process is ended only where it listens on the port, is neither DSH nor of the system, and is
/// not the launcher.
pub proof fn law_only_foreign_listeners_are_ended(pid: u32, own: u32, port: u16, ev: KillEvidence)
    requires
        kill_next(pid, own, port, ev) is Kill,
    ensures
        pid != 0 && pid != 4 && pid != own,
        ev.listeners is Some && ev.listeners->0@.contains(pid),
        ev.verified == Some(false),
        ev.probe == Some(false),
{
}

} // verus!
