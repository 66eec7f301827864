//! What holds of what programs say: which lines of it are told, and how sizes, logs and failures are
//! told.

use crate::npm::{
    command_result, failure_text, last_n, npm_failure, remembered, said_lines, version_answered,
    viewed_version, wait_next, Ended, Polled, Queried, WaitStep, COMMAND_MINUTES, NPM_SECONDS,
    NPM_VIEW_SECONDS, TAIL_KEEP,
};
use crate::numbers::digits_of;
use crate::text::{is_space, join_of, lines_of, trim_of, Strip};
use crate::text_laws::{all_stripped, law_strip_takes_off_what_stands_round};
use crate::util::{
    as_double, double_step, half_even, kill_error, log_full, log_start, lossy_text, next_line,
    relaunch_fault, shell_succeeds, size_text, utf16_of, utf16_text,
};
use vstd::prelude::*;

verus! {

/// The end of a list is its last part: all of it where it is short, and exactly the last `n` of a
/// longer one.
pub proof fn law_end_of_a_list<T>(a: Seq<T>, b: Seq<T>, n: int)
    requires
        n >= 0,
    ensures
        b.len() == n ==> last_n(a + b, n) == b,
        b.len() <= n ==> last_n(b, n) == b,
{
    if b.len() == n {
        if a.len() == 0 {
            assert(a + b =~= b);
        } else {
            assert((a + b).skip(a.len() as int) =~= b);
        }
    }
}

/// The lines that say something stay as they are and in their order; those that hold white space
/// only go.
pub proof fn law_blank_lines_are_passed_over(a: Seq<Seq<char>>, x: Seq<char>, b: Seq<Seq<char>>)
    ensures
        said_lines(a + b) == said_lines(a) + said_lines(b),
        said_lines(seq![x]) == if trim_of(x).len() > 0 {
            seq![x]
        } else {
            Seq::empty()
        },
    decreases b.len(),
{
    let none = Seq::<Seq<char>>::empty();
    assert(said_lines(none) =~= none);
    assert(seq![x].drop_last() =~= none);
    assert(none.push(x) =~= seq![x]);
    if b.len() == 0 {
        assert(a + b =~= a);
        assert(said_lines(a) + said_lines(b) =~= said_lines(a));
    } else {
        assert((a + b).drop_last() =~= a + b.drop_last());
        law_blank_lines_are_passed_over(a, x, b.drop_last());
        assert(said_lines(a + b) =~= said_lines(a) + said_lines(b));
    }
}

/// A failure is told with the last 15 lines of the errors, or, where there are none, with the last 5
/// lines of the output; and with the status alone where nothing was said.
pub proof fn law_failure_is_told_with_its_last_lines(
    op: Seq<char>,
    status: Seq<char>,
    a: Seq<Seq<char>>,
    out: Seq<Seq<char>>,
    b: Seq<Seq<char>>,
    err: Seq<Seq<char>>,
)
    requires
        out.len() == 5 || (out.len() < 5 && a.len() == 0),
        err.len() == 15 || (err.len() < 15 && b.len() == 0),
    ensures
        ({
            let head = op + " 执行失败（退出码 "@ + status + "）"@;
            let e = join_of(err, "\n"@);
            let o = join_of(out, "\n"@);
            let r = failure_text(op, status, a + out, b + err);
            &&& e.len() > 0 ==> r == head + "\n--- 错误输出末尾 ---\n"@ + e
            &&& e.len() == 0 && o.len() > 0 ==> r == head + "\n--- 输出末尾 ---\n"@ + o
            &&& e.len() == 0 && o.len() == 0 ==> r == head
        }),
{
    law_end_of_a_list(a, out, 5);
    law_end_of_a_list(b, err, 15);
    if a.len() == 0 {
        assert(a + out =~= out);
    }
    if b.len() == 0 {
        assert(b + err =~= err);
    }
}

/// A command succeeds if and only if it was started and ended well. Each other end is told for what
/// it is.
pub proof fn law_only_a_good_end_is_success(
    op: Seq<char>,
    ended: Ended,
    out: Seq<Seq<char>>,
    err: Seq<Seq<char>>,
)
    ensures
        command_result(op, ended, out, err) is Ok <==> ended is Exited && ended->Exited_0,
        ended is Exited && !ended->Exited_0 ==> command_result(op, ended, out, err)->Err_0
            == failure_text(op, ended->Exited_1@, out, err),
        ended is NotStarted ==> command_result(op, ended, out, err)->Err_0 == op + " 启动失败："@
            + ended->NotStarted_0@,
        ended is WaitFailed ==> command_result(op, ended, out, err)->Err_0 == op + " 等待失败："@
            + ended->WaitFailed_0@,
        ended is TimedOut ==> command_result(op, ended, out, err)->Err_0 == op + " 超时（"@
            + digits_of(30) + " 分钟），已终止子进程"@,
{
}

/// A failed question is told with the last 8 lines that say something.
pub proof fn law_failed_question_is_told_with_its_last_lines(
    op: Seq<char>,
    status: Seq<char>,
    err: Seq<char>,
    a: Seq<Seq<char>>,
    b: Seq<Seq<char>>,
)
    requires
        said_lines(lines_of(err)) == a + b,
        b.len() == 8 || (b.len() < 8 && a.len() == 0),
    ensures
        join_of(b, "\n"@).len() > 0 ==> npm_failure(op, status, err) == op + " 失败（退出码 "@
            + status + "）：\n"@ + join_of(b, "\n"@),
        join_of(b, "\n"@).len() == 0 ==> npm_failure(op, status, err) == op + " 失败（退出码 "@
            + status + "）"@,
{
    law_end_of_a_list(a, b, 8);
    if a.len() == 0 {
        assert(a + b =~= b);
    }
}

/// The version in an answer is the last line that says something, without the white space round it.
pub proof fn law_version_is_the_last_line(
    out: Seq<char>,
    a: Seq<Seq<char>>,
    g: Seq<char>,
    v: Seq<char>,
    h: Seq<char>,
    b: Seq<Seq<char>>,
)
    requires
        lines_of(out) == a + seq![g + v + h] + b,
        all_stripped(g, Strip::Space),
        all_stripped(h, Strip::Space),
        v.len() > 0,
        !is_space(v[0]) && !is_space(v.last()),
        forall|i: int| 0 <= i < b.len() ==> all_stripped(#[trigger] b[i], Strip::Space),
    ensures
        viewed_version(out) == Some(v),
{
    let l = g + v + h;
    law_strip_takes_off_what_stands_round(g, v, h, Strip::Space);
    law_blank_lines_are_passed_over(a + seq![l], l, b);
    law_blank_lines_are_passed_over(a, l, seq![l]);
    lemma_nothing_said(b);
    let s = said_lines(lines_of(out));
    assert(s =~= said_lines(a) + seq![l]);
    assert(s.last() == l);
}

proof fn lemma_nothing_said(b: Seq<Seq<char>>)
    requires
        forall|i: int| 0 <= i < b.len() ==> all_stripped(#[trigger] b[i], Strip::Space),
    ensures
        said_lines(b).len() == 0,
    decreases b.len(),
{
    if b.len() > 0 {
        let none = Seq::<char>::empty();
        let l = b[b.len() - 1];
        assert(all_stripped(l, Strip::Space));
        law_strip_takes_off_what_stands_round(l, none, none, Strip::Space);
        assert(l + none + none =~= l);
        let d = b.drop_last();
        assert forall|i: int| 0 <= i < d.len() implies all_stripped(#[trigger] d[i], Strip::Space) by {
            assert(d[i] == b[i]);
        }
        lemma_nothing_said(d);
    }
}

/// An answer in which no line says anything holds no version.
pub proof fn law_blank_answer_holds_no_version(out: Seq<char>)
    requires
        forall|i: int|
            0 <= i < lines_of(out).len() ==> all_stripped(#[trigger] lines_of(out)[i], Strip::Space),
    ensures
        viewed_version(out) is None,
{
    lemma_nothing_said(lines_of(out));
}

/// The character that one or two units of UTF-16 write.
pub open spec fn decoded(u: Seq<u16>) -> int {
    if u.len() == 1 {
        u[0] as int
    } else {
        0x10000 + (u[0] - 0xd800) * 0x400 + (u[1] - 0xdc00)
    }
}

/// A text is written in UTF-16 character by character. A character is one unit that is no half of a
/// pair, or a high half and a low half that give the character back.
pub proof fn law_utf16_gives_the_characters_back(a: Seq<char>, c: char, b: Seq<char>)
    ensures
        utf16_text(a + b) == utf16_text(a) + utf16_text(b),
        utf16_text(seq![c]) == utf16_of(c),
        decoded(utf16_of(c)) == c as int,
        utf16_of(c).len() == 1 <==> (c as u32) < 0x10000,
        utf16_of(c).len() == 2 <==> (c as u32) >= 0x10000,
        utf16_of(c).len() == 2 ==> 0xd800 <= utf16_of(c)[0] < 0xdc00 && 0xdc00 <= utf16_of(c)[1]
            < 0xe000,
    decreases b.len(),
{
    let n = c as u32;
    assert(n <= 0x10ffff);
    if n >= 0x10000 {
        let m = (n - 0x10000) as int;
        assert(m / 0x400 < 0x400 && m % 0x400 < 0x400 && m == (m / 0x400) * 0x400 + m % 0x400);
    }
    let none = Seq::<char>::empty();
    assert(utf16_text(none) =~= Seq::empty());
    assert(seq![c].drop_last() =~= none);
    assert(Seq::<u16>::empty() + utf16_of(c) =~= utf16_of(c));
    if b.len() == 0 {
        assert(a + b =~= a);
        assert(utf16_text(a) + utf16_text(b) =~= utf16_text(a));
    } else {
        assert((a + b).drop_last() =~= a + b.drop_last());
        law_utf16_gives_the_characters_back(a, c, b.drop_last());
        assert(utf16_text(a + b) =~= utf16_text(a) + utf16_text(b));
    }
}

proof fn lemma_half_even(n: nat, d: nat)
    requires
        d > 0,
    ensures
        ({
            let q = half_even(n, d) as int;
            &&& -(d as int) <= 2 * (q * d - n) <= d
            &&& 2 * (q * d - n) == d || 2 * (n - q * d) == d ==> q % 2 == 0
        }),
{
    let q = (n / d) as int;
    let r = (n % d) as int;
    vstd::arithmetic::div_mod::lemma_fundamental_div_mod(n as int, d as int);
    vstd::arithmetic::div_mod::lemma_mod_bound(n as int, d as int);
    assert(d * q == q * d) by (nonlinear_arith);
    assert((q + 1) * d == q * d + d) by (nonlinear_arith);
}

/// Sizes below 8 PiB are told exactly to the nearest step: below one MiB in whole KiB, from there on
/// in tenths of a MiB. Half a step goes to the even side.
pub proof fn law_sizes_are_told_to_the_nearest_step(bytes: nat) -> (n: nat)
    requires
        bytes < 0x20_0000_0000_0000,
    ensures
        bytes < 0x10_0000 ==> size_text(bytes) == digits_of(n) + " KB"@ && -1024 <= 2 * (n * 1024
            - bytes) <= 1024 && (2 * (n * 1024 - bytes) == 1024 || 2 * (bytes - n * 1024) == 1024
            ==> n % 2 == 0),
        bytes >= 0x10_0000 ==> size_text(bytes) == digits_of(n / 10) + "."@ + digits_of(n % 10)
            + " MB"@ && -0x10_0000 <= 2 * (n * 0x10_0000 - bytes * 10) <= 0x10_0000 && (2 * (n
            * 0x10_0000 - bytes * 10) == 0x10_0000 || 2 * (bytes * 10 - n * 0x10_0000) == 0x10_0000
            ==> n % 2 == 0),
{
    assert(double_step(bytes) == 1);
    assert(as_double(bytes) == bytes) by {
        assert(bytes / 1 == bytes && bytes % 1 == 0);
    }
    if bytes < 0x10_0000 {
        lemma_half_even(bytes, 1024);
        half_even(bytes, 1024)
    } else {
        lemma_half_even(bytes * 10, 0x10_0000);
        half_even(bytes * 10, 0x10_0000)
    }
}

proof fn lemma_next_line(b: Seq<u8>, i: int, from: int)
    requires
        0 <= i,
    ensures
        next_line(b, i, from) != from ==> i < next_line(b, i, from) <= b.len() && b[next_line(
            b,
            i,
            from,
        ) - 1] == 10 && forall|j: int| i <= j < next_line(b, i, from) - 1 ==> b[j] != 10,
        next_line(b, i, from) == from && from <= i ==> forall|j: int| i <= j < b.len() ==> b[j] != 10,
    decreases b.len() - i,
{
    if i < b.len() && b[i] != 10 {
        lemma_next_line(b, i + 1, from);
        if next_line(b, i, from) == from && from <= i {
            assert forall|j: int| i <= j < b.len() implies b[j] != 10 by {}
        }
    }
}

/// A log of at most 2 MiB is kept whole. Of a longer one the last 512 KiB are kept, from the first
/// line that starts in them; where no line does, all of them.
pub proof fn law_log_is_kept_from_the_first_whole_line(b: Seq<u8>)
    ensures
        b.len() <= 2 * 1024 * 1024 ==> log_start(b) == 0,
        b.len() > 2 * 1024 * 1024 ==> ({
            let from = b.len() - 512 * 1024;
            let n = log_start(b);
            &&& n >= from
            &&& n > from ==> n <= b.len() && b[n - 1] == 10 && forall|j: int|
                from <= j < n - 1 ==> b[j] != 10
            &&& n == from ==> forall|j: int| from <= j < b.len() ==> b[j] != 10
        }),
{
    if b.len() > 2 * 1024 * 1024 {
        let from = b.len() - 512 * 1024;
        lemma_next_line(b, from, from);
    }
}

/// Why a process could not be ended is told with the process and with what was said of it, or with
/// the status where nothing was said. Who has no rights of an administrator is told how to get them.
pub proof fn law_why_a_process_stays(
    pid: u32,
    a: Seq<char>,
    w: Seq<char>,
    b: Seq<char>,
    status: Seq<char>,
)
    requires
        all_stripped(a, Strip::Space),
        all_stripped(b, Strip::Space),
        w.len() > 0 ==> !is_space(w[0]) && !is_space(w.last()),
    ensures
        ({
            let what = "无法终止进程 "@ + digits_of(pid as nat) + "（"@ + if w.len() == 0 {
                "taskkill 退出码 "@ + status
            } else {
                w
            };
            &&& kill_error(pid, a + w + b, status, true) == what + "）"@
            &&& kill_error(pid, a + w + b, status, false) == what
                + "）。若该进程以管理员权限启动，需要以管理员身份运行启动器才能结束它——可在设置页点「以管理员身份重启启动器」后重试"@
        }),
{
    law_strip_takes_off_what_stands_round(a, w, b, Strip::Space);
}

/// A program that is waited for is waited for as long as it runs, up to the deadline; its end ends
/// the waiting at any time.
pub proof fn law_programs_are_waited_for(polled: Polled, now: u64, deadline: u64)
    ensures
        wait_next(polled, now, deadline) == WaitStep::Sleep <==> polled == Polled::Running && now
            < deadline,
        wait_next(polled, now, deadline) == WaitStep::TimeOut <==> polled == Polled::Running && now
            >= deadline,
        wait_next(polled, now, deadline) == WaitStep::Finish <==> polled == Polled::Exited,
        wait_next(polled, now, deadline) == WaitStep::GiveUp <==> polled == Polled::Failed,
{
}

/// Sizes from 8 PiB on are first rounded as a floating-point number of 53 bits is: to the nearest
/// multiple of a power of two, by less than a part in 2 to the power of 52.
pub proof fn law_large_sizes_are_rounded_first(bytes: nat)
    ensures
        double_step(bytes) > 0,
        bytes < 0x20_0000_0000_0000 * double_step(bytes),
        double_step(bytes) > 1 ==> bytes >= 0x10_0000_0000_0000 * double_step(bytes),
        -(double_step(bytes) as int) <= 2 * (as_double(bytes) - bytes) <= double_step(bytes),
    decreases bytes,
{
    let d = double_step(bytes);
    if bytes >= 0x20_0000_0000_0000 {
        law_large_sizes_are_rounded_first(bytes / 2);
    }
    lemma_half_even(bytes, d);
}

/// A log is cut once it is over 2 MiB, which is when something of it goes.
pub proof fn law_log_is_cut_when_it_is_full(b: Seq<u8>)
    requires
        b.len() <= u64::MAX,
    ensures
        log_full(b.len() as u64) <==> b.len() > 2 * 1024 * 1024,
        log_start(b) > 0 ==> log_full(b.len() as u64),
{
}

/// The shell did what it was asked for if its answer is over 32. A launcher that is not started again
/// is told why: 5 says that the user refused.
pub proof fn law_answers_of_the_shell(code: usize)
    ensures
        shell_succeeds(code) <==> code >= 33,
        relaunch_fault(code) is None <==> code >= 33,
        code == 5 ==> relaunch_fault(code) == Some(
            "提权请求被取消（UAC 未同意），启动器未重启"@,
        ),
        code <= 32 && code != 5 ==> relaunch_fault(code) == Some(
            "提权重启失败（ShellExecuteW 返回 "@ + digits_of(code as nat) + "）"@,
        ),
{
}

/// The newest version is that of an answer that succeeded. A question that could not be asked, one
/// that failed and one that was answered with nothing are each told.
pub proof fn law_newest_version_is_what_was_answered(answer: Result<Queried, String>)
    ensures
        answer is Err ==> version_answered(answer) == Err::<Seq<char>, Seq<char>>(answer->Err_0@),
        answer is Ok && !answer->Ok_0.success ==> version_answered(answer) == Err::<
            Seq<char>,
            Seq<char>,
        >(npm_failure("npm view"@, answer->Ok_0.status@, lossy_text(answer->Ok_0.err@))),
        answer is Ok && answer->Ok_0.success ==> {
            let v = viewed_version(lossy_text(answer->Ok_0.out@));
            &&& v is Some ==> version_answered(answer) == Ok::<Seq<char>, Seq<char>>(v->0)
            &&& v is None ==> version_answered(answer) == Err::<Seq<char>, Seq<char>>(
                "npm view 无输出"@,
            )
        },
{
}

/// How long and how often is waited: half an hour for a command, 15 seconds for a question to npm and
/// 30 for one to the registry; 8 seconds for the web interface, 6 for a trial and two and a half for
/// the terminal interface; and a program that was not found is looked for again after a minute. The
/// last 200 lines of a program are remembered.
pub proof fn law_how_long_is_waited(
    m: Map<Seq<char>, (bool, u64)>,
    name: Seq<char>,
    at: u64,
    now: u64,
)
    ensures
        COMMAND_MINUTES == 30 && NPM_SECONDS == 15 && NPM_VIEW_SECONDS == 30,
        crate::launch::WEB_WAIT == 8_000 && crate::launch::TRIAL_WAIT == 6_000
            && crate::launch::TUI_WATCH == 2_500,
        crate::launch::RELEASE_LOOKS * crate::launch::LOOK_WAIT == 6_000,
        crate::process::KILL_LOOKS * crate::launch::LOOK_WAIT == 3_000,
        TAIL_KEEP == 200,
        remembered(m.insert(name, (false, at)), name, now) is Some <==> now - at < 60_000,
        remembered(m.insert(name, (true, at)), name, now) == Some(true),
        !m.dom().contains(name) ==> remembered(m, name, now) is None,
{
}

} // verus!
