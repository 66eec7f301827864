//! What holds of the processes that the launcher looks at: who counts as listening, who counts as
//! DSH, and how the state of DSH is found out.

use crate::numbers::{digits_of, law_number_round_trip, lemma_digits, number_in};
use crate::process::{
    dsh_among, dsh_response, endable, filter_question, first_said, identity_of, kill_next, listener,
    law_tracked_are_the_living, listeners, named_pids, one_lives, only, owner_text, pid_conditions,
    reads_on, release_next, restore_waits, state_next, with_pids, without_pid, DshState,
    KillEvidence, KillView, ReleaseStep, StateEvidence, StateStep,
};
use crate::text::{
    doubled, has_sub, is_digit, is_space, join_of, lemma_find_char_is, lines_of, lower_of,
    split_of, stands_at, trim_of, without_cr, words_of,
    Strip,
};
use crate::text_laws::{
    all_stripped, law_strip_takes_off_what_stands_round, law_words_are_what_space_parts,
    lemma_lines_cons, lemma_split_join,
};
use vstd::prelude::*;

verus! {

/// Of the processes that are remembered those stay that still run, in their order.
pub proof fn law_living_stay_in_order(a: Seq<u32>, x: u32, b: Seq<u32>, keep: Seq<u32>)
    ensures
        only(a + b, keep) == only(a, keep) + only(b, keep),
        only(seq![x], keep) == if keep.contains(x) {
            seq![x]
        } else {
            Seq::empty()
        },
    decreases b.len(),
{
    let none = Seq::<u32>::empty();
    assert(only(none, keep) =~= none);
    assert(seq![x].drop_last() =~= none);
    assert(none.push(x) =~= seq![x]);
    if b.len() == 0 {
        assert(a + b =~= a);
        assert(only(a, keep) + only(b, keep) =~= only(a, keep));
    } else {
        assert((a + b).drop_last() =~= a + b.drop_last());
        law_living_stay_in_order(a, x, b.drop_last(), keep);
        assert(only(a + b, keep) =~= only(a, keep) + only(b, keep));
    }
}

/// A process that is forgotten goes, wherever it stands, and no other does.
pub proof fn law_only_the_forgotten_go(a: Seq<u32>, x: u32, b: Seq<u32>, pid: u32)
    ensures
        without_pid(a + b, pid) == without_pid(a, pid) + without_pid(b, pid),
        without_pid(seq![x], pid) == if x == pid {
            Seq::empty()
        } else {
            seq![x]
        },
    decreases b.len(),
{
    let none = Seq::<u32>::empty();
    assert(without_pid(none, pid) =~= none);
    assert(seq![x].drop_last() =~= none);
    assert(none.push(x) =~= seq![x]);
    if b.len() == 0 {
        assert(a + b =~= a);
        assert(without_pid(a, pid) + without_pid(b, pid) =~= without_pid(a, pid));
    } else {
        assert((a + b).drop_last() =~= a + b.drop_last());
        law_only_the_forgotten_go(a, x, b.drop_last(), pid);
        assert(without_pid(a + b, pid) =~= without_pid(a, pid) + without_pid(b, pid));
    }
}

/// Remembering processes adds those that are new behind the others, each once, and forgets none.
pub proof fn law_remembering_adds(s: Seq<u32>, more: Seq<u32>)
    ensures
        s.is_prefix_of(with_pids(s, more)),
        forall|x: u32|
            #[trigger] with_pids(s, more).contains(x) <==> s.contains(x) || more.contains(x),
        s.no_duplicates() ==> with_pids(s, more).no_duplicates(),
    decreases more.len(),
{
    if more.len() == 0 {
        assert(s.subrange(0, s.len() as int) =~= s);
    } else {
        let d = more.drop_last();
        let w = with_pids(s, d);
        let p = more.last();
        law_remembering_adds(s, d);
        let r = with_pids(s, more);
        assert(s.is_prefix_of(r)) by {
            assert(w.subrange(0, s.len() as int) =~= s);
            assert(r.subrange(0, s.len() as int) =~= s);
        }
        assert forall|x: u32| #[trigger] r.contains(x) <==> s.contains(x) || more.contains(x) by {
            assert(more =~= d.push(p));
            if more.contains(x) {
                let i = choose|i: int| 0 <= i < more.len() && more[i] == x;
                if i < d.len() {
                    assert(d[i] == x);
                    assert(d.contains(x));
                }
            }
            if d.contains(x) {
                let i = choose|i: int| 0 <= i < d.len() && d[i] == x;
                assert(more[i] == x);
            }
            assert(more[more.len() - 1] == p);
            if w.contains(p) {
            } else {
                assert(r == w.push(p));
                if r.contains(x) {
                    let i = choose|i: int| 0 <= i < r.len() && r[i] == x;
                    if i < w.len() {
                        assert(w[i] == x);
                        assert(w.contains(x));
                    }
                }
                if w.contains(x) {
                    let i = choose|i: int| 0 <= i < w.len() && w[i] == x;
                    assert(r[i] == x);
                }
                assert(r[w.len() as int] == p);
            }
            assert(w.contains(x) <==> s.contains(x) || d.contains(x));
        }
    }
}

/// The state of DSH is found out step by step, and each step is asked for only where it decides. A
/// process of the launcher that lives shows that DSH runs. Without one, a port on which nothing
/// listens shows that it does not. Where something listens that was found to be foreign less than
/// half a minute ago, it still counts as foreign; otherwise the command lines of the listeners
/// decide, and where they do not tell, the answer of the port.
pub proof fn law_state_is_found_out_step_by_step(
    pids: Seq<u32>,
    until: Option<u64>,
    ev: StateEvidence,
    now: u64,
)
    requires
        now <= u64::MAX - 30_000,
    ensures
        ({
            let r = state_next(pids, until, ev, now);
            let live = only(pids, ev.alive@);
            let foreign = until is Some && now < until->0;
            &&& live.len() > 0 ==> r == (StateStep::Known(DshState::Running), live, until)
            &&& live.len() == 0 ==> {
                &&& ev.listening is None ==> r == (StateStep::AskListening, live, until)
                &&& ev.listening == Some(false) ==> r == (
                    StateStep::Known(DshState::Stopped),
                    live,
                    None::<u64>,
                )
                &&& ev.listening == Some(true) && foreign ==> r == (
                    StateStep::Known(DshState::ForeignPort),
                    live,
                    until,
                )
                &&& ev.listening == Some(true) && !foreign ==> {
                    &&& ev.mine is None ==> r == (StateStep::AskMine, live, until)
                    &&& ev.mine is Some && ev.mine->0@.len() > 0 ==> r == (
                        StateStep::Known(DshState::Running),
                        with_pids(live, ev.mine->0@),
                        until,
                    )
                    &&& ev.mine is Some && ev.mine->0@.len() == 0 ==> {
                        &&& ev.probe is None ==> r == (StateStep::AskProbe, live, until)
                        &&& ev.probe == Some(true) ==> r == (
                            StateStep::Known(DshState::Running),
                            live,
                            until,
                        )
                        &&& ev.probe == Some(false) ==> r == (
                            StateStep::Known(DshState::ForeignPort),
                            live,
                            Some((now + 30_000) as u64),
                        )
                    }
                }
            }
        }),
{
}

/// Whether `s` is a word: not empty, and without white space.
pub open spec fn is_word(s: Seq<char>) -> bool {
    s.len() > 0 && forall|i: int| 0 <= i < s.len() ==> !is_space(#[trigger] s[i])
}

/// Whether `s` is white space between two words.
pub open spec fn is_gap(s: Seq<char>) -> bool {
    s.len() > 0 && all_stripped(s, Strip::Space)
}

/// A line of five words with white space round them.
pub open spec fn five_words(g: Seq<char>, w: Seq<Seq<char>>, h: Seq<Seq<char>>) -> Seq<char> {
    g + w[0] + (h[0] + w[1] + (h[1] + w[2] + (h[2] + w[3] + (h[3] + w[4] + h[4]))))
}

proof fn lemma_five_words(g: Seq<char>, w: Seq<Seq<char>>, h: Seq<Seq<char>>)
    requires
        w.len() == 5,
        h.len() == 5,
        all_stripped(g, Strip::Space),
        forall|i: int| 0 <= i < 5 ==> is_word(#[trigger] w[i]),
        forall|i: int| 0 <= i < 4 ==> is_gap(#[trigger] h[i]),
        all_stripped(h[4], Strip::Space),
    ensures
        words_of(five_words(g, w, h)) == w,
{
    let t4 = h[3] + w[4] + h[4];
    let t3 = h[2] + w[3] + t4;
    let t2 = h[1] + w[2] + t3;
    let t1 = h[0] + w[1] + t2;
    assert(is_word(w[0]) && is_word(w[1]) && is_word(w[2]) && is_word(w[3]) && is_word(w[4]));
    assert(is_gap(h[0]) && is_gap(h[1]) && is_gap(h[2]) && is_gap(h[3]));
    assert(t4[0] == h[3][0] && t3[0] == h[2][0] && t2[0] == h[1][0] && t1[0] == h[0][0]);
    law_words_are_what_space_parts(h[4], w[4], Seq::empty());
    law_words_are_what_space_parts(h[3], w[4], h[4]);
    law_words_are_what_space_parts(h[2], w[3], t4);
    law_words_are_what_space_parts(h[1], w[2], t3);
    law_words_are_what_space_parts(h[0], w[1], t2);
    law_words_are_what_space_parts(g, w[0], t1);
    assert(words_of(five_words(g, w, h)) =~= w);
}

/// A line of a list of connections tells of a listener on `port` if and only if its fourth word is
/// `LISTENING` and its second word ends with that very port behind its last colon; its last word is
/// the process.
pub proof fn law_listener_holds_the_very_port(
    g: Seq<char>,
    w: Seq<Seq<char>>,
    h: Seq<Seq<char>>,
    host: Seq<Seq<char>>,
    there: u16,
    pid: u32,
    port: u16,
)
    requires
        w.len() == 5,
        h.len() == 5,
        all_stripped(g, Strip::Space),
        forall|i: int| 0 <= i < 5 ==> is_word(#[trigger] w[i]),
        forall|i: int| 0 <= i < 4 ==> is_gap(#[trigger] h[i]),
        all_stripped(h[4], Strip::Space),
        host.len() > 0,
        forall|i: int| 0 <= i < host.len() ==> !(#[trigger] host[i]).contains(':'),
        w[1] == join_of(host.push(digits_of(there as nat)), seq![':']),
        w[4] == digits_of(pid as nat),
    ensures
        listener(five_words(g, w, h), port) == if w[3] == "LISTENING"@ && there == port {
            Some(pid)
        } else {
            None
        },
{
    lemma_five_words(g, w, h);
    law_listener_is_told_by_the_words(five_words(g, w, h), host, there, pid, port);
}

/// A line tells of a listener by its words, however many there are: the second ends with the port, the
/// fourth is `LISTENING`, and the last is the process. A line of fewer than five words tells of none.
pub proof fn law_listener_is_told_by_the_words(
    line: Seq<char>,
    host: Seq<Seq<char>>,
    there: u16,
    pid: u32,
    port: u16,
)
    requires
        words_of(line).len() >= 2,
        host.len() > 0,
        forall|i: int| 0 <= i < host.len() ==> !(#[trigger] host[i]).contains(':'),
        words_of(line)[1] == join_of(host.push(digits_of(there as nat)), seq![':']),
        words_of(line).last() == digits_of(pid as nat),
    ensures
        words_of(line).len() < 5 ==> listener(line, port) is None,
        words_of(line).len() >= 5 ==> listener(line, port) == if words_of(line)[3] == "LISTENING"@
            && there == port {
            Some(pid)
        } else {
            None
        },
{
    lemma_port_part(host, there);
    law_number_round_trip(there as nat, u16::MAX as nat);
    law_number_round_trip(pid as nat, u32::MAX as nat);
}

proof fn lemma_port_part(host: Seq<Seq<char>>, there: u16)
    requires
        forall|i: int| 0 <= i < host.len() ==> !(#[trigger] host[i]).contains(':'),
    ensures
        split_of(join_of(host.push(digits_of(there as nat)), seq![':']), ':') == host.push(
            digits_of(there as nat),
        ),
{
    let parts = host.push(digits_of(there as nat));
    lemma_digits(there as nat);
    assert(!digits_of(there as nat).contains(':')) by {
        let d = digits_of(there as nat);
        if d.contains(':') {
            let i = choose|i: int| 0 <= i < d.len() && d[i] == ':';
            assert(is_digit(d[i]));
        }
    }
    assert forall|i: int| 0 <= i < parts.len() implies !(#[trigger] parts[i]).contains(':') by {
        if i < host.len() {
            assert(parts[i] == host[i]);
        }
    }
    lemma_split_join(parts, ':');
}

/// Those who listen are those of whom a line tells, each once.
pub proof fn law_listeners_are_those_told_of(ls: Seq<Seq<char>>, port: u16, pid: u32)
    ensures
        listeners(ls, port).contains(pid) <==> exists|i: int|
            0 <= i < ls.len() && listener(#[trigger] ls[i], port) == Some(pid),
        listeners(ls, port).no_duplicates(),
    decreases ls.len(),
{
    if ls.len() > 0 {
        let d = ls.drop_last();
        law_listeners_are_those_told_of(d, port, pid);
        let b = listeners(d, port);
        let r = listeners(ls, port);
        if r.contains(pid) && !b.contains(pid) {
            let i = choose|i: int| 0 <= i < r.len() && r[i] == pid;
            if i < b.len() {
                assert(b[i] == pid);
            }
            assert(listener(ls[ls.len() - 1], port) == Some(pid));
        }
        if b.contains(pid) {
            let i = choose|i: int| 0 <= i < d.len() && listener(#[trigger] d[i], port) == Some(pid);
            assert(listener(ls[i], port) == Some(pid));
            let k = choose|k: int| 0 <= k < b.len() && b[k] == pid;
            assert(r[k] == pid);
        }
        if exists|i: int| 0 <= i < ls.len() && listener(#[trigger] ls[i], port) == Some(pid) {
            let i = choose|i: int| 0 <= i < ls.len() && listener(#[trigger] ls[i], port) == Some(
                pid,
            );
            if i < d.len() {
                assert(d[i] == ls[i]);
            } else if !b.contains(pid) {
                assert(r == b.push(pid));
                assert(r[b.len() as int] == pid);
            }
        }
        assert(r.no_duplicates()) by {
            match listener(ls.last(), port) {
                Some(p) => {
                    if !b.contains(p) {
                        assert(forall|k: int| 0 <= k < b.len() ==> b[k] != p);
                    }
                },
                None => {},
            }
        }
    }
}

/// Of the processes that an answer names those count that were asked for, in the order of the
/// answer; a line that holds no number names none.
pub proof fn law_named_pids_line_by_line(
    a: Seq<Seq<char>>,
    g: Seq<char>,
    pid: u32,
    h: Seq<char>,
    other: Seq<char>,
    b: Seq<Seq<char>>,
    pids: Seq<u32>,
)
    requires
        all_stripped(g, Strip::Space),
        all_stripped(h, Strip::Space),
        number_in(trim_of(other), u32::MAX as nat) is None,
    ensures
        named_pids(a + b, pids) == named_pids(a, pids) + named_pids(b, pids),
        named_pids(seq![g + digits_of(pid as nat) + h], pids) == if pids.contains(pid) {
            seq![pid]
        } else {
            Seq::empty()
        },
        named_pids(seq![other], pids) == Seq::<u32>::empty(),
    decreases b.len(),
{
    let none = Seq::<Seq<char>>::empty();
    let l = g + digits_of(pid as nat) + h;
    lemma_digits(pid as nat);
    law_strip_takes_off_what_stands_round(g, digits_of(pid as nat), h, Strip::Space);
    law_number_round_trip(pid as nat, u32::MAX as nat);
    assert(named_pids(none, pids) =~= Seq::empty());
    assert(seq![l].drop_last() =~= none);
    assert(seq![other].drop_last() =~= none);
    assert(Seq::<u32>::empty().push(pid) =~= seq![pid]);
    if b.len() == 0 {
        assert(a + b =~= a);
        assert(named_pids(a, pids) + named_pids(b, pids) =~= named_pids(a, pids));
    } else {
        assert((a + b).drop_last() =~= a + b.drop_last());
        law_named_pids_line_by_line(a, g, pid, h, other, b.drop_last(), pids);
        assert(named_pids(a + b, pids) =~= named_pids(a, pids) + named_pids(b, pids));
    }
}

/// An answer is one of DSH if and only if the words `dsh web` stand in it somewhere, in whatever
/// case.
pub proof fn law_dsh_answers_with_its_name(t: Seq<char>)
    ensures
        dsh_response(t) <==> exists|i: int|
            0 <= i <= t.len() - 7 && lower_of(#[trigger] t.subrange(i, i + 7)) == "dsh web"@,
{
    reveal_strlit("dsh web");
    let p = "dsh web"@;
    let l = lower_of(t);
    if dsh_response(t) {
        let i = choose|i: int| stands_at(l, p, i);
        assert(lower_of(t.subrange(i, i + 7)) =~= l.subrange(i, i + 7));
    }
    if exists|i: int| 0 <= i <= t.len() - 7 && lower_of(#[trigger] t.subrange(i, i + 7)) == p {
        let i = choose|i: int| 0 <= i <= t.len() - 7 && lower_of(#[trigger] t.subrange(i, i + 7)) == p;
        assert(l.subrange(i, i + 7) =~= lower_of(t.subrange(i, i + 7)));
        assert(stands_at(l, p, i));
    }
}

/// Who may be ended as DSH: of those who listen the verified ones; where none is verified, all of
/// them if the port answers as DSH does, and nobody if it does not.
pub proof fn law_who_may_be_ended(pids: Seq<u32>, verified: Seq<u32>, probe: Option<bool>)
    ensures
        pids.len() == 0 ==> endable(pids, verified, probe) == Some(Seq::<u32>::empty()),
        pids.len() > 0 && verified.len() > 0 ==> endable(pids, verified, probe) == Some(verified),
        pids.len() > 0 && verified.len() == 0 ==> {
            &&& probe == Some(true) ==> endable(pids, verified, probe) == Some(pids)
            &&& probe == Some(false) ==> endable(pids, verified, probe) == Some(Seq::<u32>::empty())
            &&& probe is None ==> endable(pids, verified, probe) is None
        },
{
}

/// The name and the path of a process are what stands before and behind the first `|` of the first
/// line that says something, without the white space round them.
pub proof fn law_identity_is_the_first_line(
    blank: Seq<char>,
    name: Seq<char>,
    path: Seq<char>,
    g: Seq<Seq<char>>,
    rest: Seq<char>,
)
    requires
        g.len() == 4,
        forall|i: int| 0 <= i < 4 ==> all_stripped(#[trigger] g[i], Strip::Space) && !g[i].contains(
            '\n',
        ),
        all_stripped(blank, Strip::Space),
        !blank.contains('\n'),
        name.len() > 0 && !is_space(name[0]) && !is_space(name.last()),
        path.len() > 0 && !is_space(path[0]) && !is_space(path.last()),
        !name.contains('|') && !name.contains('\n') && !path.contains('\n'),
    ensures
        identity_of(
            blank + "\n"@ + (g[0] + (name + g[1] + seq!['|'] + g[2] + path) + g[3] + "\n"@ + rest),
        ) == (name, path),
{
    let core = name + g[1] + seq!['|'] + g[2] + path;
    let l = g[0] + core + g[3];
    assert(all_stripped(g[0], Strip::Space) && all_stripped(g[1], Strip::Space) && all_stripped(
        g[2],
        Strip::Space,
    ) && all_stripped(g[3], Strip::Space));
    assert(!l.contains('\n')) by {
        if l.contains('\n') {
            let i = choose|i: int| 0 <= i < l.len() && l[i] == '\n';
            let a = g[0].len();
            let b = a + name.len();
            let c = b + g[1].len();
            let d = c + 1;
            let e = d + g[2].len();
            let f = e + path.len();
            if i < a {
                assert(g[0].contains(g[0][i]));
            } else if i < b {
                assert(name.contains(name[i - a]));
            } else if i < c {
                assert(g[1].contains(g[1][i - b]));
            } else if i < d {
                assert(l[i] == '|');
            } else if i < e {
                assert(g[2].contains(g[2][i - d]));
            } else if i < f {
                assert(path.contains(path[i - e]));
            } else {
                assert(g[3].contains(g[3][i - f]));
            }
        }
    }
    let tail = l + "\n"@ + rest;
    lemma_lines_cons(blank, tail);
    lemma_lines_cons(l, rest);
    let text = blank + "\n"@ + tail;
    let all = lines_of(text);
    assert(all =~= seq![without_cr(blank), without_cr(l)] + lines_of(rest));
    crate::text_laws::lemma_trim_without_cr(blank);
    crate::text_laws::lemma_trim_without_cr(l);
    let none = Seq::<char>::empty();
    law_strip_takes_off_what_stands_round(blank, none, none, Strip::Space);
    assert(blank + none + none =~= blank);
    assert(core[0] == name[0] && core.last() == path.last());
    law_strip_takes_off_what_stands_round(g[0], core, g[3], Strip::Space);
    assert(all[0] == without_cr(blank));
    assert(all.skip(1)[0] == without_cr(l));
    assert(first_said(all) == first_said(all.skip(1)));
    assert(first_said(all.skip(1)) == Some(core));
    let n = (name.len() + g[1].len()) as int;
    assert forall|j: int| 0 <= j < n implies core[j] != '|' by {
        if j < name.len() {
            assert(core[j] == name[j]);
            assert(name.contains(name[j]));
        } else {
            assert(core[j] == g[1][j - name.len()]);
            assert(crate::text::strips(Strip::Space, g[1][j - name.len()]));
        }
    }
    assert(core[n] == '|');
    lemma_find_char_is(core, '|', n);
    assert(core.take(n) =~= none + name + g[1]);
    assert(core.skip(n + 1) =~= g[2] + path + none);
    law_strip_takes_off_what_stands_round(none, name, g[1], Strip::Space);
    law_strip_takes_off_what_stands_round(g[2], path, none, Strip::Space);
}

/// Ending the owner of a port goes forward wherever it is a foreign process that listens: who it
/// is is found out, it is ended, the port is waited for, and what came of it is told with its name.
/// The launcher, the system and DSH itself are refused, and so is a process that no longer listens.
pub proof fn law_ending_a_port_owner_goes_forward(pid: u32, own: u32, port: u16, ev: KillEvidence)
    ensures
        ({
            let r = kill_next(pid, own, port, ev);
            let safe = pid != 0 && pid != 4 && pid != own;
            let listens = ev.listeners is Some && ev.listeners->0@.contains(pid);
            let who = if ev.name->0@.len() == 0 {
                "PID "@ + digits_of(pid as nat)
            } else {
                ev.name->0@ + " (PID "@ + digits_of(pid as nat) + ")"@
            };
            let foreign = safe && listens && ev.verified == Some(false) && ev.probe == Some(false);
            &&& !safe ==> r is Done && r->Done_0 is Err
            &&& safe && ev.listeners is None ==> r is AskListeners
            &&& safe && ev.listeners is Some && !listens ==> r == KillView::Done(
                Err(
                    "进程 "@ + digits_of(pid as nat) + " 已不再监听端口 "@ + digits_of(port as nat)
                        + "（可能刚刚退出），请点「重新检测」"@,
                ),
            )
            &&& safe && listens && ev.verified is None ==> r is AskVerified
            &&& safe && listens && ev.verified == Some(true) ==> r is Done && r->Done_0 is Err
            &&& safe && listens && ev.verified == Some(false) && ev.probe is None ==> r is AskProbe
            &&& safe && listens && ev.verified == Some(false) && ev.probe == Some(true) ==> r is Done
                && r->Done_0 is Err
            &&& foreign && ev.name is None ==> r is AskName
            &&& foreign && ev.name is Some && ev.killed is None ==> r == KillView::Kill(
                "结束占用端口 "@ + digits_of(port as nat) + " 的进程："@ + who,
            )
            &&& foreign && ev.name is Some && ev.killed is Some && ev.killed->0 is Err ==> r
                == KillView::Done(Err(ev.killed->0->Err_0@))
            &&& foreign && ev.name is Some && ev.killed is Some && ev.killed->0 is Ok ==> {
                &&& ev.released is None ==> r is AwaitRelease
                &&& ev.released == Some(true) ==> r == KillView::Done(
                    Ok("已结束 "@ + who + "，端口 "@ + digits_of(port as nat) + " 已释放"@),
                )
                &&& ev.released == Some(false) ==> r is Done && r->Done_0 is Err
            }
        }),
{
}

/// A port is looked at until it is free, as often as is allowed.
pub proof fn law_port_is_looked_at_until_it_is_free(listening: bool, slept: u32, looks: u32)
    ensures
        release_next(listening, slept, looks) == ReleaseStep::Free <==> !listening,
        release_next(listening, slept, looks) == ReleaseStep::Sleep <==> listening && slept < looks,
        release_next(listening, slept, looks) == ReleaseStep::Held <==> listening && slept >= looks,
{
}

/// Those who count as DSH by their command line are those whom the answer names and who were asked
/// for; without an answer, or without a program file to look for, nobody counts.
pub proof fn law_who_counts_as_dsh(
    pids: Seq<u32>,
    bin: Seq<char>,
    answer: Option<Seq<char>>,
    pid: u32,
)
    ensures
        answer is None || bin.len() == 0 ==> dsh_among(pids, bin, answer).len() == 0,
        answer is Some && bin.len() > 0 ==> (dsh_among(pids, bin, answer).contains(pid)
            <==> pids.contains(pid) && exists|i: int|
            0 <= i < lines_of(answer->0).len() && number_in(
                trim_of(#[trigger] lines_of(answer->0)[i]),
                u32::MAX as nat,
            ) == Some(pid as nat)),
{
    if answer is Some && bin.len() > 0 {
        lemma_named(lines_of(answer->0), pids, pid);
        if pids.len() == 0 {
            assert(!pids.contains(pid));
        }
    }
}

proof fn lemma_named(ls: Seq<Seq<char>>, pids: Seq<u32>, pid: u32)
    ensures
        named_pids(ls, pids).contains(pid) <==> pids.contains(pid) && exists|i: int|
            0 <= i < ls.len() && number_in(trim_of(#[trigger] ls[i]), u32::MAX as nat) == Some(
                pid as nat,
            ),
    decreases ls.len(),
{
    if ls.len() > 0 {
        let d = ls.drop_last();
        let b = named_pids(d, pids);
        let r = named_pids(ls, pids);
        lemma_named(d, pids, pid);
        if r.contains(pid) {
            let k = choose|k: int| 0 <= k < r.len() && r[k] == pid;
            if k < b.len() {
                assert(b[k] == pid);
                assert(b.contains(pid));
                let i = choose|i: int|
                    0 <= i < d.len() && number_in(trim_of(#[trigger] d[i]), u32::MAX as nat) == Some(
                        pid as nat,
                    );
                assert(ls[i] == d[i]);
            } else {
                assert(number_in(trim_of(ls[ls.len() - 1]), u32::MAX as nat) == Some(pid as nat));
            }
        }
        if pids.contains(pid) && exists|i: int|
            0 <= i < ls.len() && number_in(trim_of(#[trigger] ls[i]), u32::MAX as nat) == Some(
                pid as nat,
            ) {
            let i = choose|i: int|
                0 <= i < ls.len() && number_in(trim_of(#[trigger] ls[i]), u32::MAX as nat) == Some(
                    pid as nat,
                );
            if i < d.len() {
                assert(d[i] == ls[i]);
                assert(b.contains(pid));
                let k = choose|k: int| 0 <= k < b.len() && b[k] == pid;
                assert(r[k] == pid);
            } else {
                assert(r[b.len() as int] == pid);
            }
        }
    }
}

/// The question about command lines names each process and the program file, each quotation mark in
/// it doubled.
pub proof fn law_question_names_all(pids: Seq<u32>, bin: Seq<char>, i: int)
    requires
        0 <= i < pids.len(),
    ensures
        pid_conditions(pids).len() == pids.len(),
        pid_conditions(pids)[i] == "ProcessId="@ + digits_of(pids[i] as nat),
        has_sub(filter_question(pids, bin), join_of(pid_conditions(pids), " or "@)),
        has_sub(filter_question(pids, bin), "IndexOf('"@ + doubled(bin, '\'') + "'"@),
{
    let q = filter_question(pids, bin);
    let a = "Get-CimInstance Win32_Process -Filter '"@;
    let c = join_of(pid_conditions(pids), " or "@);
    let m = "' | Where-Object { $_.CommandLine -and ($_.CommandLine.IndexOf('"@;
    let d = doubled(bin, '\'');
    let z = "', [System.StringComparison]::OrdinalIgnoreCase) -ge 0) } | ForEach-Object { [int]$_.ProcessId }"@;
    assert(q.subrange(a.len() as int, (a.len() + c.len()) as int) =~= c);
    assert(stands_at(q, c, a.len() as int));
    reveal_strlit("' | Where-Object { $_.CommandLine -and ($_.CommandLine.IndexOf('");
    reveal_strlit("IndexOf('");
    reveal_strlit("'");
    reveal_strlit(
        "', [System.StringComparison]::OrdinalIgnoreCase) -ge 0) } | ForEach-Object { [int]$_.ProcessId }",
    );
    let p = "IndexOf('"@ + d + "'"@;
    let n = (a.len() + c.len() + m.len() - 9) as int;
    assert(m.skip(m.len() - 9) =~= "IndexOf('"@);
    assert(z[0] == '\'');
    let s = q.subrange(n, (n + p.len()) as int);
    assert forall|k: int| 0 <= k < p.len() implies #[trigger] s[k] == p[k] by {
        if k < 9 {
            assert(p[k] == m.skip(m.len() - 9)[k]);
        } else if k < 9 + d.len() {
            assert(p[k] == d[k - 9]);
        } else {
            assert(p[k] == z[0]);
        }
    }
    assert(s =~= p);
    assert(stands_at(q, p, n));
}

/// A process of the launcher counts as long as it lives. A backup waits for such a one only; a
/// restore also for anything that listens.
pub proof fn law_what_a_backup_and_a_restore_wait_for(
    pids: Seq<u32>,
    alive: Seq<u32>,
    listening: bool,
)
    ensures
        one_lives(pids, alive) <==> exists|x: u32| #[trigger] pids.contains(x) && alive.contains(x),
        restore_waits(pids, alive, listening) <==> listening || exists|x: u32| #[trigger]
            pids.contains(x) && alive.contains(x),
{
    let r = only(pids, alive);
    if r.len() > 0 {
        assert(r.contains(r[0]));
        law_tracked_are_the_living(pids, alive, r[0]);
    }
    if exists|x: u32| #[trigger] pids.contains(x) && alive.contains(x) {
        let x = choose|x: u32| #[trigger] pids.contains(x) && alive.contains(x);
        law_tracked_are_the_living(pids, alive, x);
        assert(r.contains(x));
    }
}

/// A response is read to its end, but not beyond its first 1024 bytes.
pub proof fn law_response_is_read_as_far_as_needed(got: usize, ended: bool)
    ensures
        reads_on(got, ended) <==> !ended && got < 1024,
{
}

/// Who holds a port is told by name, by path where there is no name, and in any case with the
/// process.
pub proof fn law_owner_is_told_with_its_process(name: Seq<char>, path: Seq<char>, pid: u32)
    ensures
        name.len() > 0 ==> owner_text(name, path, pid) == name + "（PID "@ + digits_of(pid as nat)
            + "）"@,
        name.len() == 0 && path.len() > 0 ==> owner_text(name, path, pid) == path + "（PID "@
            + digits_of(pid as nat) + "）"@,
        name.len() == 0 && path.len() == 0 ==> owner_text(name, path, pid) == "未知进程"@
            + "（PID "@ + digits_of(pid as nat) + "）"@,
{
}

} // verus!
