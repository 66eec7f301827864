//! Small things that several parts use: bytes as text, sizes, logs, locks, results of system calls.

use crate::numbers::{decimal, digits_of};
use crate::path::{join_path, joined};
use crate::text::{chars_of, opt_view, trim, trim_of};
use vstd::prelude::*;

verus! {

/// The text in the bytes `b`, what is no UTF-8 in it replaced.
pub uninterp spec fn lossy_text(b: Seq<u8>) -> Seq<char>;

/// `String::from_utf8_lossy` reads UTF-8 as it stands and puts the replacement character in the
/// place of what is none.
#[verifier::external_body]
pub(crate) fn lossy(b: &[u8]) -> (r: String)
    ensures
        r@ == lossy_text(b@),
        vstd::utf8::valid_utf8(b@) ==> r@ == vstd::utf8::decode_utf8(b@),
{
    String::from_utf8_lossy(b).into_owned()
}

/// The UTF-16 form of a character.
pub open spec fn utf16_of(c: char) -> Seq<u16> {
    let n = c as u32;
    if n < 0x10000 {
        seq![n as u16]
    } else {
        seq![(0xd800 + (n - 0x10000) / 0x400) as u16, (0xdc00 + (n - 0x10000) % 0x400) as u16]
    }
}

/// The UTF-16 form of a text.
pub open spec fn utf16_text(s: Seq<char>) -> Seq<u16>
    decreases s.len(),
{
    if s.len() == 0 {
        Seq::empty()
    } else {
        utf16_text(s.drop_last()) + utf16_of(s.last())
    }
}

/// The UTF-16 form of a text with a zero behind it, as Windows takes it.
pub fn wide(s: &str) -> (r: Vec<u16>)
    ensures
        r@ == utf16_text(s@).push(0),
{
    let cs = chars_of(s);
    let mut out: Vec<u16> = Vec::new();
    let mut i: usize = 0;
    while i < cs.len()
        invariant
            cs@ == s@,
            i <= cs@.len(),
            out@ == utf16_text(cs@.take(i as int)),
        decreases cs@.len() - i,
    {
        let n: u32 = cs[i] as u32;
        proof {
            let next = cs@.take(i + 1);
            assert(next.drop_last() =~= cs@.take(i as int));
            assert(next.last() == cs@[i as int]);
        }
        let ghost before = out@;
        if n < 0x10000 {
            out.push(n as u16);
            proof {
                assert(out@ =~= before + utf16_of(cs@[i as int]));
            }
        } else {
            let hi: u32 = 0xd800 + (n - 0x10000) / 0x400;
            let lo: u32 = 0xdc00 + (n - 0x10000) % 0x400;
            out.push(hi as u16);
            out.push(lo as u16);
            proof {
                assert(out@ =~= before + utf16_of(cs@[i as int]));
            }
        }
        i += 1;
    }
    proof {
        assert(cs@.take(cs@.len() as int) =~= cs@);
    }
    out.push(0);
    out
}

proof fn lemma_utf16(c: char)
    requires
        c != '\0',
    ensures
        forall|i: int| 0 <= i < utf16_of(c).len() ==> #[trigger] utf16_of(c)[i] != 0,
{
    let n = c as u32;
    assert(n != 0 && n <= 0x10ffff);
    assert(n >= 0x10000 ==> (n - 0x10000) / 0x400 <= 0x3ff);
}

/// A text without zeros holds none in its UTF-16 form: Windows sees all of it.
pub proof fn law_wide_ends_at_its_end(s: Seq<char>, i: int)
    requires
        !s.contains('\0'),
        0 <= i < utf16_text(s).len(),
    ensures
        utf16_text(s)[i] != 0,
    decreases s.len(),
{
    if s.len() > 0 {
        let d = s.drop_last();
        let u = utf16_text(d);
        assert(s.contains(s.last())) by {
            assert(s[s.len() - 1] == s.last());
        }
        if i < u.len() {
            assert(!d.contains('\0')) by {
                if d.contains('\0') {
                    let k = choose|k: int| 0 <= k < d.len() && d[k] == '\0';
                    assert(s[k] == '\0');
                }
            }
            law_wide_ends_at_its_end(d, i);
            assert(utf16_text(s)[i] == u[i]);
        } else {
            lemma_utf16(s.last());
            assert(utf16_text(s)[i] == utf16_of(s.last())[i - u.len()]);
        }
    }
}

/// The integer nearest to `n / d`, the even one of two that are equally near.
pub open spec fn half_even(n: nat, d: nat) -> nat {
    let q = n / d;
    let r = n % d;
    if 2 * r > d || (2 * r == d && q % 2 == 1) {
        q + 1
    } else {
        q
    }
}

/// The distance between the numbers near `n` that a double-precision number can be.
pub open spec fn double_step(n: nat) -> nat
    decreases n,
{
    if n < 0x20_0000_0000_0000 {
        1
    } else {
        2 * double_step(n / 2)
    }
}

/// `n` in double precision.
pub open spec fn as_double(n: nat) -> nat {
    half_even(n, double_step(n)) * double_step(n)
}

/// A number of bytes for a reader: megabytes with one decimal place, or whole kilobytes.
pub open spec fn size_text(bytes: nat) -> Seq<char> {
    let n = as_double(bytes);
    if n >= 0x10_0000 {
        let tenths = half_even(n * 10, 0x10_0000);
        digits_of(tenths / 10) + "."@ + digits_of(tenths % 10) + " MB"@
    } else {
        digits_of(half_even(n, 1024)) + " KB"@
    }
}

fn round_half_even(n: u128, d: u128) -> (r: u128)
    requires
        0 < d <= 0x1_0000_0000_0000,
    ensures
        r == half_even(n as nat, d as nat),
        r <= n / d + 1,
{
    let q: u128 = n / d;
    let rest: u128 = n % d;
    proof {
        assert(q <= n && (n == u128::MAX ==> d > 1 ==> q < n)) by (nonlinear_arith)
            requires
                q == n / d,
                d > 0,
        ;
        if d == 1 {
            assert(rest == 0) by (nonlinear_arith)
                requires
                    rest == n % d,
                    d == 1,
            ;
        }
    }
    if 2 * rest > d || (2 * rest == d && q % 2 == 1) {
        q + 1
    } else {
        q
    }
}

fn step_of(n: u64) -> (r: u64)
    ensures
        r == double_step(n as nat),
        1 <= r <= 4095,
        n < 0x20_0000_0000_0000 ==> r == 1,
        n < 0x20_0000_0000_0000 * r,
        r > 1 ==> n >= 0x10_0000_0000_0000 * r,
    decreases n,
{
    if n < 0x20_0000_0000_0000 {
        1
    } else {
        let h: u64 = step_of(n / 2);
        proof {
            if h > 1 {
                assert(n / 2 >= 0x10_0000_0000_0000 * h);
            }
        }
        2 * h
    }
}

/// A number of bytes for a reader: megabytes with one decimal place, or whole kilobytes.
pub fn human_size(bytes: u64) -> (r: String)
    ensures
        r@ == size_text(bytes as nat),
{
    let step: u64 = step_of(bytes);
    let units: u128 = round_half_even(bytes as u128, step as u128);
    proof {
        assert(units <= 0x20_0000_0000_0001) by (nonlinear_arith)
            requires
                units <= bytes / step + 1,
                bytes < 0x20_0000_0000_0000 * step,
                step >= 1,
        ;
        assert(units * step <= 0x20_0000_0000_0001 * 4095) by (nonlinear_arith)
            requires
                units <= 0x20_0000_0000_0001,
                1 <= step <= 4095,
        ;
    }
    let n: u128 = units * (step as u128);
    if n >= 0x10_0000 {
        let tenths: u128 = round_half_even(n * 10, 0x10_0000);
        let mut out = decimal((tenths / 10) as u64);
        out.append(".");
        out.append(decimal((tenths % 10) as u64).as_str());
        out.append(" MB");
        out
    } else {
        let k: u128 = round_half_even(n, 1024);
        decimal(k as u64).concat(" KB")
    }
}

/// Up to this size a log is left alone.
pub const LOG_MAX_BYTES: usize = 0x20_0000;

/// This much of a log that grew too large is kept.
pub const LOG_KEEP_BYTES: usize = 0x8_0000;

/// The position behind the first line feed at or behind `i`, or `i` where there is none.
pub open spec fn next_line(b: Seq<u8>, i: int, from: int) -> int
    decreases b.len() - i,
{
    if i >= b.len() {
        from
    } else if b[i] == 10 {
        i + 1
    } else {
        next_line(b, i + 1, from)
    }
}

/// Where the part of a log starts that is kept: the end of a log that grew too large, from the
/// start of a line.
pub open spec fn log_start(b: Seq<u8>) -> int {
    if b.len() <= LOG_MAX_BYTES {
        0
    } else {
        let from = b.len() - LOG_KEEP_BYTES;
        next_line(b, from, from)
    }
}

/// Whether a log with `len` bytes has to be cut.
pub open spec fn log_full(len: u64) -> bool {
    len > LOG_MAX_BYTES
}

/// Whether a log with `len` bytes has to be cut.
pub fn log_is_full(len: u64) -> (r: bool)
    ensures
        r == log_full(len),
{
    len > LOG_MAX_BYTES as u64
}

/// Where the part of a log starts that is kept.
pub fn log_keep_from(b: &Vec<u8>) -> (r: usize)
    ensures
        r == log_start(b@),
        r <= b@.len(),
{
    if b.len() <= LOG_MAX_BYTES {
        return 0;
    }
    let from: usize = b.len() - LOG_KEEP_BYTES;
    let mut i: usize = from;
    while i < b.len()
        invariant
            b@.len() > LOG_MAX_BYTES,
            from == b@.len() - LOG_KEEP_BYTES,
            from <= i <= b@.len(),
            next_line(b@, from as int, from as int) == next_line(b@, i as int, from as int),
        decreases b@.len() - i,
    {
        if b[i] == 10 {
            return i + 1;
        }
        i += 1;
    }
    from
}

proof fn lemma_next_line(b: Seq<u8>, i: int, from: int)
    requires
        0 <= from <= i <= b.len(),
    ensures
        from <= next_line(b, i, from) <= b.len(),
        next_line(b, i, from) > from ==> b[next_line(b, i, from) - 1] == 10,
        forall|k: int| i <= k < next_line(b, i, from) - 1 ==> b[k] != 10,
        next_line(b, i, from) == from ==> forall|k: int| i <= k < b.len() ==> b[k] != 10,
    decreases b.len() - i,
{
    if i < b.len() && b[i] != 10 {
        lemma_next_line(b, i + 1, from);
    }
}

/// What is kept of a log that grew too large fits in its limit, and it starts with a whole line
/// unless the limit holds no line end at all.
pub proof fn law_trimmed_log(b: Seq<u8>)
    requires
        b.len() > LOG_MAX_BYTES,
    ensures
        0 <= log_start(b) <= b.len(),
        b.len() - log_start(b) <= LOG_KEEP_BYTES,
        b[log_start(b) - 1] == 10 || !b.skip(b.len() - LOG_KEEP_BYTES).contains(10u8),
{
    let from = b.len() - LOG_KEEP_BYTES;
    lemma_next_line(b, from, from);
    if log_start(b) == from {
        let t = b.skip(from);
        if t.contains(10u8) {
            let k = choose|k: int| 0 <= k < t.len() && t[k] == 10;
            assert(b[from + k] == 10);
        }
    }
}

/// The title line of a section of the log.
pub fn section_line(stamp: &str, title: &str) -> (r: String)
    ensures
        r@ == "===== "@ + stamp@ + " "@ + title@ + " ====="@,
{
    "===== ".to_owned().concat(stamp).concat(" ").concat(title).concat(" =====")
}

/// A line of the log that stands alone.
pub fn app_log_line(stamp: &str, msg: &str) -> (r: String)
    ensures
        r@ == "["@ + stamp@ + "] "@ + msg@,
{
    "[".to_owned().concat(stamp).concat("] ").concat(msg)
}

/// The path of a file beside the launcher, or in the working directory where that place is unknown.
pub open spec fn beside(exe_dir: Option<Seq<char>>, cwd: Seq<char>, name: Seq<char>) -> Seq<char> {
    match exe_dir {
        Some(d) => joined(d, name),
        None => joined(cwd, name),
    }
}

/// The path of a file beside the program, or in the working directory where the program's own
/// directory is not known.
pub fn beside_exe(exe_dir: &Option<String>, cwd: &str, name: &str) -> (r: String)
    ensures
        r@ == beside(opt_view(*exe_dir), cwd@, name@),
{
    match exe_dir {
        Some(d) => join_path(d.as_str(), name),
        None => join_path(cwd, name),
    }
}

/// The path of the launcher's log.
pub fn app_log_path(exe_dir: &Option<String>, cwd: &str) -> (r: String)
    ensures
        r@ == beside(opt_view(*exe_dir), cwd@, "launcher.log"@),
{
    beside_exe(exe_dir, cwd, "launcher.log")
}

/// The name of the file that a new content is written to before it takes the place of the old.
pub fn temp_file_name(prefix: &str, pid: u32) -> (r: String)
    ensures
        r@ == "."@ + prefix@ + "-"@ + digits_of(pid as nat) + ".tmp"@,
{
    ".".to_owned().concat(prefix).concat("-").concat(decimal(pid as u64).as_str()).concat(".tmp")
}

/// Whether an operation of some kind is under way.
pub struct OpFlag {
    /// Whether someone holds it.
    pub held: bool,
}

/// The right to be the one operation of its kind.
pub struct OpGuard {
    /// A guard is had from [`OpGuard::acquire`] alone.
    taken: bool,
}

impl OpGuard {
    /// Takes the flag, or tells `busy_message` where someone holds it.
    pub fn acquire(flag: &mut OpFlag, busy_message: &str) -> (r: Result<OpGuard, String>)
        ensures
            final(flag).held,
            r is Ok <==> !old(flag).held,
            r matches Err(m) ==> m@ == busy_message@,
    {
        if flag.held {
            Err(busy_message.to_owned())
        } else {
            flag.held = true;
            Ok(OpGuard { taken: true })
        }
    }

    /// Gives the flag back.
    pub fn release(self, flag: &mut OpFlag)
        ensures
            !final(flag).held,
    {
        let _ = self.taken;
        flag.held = false;
    }
}

/// Why a process could not be ended, and what to do about it.
pub open spec fn kill_error(pid: u32, raw: Seq<char>, status: Seq<char>, elevated: bool) -> Seq<
    char,
> {
    let t = trim_of(raw);
    let detail = if t.len() == 0 {
        "taskkill 退出码 "@ + status
    } else {
        t
    };
    let what = "无法终止进程 "@ + digits_of(pid as nat) + "（"@ + detail;
    if elevated {
        what + "）"@
    } else {
        what
            + "）。若该进程以管理员权限启动，需要以管理员身份运行启动器才能结束它——可在设置页点「以管理员身份重启启动器」后重试"@
    }
}

/// The message for a process that could not be ended, `raw` being what was said about it.
pub fn kill_message(pid: u32, raw: &str, status: &str, elevated: bool) -> (r: String)
    ensures
        r@ == kill_error(pid, raw@, status@, elevated),
{
    let t = trim(raw);
    let detail: String = if t.is_empty() {
        "taskkill 退出码 ".to_owned().concat(status)
    } else {
        t.to_owned()
    };
    let what = "无法终止进程 ".to_owned().concat(decimal(pid as u64).as_str()).concat("（").concat(
        detail.as_str(),
    );
    if elevated {
        what.concat("）")
    } else {
        what.concat(
            "）。若该进程以管理员权限启动，需要以管理员身份运行启动器才能结束它——可在设置页点「以管理员身份重启启动器」后重试",
        )
    }
}

/// What came of ending a process tree: what the system said is told, never dropped.
pub fn kill_tree(pid: u32, success: bool, stderr: &[u8], status: &str, elevated: bool) -> (r: Result<
    (),
    String,
>)
    ensures
        r is Ok <==> success,
        r matches Err(m) ==> m@ == kill_error(pid, lossy_text(stderr@), status@, elevated),
{
    if success {
        Ok(())
    } else {
        Err(kill_message(pid, lossy(stderr).as_str(), status, elevated))
    }
}

/// Why the launcher was not started again with the rights of an administrator.
pub open spec fn relaunch_fault(code: usize) -> Option<Seq<char>> {
    if code > 32 {
        None
    } else if code == 5 {
        Some("提权请求被取消（UAC 未同意），启动器未重启"@)
    } else {
        Some("提权重启失败（ShellExecuteW 返回 "@ + digits_of(code as nat) + "）"@)
    }
}

/// What came of asking for a start with administrator rights: codes up to 32 are errors.
pub fn relaunch_elevated(code: usize) -> (r: Result<(), String>)
    ensures
        match r {
            Ok(_) => relaunch_fault(code) is None,
            Err(m) => relaunch_fault(code) == Some(m@),
        },
{
    if code > 32 {
        Ok(())
    } else if code == 5 {
        Err("提权请求被取消（UAC 未同意），启动器未重启".to_owned())
    } else {
        Err(
            "提权重启失败（ShellExecuteW 返回 ".to_owned().concat(
                decimal(code as u64).as_str(),
            ).concat("）"),
        )
    }
}

/// Whether the shell did what it was asked for, by its answer.
pub open spec fn shell_succeeds(code: usize) -> bool {
    code > 32
}

/// Whether the shell opened what it was asked to open.
pub fn shell_open(code: usize) -> (r: bool)
    ensures
        r == shell_succeeds(code),
{
    code > 32
}

/// The seconds since 1970, 0 where the clock stands before that.
pub fn now_epoch_secs(since_epoch: Option<u64>) -> (r: i64)
    ensures
        r == (match since_epoch {
            Some(n) => n as i64,
            None => 0,
        }),
{
    match since_epoch {
        Some(n) => n as i64,
        None => 0,
    }
}

} // verus!
