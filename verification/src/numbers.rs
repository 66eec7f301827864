//! Numbers written and read in decimal.

use crate::text::{chars_of, is_digit, string_of};
use vstd::prelude::*;

verus! {

/// The digit with the value `d`.
pub open spec fn digit_char(d: nat) -> char {
    (48 + d) as u8 as char
}

/// The value of a digit.
pub open spec fn digit_value(c: char) -> nat {
    (c as u32 - 48) as nat
}

/// `n` in decimal, without leading zeros.
pub open spec fn digits_of(n: nat) -> Seq<char>
    decreases n,
{
    if n < 10 {
        seq![digit_char(n)]
    } else {
        digits_of(n / 10).push(digit_char(n % 10))
    }
}

/// `n` zeros.
pub open spec fn zeros(n: int) -> Seq<char> {
    Seq::new(
        (if n > 0 {
            n
        } else {
            0
        }) as nat,
        |i: int| '0',
    )
}

/// `s` behind as many zeros as make it `w` characters long.
pub open spec fn zero_padded(s: Seq<char>, w: nat) -> Seq<char> {
    zeros(w - s.len()) + s
}

/// The value of a run of digits.
pub open spec fn value_of(s: Seq<char>) -> nat
    decreases s.len(),
{
    if s.len() == 0 {
        0
    } else {
        value_of(s.drop_last()) * 10 + digit_value(s.last())
    }
}

/// Whether `s` holds digits alone.
pub open spec fn all_digits(s: Seq<char>) -> bool {
    forall|i: int| 0 <= i < s.len() ==> is_digit(#[trigger] s[i])
}

/// The number that `s` writes: digits, behind one `+` or not, with a value of at most `max`.
pub open spec fn number_in(s: Seq<char>, max: nat) -> Option<nat> {
    let d = if s.len() > 0 && s[0] == '+' {
        s.skip(1)
    } else {
        s
    };
    if d.len() > 0 && all_digits(d) && value_of(d) <= max {
        Some(value_of(d))
    } else {
        None
    }
}

/// `n` in decimal.
pub fn decimal(n: u64) -> (r: String)
    ensures
        r@ == digits_of(n as nat),
{
    let cs = decimal_chars(n);
    string_of(&cs)
}

fn decimal_chars(n: u64) -> (r: Vec<char>)
    ensures
        r@ == digits_of(n as nat),
    decreases n,
{
    if n < 10 {
        let mut out: Vec<char> = Vec::new();
        out.push((48 + n) as u8 as char);
        out
    } else {
        let mut out = decimal_chars(n / 10);
        out.push((48 + n % 10) as u8 as char);
        out
    }
}

/// `n` in decimal, with zeros before it where it has less than `w` digits.
pub fn padded(n: u64, w: usize) -> (r: String)
    ensures
        r@ == zero_padded(digits_of(n as nat), w as nat),
{
    let digits = decimal_chars(n);
    let mut out: Vec<char> = Vec::new();
    let mut len: usize = digits.len();
    while len < w
        invariant
            digits@.len() <= len,
            len == out@.len() + digits@.len(),
            len <= w || out@.len() == 0,
            out@ == zeros(len - digits@.len()),
        decreases w - len,
    {
        out.push('0');
        len += 1;
        proof {
            assert(out@ =~= zeros(len - digits@.len()));
        }
    }
    let mut i: usize = 0;
    let ghost front = out@;
    proof {
        assert(front =~= zeros(w - digits@.len()));
    }
    while i < digits.len()
        invariant
            i <= digits@.len(),
            out@ == front + digits@.take(i as int),
        decreases digits@.len() - i,
    {
        out.push(digits[i]);
        proof {
            assert(digits@.take(i + 1) =~= digits@.take(i as int).push(digits@[i as int]));
            assert(front + digits@.take(i + 1) =~= (front + digits@.take(i as int)).push(
                digits@[i as int],
            ));
        }
        i += 1;
    }
    proof {
        assert(digits@.take(digits@.len() as int) =~= digits@);
    }
    string_of(&out)
}

proof fn lemma_value_grows(s: Seq<char>, n: int)
    requires
        0 <= n <= s.len(),
    ensures
        value_of(s.take(n)) <= value_of(s),
    decreases s.len() - n,
{
    if n < s.len() {
        assert(s.take(n + 1).drop_last() =~= s.take(n));
        assert(value_of(s.take(n)) <= value_of(s.take(n + 1)));
        lemma_value_grows(s, n + 1);
    } else {
        assert(s.take(n) =~= s);
    }
}

/// The number that `s` writes, where it is at most `max`.
pub fn number(s: &str, max: u64) -> (r: Option<u64>)
    ensures
        match r {
            Some(n) => number_in(s@, max as nat) == Some(n as nat),
            None => number_in(s@, max as nat) is None,
        },
{
    let cs = chars_of(s);
    let from: usize = if cs.len() > 0 && cs[0] == '+' {
        1
    } else {
        0
    };
    let ghost d = cs@.skip(from as int);
    proof {
        assert(cs@.skip(0) =~= cs@);
    }
    if from == cs.len() {
        return None;
    }
    let mut i: usize = from;
    let mut n: u64 = 0;
    while i < cs.len()
        invariant
            cs@ == s@,
            from <= i <= cs@.len(),
            d == cs@.skip(from as int),
            d == (if s@.len() > 0 && s@[0] == '+' {
                s@.skip(1)
            } else {
                s@
            }),
            d.len() > 0,
            n <= max,
            n == value_of(d.take(i - from)),
            all_digits(d.take(i - from)),
        decreases cs@.len() - i,
    {
        let c = cs[i];
        proof {
            let next = d.take(i - from + 1);
            assert(next.drop_last() =~= d.take(i - from));
            assert(next.last() == c);
            assert(d[i - from] == c);
            lemma_value_grows(d, i - from + 1);
        }
        if !('0' <= c && c <= '9') {
            return None;
        }
        let v: u64 = (c as u32 - 48) as u64;
        if n > max / 10 || v > max - n * 10 {
            return None;
        }
        n = n * 10 + v;
        proof {
            assert forall|k: int| 0 <= k < d.take(i - from + 1).len() implies is_digit(
                #[trigger] d.take(i - from + 1)[k],
            ) by {
                if k < i - from {
                    assert(d.take(i - from)[k] == d.take(i - from + 1)[k]);
                }
            }
        }
        i += 1;
    }
    proof {
        assert(d.take(d.len() as int) =~= d);
    }
    Some(n)
}

/// The digits of a number have its value.
pub proof fn lemma_digits(n: nat)
    ensures
        digits_of(n).len() > 0,
        all_digits(digits_of(n)),
        value_of(digits_of(n)) == n,
    decreases n,
{
    if n < 10 {
        assert(digits_of(n).drop_last() =~= Seq::empty());
        assert(value_of(digits_of(n).drop_last()) == 0);
        assert(digits_of(n).last() == digit_char(n));
    } else {
        lemma_digits(n / 10);
        let d = digits_of(n);
        assert(d.drop_last() =~= digits_of(n / 10));
        assert(d.last() == digit_char(n % 10));
        assert forall|i: int| 0 <= i < d.len() implies is_digit(#[trigger] d[i]) by {
            if i < d.len() - 1 {
                assert(d[i] == digits_of(n / 10)[i]);
            }
        }
    }
}

/// A number that was written is read again.
pub proof fn law_number_round_trip(n: nat, max: nat)
    requires
        n <= max,
    ensures
        number_in(digits_of(n), max) == Some(n),
{
    lemma_digits(n);
    assert(is_digit(digits_of(n)[0]));
}

/// Zeros before digits keep the value.
pub proof fn lemma_padded(s: Seq<char>, n: int)
    requires
        all_digits(s),
        n >= 0,
    ensures
        all_digits(zeros(n) + s),
        value_of(zeros(n) + s) == value_of(s),
    decreases s.len(),
{
    let t = zeros(n) + s;
    assert forall|i: int| 0 <= i < t.len() implies is_digit(#[trigger] t[i]) by {
        if i >= n {
            assert(t[i] == s[i - n]);
        }
    }
    if s.len() > 0 {
        assert(s.last() == s[s.len() - 1]);
        assert forall|i: int| 0 <= i < s.drop_last().len() implies is_digit(
            #[trigger] s.drop_last()[i],
        ) by {
            assert(s.drop_last()[i] == s[i]);
        }
        lemma_padded(s.drop_last(), n);
        assert(t.drop_last() =~= zeros(n) + s.drop_last());
        assert(t.last() == s.last());
    } else {
        lemma_zeros(n);
        assert(t =~= zeros(n));
    }
}

proof fn lemma_zeros(n: int)
    requires
        n >= 0,
    ensures
        value_of(zeros(n)) == 0,
    decreases n,
{
    if n > 0 {
        lemma_zeros(n - 1);
        assert(zeros(n).drop_last() =~= zeros(n - 1));
        assert(zeros(n).last() == '0');
    }
}

proof fn lemma_digits_again(s: Seq<char>) -> (k: int)
    requires
        s.len() > 0,
        all_digits(s),
    ensures
        0 <= k < s.len(),
        s == zeros(k) + digits_of(value_of(s)),
    decreases s.len(),
{
    let d = s.drop_last();
    let x = digit_value(s.last());
    assert(is_digit(s.last()));
    assert(digit_char(x) == s.last());
    assert(forall|i: int| 0 <= i < d.len() ==> d[i] == s[i]);
    if d.len() == 0 {
        assert(value_of(d) == 0);
        assert(s =~= zeros(0) + digits_of(value_of(s)));
        0
    } else {
        let k = lemma_digits_again(d);
        let v = value_of(d);
        if v == 0 {
            assert(digits_of(0) =~= seq!['0']);
            assert(d =~= zeros(k + 1));
            assert(s =~= zeros(k + 1) + digits_of(x));
            k + 1
        } else {
            assert((v * 10 + x) / 10 == v && (v * 10 + x) % 10 == x);
            assert(s =~= zeros(k) + digits_of(v * 10 + x));
            k
        }
    }
}

/// The texts that are read as a number up to `max` are the decimal forms of those numbers, with
/// any number of zeros and one `+` before them, and no others.
pub proof fn law_numbers_are_their_decimal_forms(s: Seq<char>, n: nat, max: nat)
    ensures
        number_in(s, max) == Some(n) <==> n <= max && exists|k: int|
            k >= 0 && (s == #[trigger] zeros(k) + digits_of(n) || s == seq!['+'] + (zeros(k)
                + digits_of(n))),
{
    if number_in(s, max) == Some(n) {
        if s[0] == '+' {
            let k = lemma_digits_again(s.skip(1));
            assert(s =~= seq!['+'] + (zeros(k) + digits_of(n)));
        } else {
            let k = lemma_digits_again(s);
            assert(s == zeros(k) + digits_of(n));
        }
    }
    if n <= max && exists|k: int|
        k >= 0 && (s == #[trigger] zeros(k) + digits_of(n) || s == seq!['+'] + (zeros(k)
            + digits_of(n))) {
        let k = choose|k: int|
            k >= 0 && (s == #[trigger] zeros(k) + digits_of(n) || s == seq!['+'] + (zeros(k)
                + digits_of(n)));
        let d = zeros(k) + digits_of(n);
        lemma_digits(n);
        lemma_padded(digits_of(n), k);
        assert(is_digit(d[0]));
        if s == seq!['+'] + d {
            assert(s.skip(1) =~= d);
        }
    }
}

} // verus!
