use vstd::prelude::*;

use crate::job::JobError;

verus! {

/// The characters that `char::is_whitespace` accepts: Unicode `White_Space`.
pub open spec fn is_ws(c: char) -> bool {
    let v = c as u32;
    (9 <= v && v <= 13) || v == 32 || v == 0x85 || v == 0xA0 || v == 0x1680 || (0x2000 <= v && v
        <= 0x200A) || v == 0x2028 || v == 0x2029 || v == 0x202F || v == 0x205F || v == 0x3000
}

pub open spec fn trim_start(s: Seq<char>) -> Seq<char>
    decreases s.len(),
{
    if s.len() > 0 && is_ws(s[0]) {
        trim_start(s.drop_first())
    } else {
        s
    }
}

pub open spec fn trim_end(s: Seq<char>) -> Seq<char>
    decreases s.len(),
{
    if s.len() > 0 && is_ws(s.last()) {
        trim_end(s.drop_last())
    } else {
        s
    }
}

/// `s` without leading and trailing white space.
pub open spec fn trimmed(s: Seq<char>) -> Seq<char> {
    trim_end(trim_start(s))
}

pub open spec fn is_digit(c: char) -> bool {
    48 <= (c as u32) && (c as u32) <= 57
}

/// The value of a string of decimal digits.
pub open spec fn digits_value(s: Seq<char>) -> nat
    decreases s.len(),
{
    if s.len() == 0 {
        0
    } else {
        digits_value(s.drop_last()) * 10 + ((s.last() as u32) - 48) as nat
    }
}

/// `s` without one leading `+`.
pub open spec fn strip_plus(s: Seq<char>) -> Seq<char> {
    if s.len() > 0 && s[0] == '+' {
        s.drop_first()
    } else {
        s
    }
}

pub open spec fn all_digits(d: Seq<char>) -> bool {
    forall|i: int| 0 <= i < d.len() ==> is_digit(#[trigger] d[i])
}

/// The number an unsigned decimal spells: an optional `+`, then one or
/// more digits.
pub open spec fn number_of(s: Seq<char>) -> Option<nat> {
    let d = strip_plus(s);
    if d.len() > 0 && all_digits(d) {
        Some(digits_value(d))
    } else {
        None
    }
}

/// Seconds in one unit of the suffix `c`: `s`, `m`, `h` or `d`.
pub open spec fn unit_secs(c: char) -> Option<nat> {
    if c == 's' {
        Some(1)
    } else if c == 'm' {
        Some(60)
    } else if c == 'h' {
        Some(3600)
    } else if c == 'd' {
        Some(86400)
    } else {
        None
    }
}

/// The number of seconds a duration such as `30s`, `5m`, `1h` or `7d`
/// denotes, white space around it aside.
pub open spec fn duration_secs(s: Seq<char>) -> Option<nat> {
    let t = trimmed(s);
    if t.len() == 0 {
        None
    } else {
        match unit_secs(t.last()) {
            None => None,
            Some(u) => match number_of(t.drop_last()) {
                Some(n) => Some(n * u),
                None => None,
            },
        }
    }
}

pub fn is_whitespace(c: char) -> (r: bool)
    ensures
        r == is_ws(c),
{
    let v = c as u32;
    (9 <= v && v <= 13) || v == 32 || v == 0x85 || v == 0xA0 || v == 0x1680 || (0x2000 <= v && v
        <= 0x200A) || v == 0x2028 || v == 0x2029 || v == 0x202F || v == 0x205F || v == 0x3000
}

proof fn lemma_trim_start_from(s: Seq<char>, a: int)
    requires
        0 <= a <= s.len(),
        forall|k: int| 0 <= k < a ==> is_ws(#[trigger] s[k]),
    ensures
        trim_start(s) == trim_start(s.subrange(a, s.len() as int)),
    decreases a,
{
    if a > 0 {
        assert(s.drop_first().subrange(a - 1, s.drop_first().len() as int) =~= s.subrange(
            a,
            s.len() as int,
        ));
        lemma_trim_start_from(s.drop_first(), a - 1);
    } else {
        assert(s.subrange(0, s.len() as int) =~= s);
    }
}

proof fn lemma_trim_end_to(s: Seq<char>, b: int)
    requires
        0 <= b <= s.len(),
        forall|k: int| b <= k < s.len() ==> is_ws(#[trigger] s[k]),
    ensures
        trim_end(s) == trim_end(s.subrange(0, b)),
    decreases s.len() - b,
{
    if b < s.len() {
        assert(s.drop_last().subrange(0, b) =~= s.subrange(0, b));
        lemma_trim_end_to(s.drop_last(), b);
    } else {
        assert(s.subrange(0, b) =~= s);
    }
}

/// A longer run of digits is worth at least as much as its prefix.
proof fn lemma_digits_monotone(s: Seq<char>, k: int)
    requires
        0 <= k <= s.len(),
    ensures
        digits_value(s.subrange(0, k)) <= digits_value(s),
    decreases s.len() - k,
{
    if k < s.len() {
        lemma_digits_monotone(s, k + 1);
        assert(s.subrange(0, k + 1).drop_last() =~= s.subrange(0, k));
    } else {
        assert(s.subrange(0, k) =~= s);
    }
}

/// Where `s` begins and ends once surrounding white space is dropped.
fn trim_bounds(s: &str) -> (r: (usize, usize))
    ensures
        r.0 <= r.1 <= s@.len(),
        s@.subrange(r.0 as int, r.1 as int) == trimmed(s@),
{
    let ghost cs = s@;
    let n = s.unicode_len();
    let mut a: usize = 0;
    while a < n && is_whitespace(s.get_char(a))
        invariant
            n == cs.len(),
            cs == s@,
            0 <= a <= n,
            forall|k: int| 0 <= k < a ==> is_ws(#[trigger] cs[k]),
        decreases n - a,
    {
        a = a + 1;
    }
    proof {
        lemma_trim_start_from(cs, a as int);
    }
    let ghost rest = cs.subrange(a as int, n as int);
    assert(a < n ==> !is_ws(rest[0]));
    assert(trim_start(cs) == rest);
    let mut b: usize = n;
    while b > a && is_whitespace(s.get_char(b - 1))
        invariant
            n == cs.len(),
            cs == s@,
            0 <= a <= b <= n,
            forall|k: int| b <= k < n ==> is_ws(#[trigger] cs[k]),
        decreases b,
    {
        b = b - 1;
    }
    proof {
        assert forall|k: int| b - a <= k < rest.len() implies is_ws(#[trigger] rest[k]) by {
            assert(rest[k] == cs[k + a]);
        }
        lemma_trim_end_to(rest, b - a);
    }
    let ghost t = cs.subrange(a as int, b as int);
    assert(rest.subrange(0, b - a) =~= t);
    assert(b > a ==> t.last() == cs[b - 1]);
    (a, b)
}

/// The value of the unsigned decimal that `s` spells between `lo` and
/// `hi`, when it fits in a `u64`.
fn parse_number(s: &str, lo: usize, hi: usize) -> (r: Option<u64>)
    requires
        lo <= hi <= s@.len(),
    ensures
        match number_of(s@.subrange(lo as int, hi as int)) {
            Some(v) => if v <= u64::MAX {
                r == Some(v as u64)
            } else {
                r is None
            },
            None => r is None,
        },
{
    let ghost cs = s@;
    let ghost body = cs.subrange(lo as int, hi as int);
    let mut start = lo;
    if start < hi && s.get_char(start) == '+' {
        start = start + 1;
    }
    let ghost digits = cs.subrange(start as int, hi as int);
    assert(digits =~= strip_plus(body));
    if start == hi {
        return None;
    }
    let mut value: u64 = 0;
    let mut i: usize = start;
    while i < hi
        invariant
            cs == s@,
            lo <= start < hi <= cs.len(),
            start <= i <= hi,
            body == cs.subrange(lo as int, hi as int),
            digits == cs.subrange(start as int, hi as int),
            digits == strip_plus(body),
            digits.len() > 0,
            forall|k: int| start <= k < i ==> is_digit(#[trigger] cs[k]),
            value == digits_value(cs.subrange(start as int, i as int)),
        decreases hi - i,
    {
        let c = s.get_char(i);
        let v = c as u32;
        if v < 48 || v > 57 {
            assert(!is_digit(digits[i - start]));
            return None;
        }
        let d = (v - 48) as u64;
        proof {
            assert(cs.subrange(start as int, i + 1).drop_last() =~= cs.subrange(start as int, i as int));
        }
        let step = match value.checked_mul(10) {
            Some(x) => x.checked_add(d),
            None => None,
        };
        match step {
            Some(x) => {
                value = x;
            },
            None => {
                proof {
                    assert(digits.subrange(0, i + 1 - start) =~= cs.subrange(start as int, i + 1));
                    lemma_digits_monotone(digits, i + 1 - start);
                }
                return None;
            },
        }
        i = i + 1;
    }
    assert(cs.subrange(start as int, hi as int) =~= digits);
    assert(number_of(body) == Some(digits_value(digits)));
    Some(value)
}

/// Parses a duration such as `30s`, `5m`, `1h` or `7d` into seconds.
/// Anything else, or a value beyond `u64`, is `BadInput`.
pub fn parse_duration(s: &str) -> (r: Result<u64, JobError>)
    ensures
        match duration_secs(s@) {
            Some(v) => if v <= u64::MAX {
                r == Ok::<u64, JobError>(v as u64)
            } else {
                r == Err::<u64, JobError>(JobError::BadInput)
            },
            None => r == Err::<u64, JobError>(JobError::BadInput),
        },
{
    let (a, b) = trim_bounds(s);
    let ghost t = s@.subrange(a as int, b as int);
    if b == a {
        return Err(JobError::BadInput);
    }
    assert(t.last() == s@[b - 1]);
    let last = s.get_char(b - 1);
    let unit: u64 = if last == 's' {
        1
    } else if last == 'm' {
        60
    } else if last == 'h' {
        3600
    } else if last == 'd' {
        86400
    } else {
        return Err(JobError::BadInput);
    };
    assert(unit_secs(t.last()) == Some(unit as nat));
    assert(t.drop_last() =~= s@.subrange(a as int, b - 1));
    match parse_number(s, a, b - 1) {
        Some(n) => match n.checked_mul(unit) {
            Some(x) => Ok(x),
            None => Err(JobError::BadInput),
        },
        None => {
            proof {
                if let Some(v) = number_of(t.drop_last()) {
                    assert(v * (unit as nat) >= v) by (nonlinear_arith)
                        requires
                            unit >= 1,
                    ;
                }
            }
            Err(JobError::BadInput)
        },
    }
}

/// The process id a pid file holds: an unsigned decimal that fits in a
/// `u32`, white space around it aside.
pub open spec fn pid_in(s: Seq<char>) -> Option<u32> {
    match number_of(trimmed(s)) {
        Some(n) => if n <= u32::MAX {
            Some(n as u32)
        } else {
            None
        },
        None => None,
    }
}

/// Reads the process id out of the text of a pid file.
pub fn parse_pid(text: &str) -> (r: Option<u32>)
    ensures
        r == pid_in(text@),
{
    let (a, b) = trim_bounds(text);
    match parse_number(text, a, b) {
        Some(n) => if n <= u32::MAX as u64 {
            Some(n as u32)
        } else {
            None
        },
        None => None,
    }
}

} // verus!
