use vstd::prelude::*;

use crate::text::{join2, push_char};

verus! {

/// The decimal digit for `d < 10`.
pub open spec fn digit_of(d: nat) -> char {
    ((48 + d) as u8) as char
}

/// The decimal spelling of `n`, without leading zeros.
pub open spec fn decimal_text(n: nat) -> Seq<char>
    decreases n,
{
    if n < 10 {
        seq![digit_of(n)]
    } else {
        decimal_text(n / 10).push(digit_of(n % 10))
    }
}

/// Writes `n` in decimal.
pub fn decimal(n: u64) -> (r: String)
    ensures
        r@ == decimal_text(n as nat),
    decreases n,
{
    if n < 10 {
        let mut s = String::new();
        push_char(&mut s, ((48 + n) as u8) as char);
        assert(s@ =~= seq![digit_of(n as nat)]);
        s
    } else {
        let mut s = decimal(n / 10);
        push_char(&mut s, ((48 + n % 10) as u8) as char);
        s
    }
}

/// `s` cut to at most `max` characters: a longer one keeps its first
/// `max - 3` characters (none when `max < 3`) followed by `...`.
pub open spec fn truncated(s: Seq<char>, max: nat) -> Seq<char> {
    if s.len() > max {
        s.subrange(0, if max >= 3 {
            max - 3
        } else {
            0
        }) + seq!['.', '.', '.']
    } else {
        s
    }
}

pub fn truncate(s: &str, max: usize) -> (r: String)
    ensures
        r@ == truncated(s@, max as nat),
{
    let n = s.unicode_len();
    if n > max {
        let keep = if max >= 3 {
            max - 3
        } else {
            0
        };
        let mut out = s.substring_char(0, keep).to_owned();
        push_char(&mut out, '.');
        push_char(&mut out, '.');
        push_char(&mut out, '.');
        assert(out@ =~= s@.subrange(0, keep as int) + seq!['.', '.', '.']);
        out
    } else {
        s.to_owned()
    }
}

/// How long ago something happened, `diff` seconds back: whole days,
/// hours or minutes, or `just now` under a minute.
pub open spec fn relative_text(diff: i64) -> Seq<char> {
    if diff >= 86400 {
        decimal_text((diff / 86400) as nat) + "d ago"@
    } else if diff >= 3600 {
        decimal_text((diff / 3600) as nat) + "h ago"@
    } else if diff >= 60 {
        decimal_text((diff / 60) as nat) + "m ago"@
    } else {
        "just now"@
    }
}

pub fn relative_time(diff: i64) -> (r: String)
    ensures
        r@ == relative_text(diff),
{
    if diff >= 86400 {
        let d = decimal((diff / 86400) as u64);
        join2(d.as_str(), "d ago")
    } else if diff >= 3600 {
        let h = decimal((diff / 3600) as u64);
        join2(h.as_str(), "h ago")
    } else if diff >= 60 {
        let m = decimal((diff / 60) as u64);
        join2(m.as_str(), "m ago")
    } else {
        "just now".to_owned()
    }
}

} // verus!
