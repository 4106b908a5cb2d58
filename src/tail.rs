use vstd::prelude::*;

verus! {

/// Index `p` begins a line that is not the first: the byte before it is a
/// newline, and `p` is not the end of the content.
pub open spec fn is_line_start(c: Seq<u8>, p: int) -> bool {
    1 <= p < c.len() && c[p - 1] == 10
}

/// How many line starts lie in `lo..hi`.
pub open spec fn count_starts(c: Seq<u8>, lo: int, hi: int) -> nat
    decreases hi - lo,
{
    if hi <= lo {
        0
    } else {
        count_starts(c, lo, hi - 1) + if is_line_start(c, hi - 1) {
            1nat
        } else {
            0nat
        }
    }
}

/// Counting down from `p`, the `k`-th line start; 0 when there are fewer.
pub open spec fn back_start(c: Seq<u8>, p: int, k: nat) -> int
    decreases p,
{
    if p <= 0 {
        0
    } else if is_line_start(c, p) {
        if k <= 1 {
            p
        } else {
            back_start(c, p - 1, (k - 1) as nat)
        }
    } else {
        back_start(c, p - 1, k)
    }
}

/// Where the last `n` lines of `c` begin: the `n`-th line start from the
/// end, the beginning when there are fewer lines, and the end for `n = 0`.
pub open spec fn tail_start(c: Seq<u8>, n: nat) -> int {
    if n == 0 || c.len() == 0 {
        c.len() as int
    } else {
        back_start(c, c.len() - 1, n)
    }
}

/// The offset at which the last `n` lines of a log begin; a final newline
/// does not open another line.
pub fn tail_offset(content: &Vec<u8>, n: usize) -> (r: usize)
    ensures
        r == tail_start(content@, n as nat),
{
    let len = content.len();
    if n == 0 || len == 0 {
        return len;
    }
    let ghost c = content@;
    let mut p: usize = len - 1;
    let mut k: usize = n;
    while p > 0
        invariant
            c == content@,
            len == c.len(),
            0 <= p < len,
            1 <= k <= n,
            tail_start(c, n as nat) == back_start(c, p as int, k as nat),
        decreases p,
    {
        if content[p - 1] == 10 {
            if k == 1 {
                return p;
            }
            k = k - 1;
        }
        p = p - 1;
    }
    0
}

proof fn lemma_back_start(c: Seq<u8>, p: int, k: nat)
    requires
        0 <= p < c.len(),
        k >= 1,
    ensures
        count_starts(c, 0, p + 1) < k ==> back_start(c, p, k) == 0,
        count_starts(c, 0, p + 1) >= k ==> is_line_start(c, back_start(c, p, k)) && count_starts(
            c,
            back_start(c, p, k),
            p + 1,
        ) == k,
    decreases p,
{
    if p > 0 {
        if is_line_start(c, p) && k > 1 {
            lemma_back_start(c, p - 1, (k - 1) as nat);
            let b = back_start(c, p - 1, (k - 1) as nat);
            if count_starts(c, 0, p + 1) >= k {
                lemma_count_split(c, b, p);
            }
        } else if !is_line_start(c, p) {
            lemma_back_start(c, p - 1, k);
            let b = back_start(c, p - 1, k);
            if count_starts(c, 0, p + 1) >= k {
                lemma_count_split(c, b, p);
            }
        } else {
            assert(count_starts(c, p, p + 1) == 1) by {
                assert(count_starts(c, p, p) == 0);
            }
        }
    } else {
        assert(!is_line_start(c, 0));
        assert(count_starts(c, 0, 0) == 0);
    }
}

/// Extending a range by one position adds that position's start, if any.
proof fn lemma_count_split(c: Seq<u8>, lo: int, p: int)
    requires
        0 <= lo <= p,
    ensures
        count_starts(c, lo, p + 1) == count_starts(c, lo, p) + if is_line_start(c, p) {
            1nat
        } else {
            0nat
        },
{
}

/// Asking for more lines than a log holds gives all of it; asking for
/// fewer gives a suffix that begins a line and holds exactly that many
/// lines.
pub proof fn law_tail(c: Seq<u8>, n: nat)
    requires
        n >= 1,
        c.len() >= 1,
    ensures
        count_starts(c, 0, c.len() as int) < n ==> tail_start(c, n) == 0,
        count_starts(c, 0, c.len() as int) >= n ==> is_line_start(c, tail_start(c, n))
            && count_starts(c, tail_start(c, n), c.len() as int) == n,
{
    lemma_back_start(c, c.len() - 1, n);
}

} // verus!
