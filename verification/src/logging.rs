//! Size-bounded log files for the launchd-managed process.
//!
//! launchd appends to the log paths forever and hands the process an
//! already-open descriptor, so renaming the file would only move the growth
//! elsewhere. The one thing that works against an inherited `O_APPEND`
//! descriptor is truncating in place: keep the tail, drop the rest. Reading
//! and rewriting the file is the caller's job; this module decides when to
//! rotate and what the rotated file holds.
use vstd::prelude::*;
use crate::paths::{join_spec, join_path};
use crate::text::{push_str, push_decimal, decimal};

verus! {

/// Rotate once a file grows past this many bytes (4 MiB).
pub const MAX_LOG_BYTES: u64 = 4194304;

/// How much of the tail survives a rotation (512 KiB).
pub const KEEP_TAIL_BYTES: u64 = 524288;

/// How often the sizes are re-checked while running, in seconds.
pub const CHECK_INTERVAL_SECS: u64 = 3600;

/// The two files launchd redirects stdout and stderr into.
pub fn log_paths(home: &str) -> (r: [String; 2])
    ensures
        r@[0]@ == join_spec(join_spec(home@, ".webtop"@), "webtop.out.log"@),
        r@[1]@ == join_spec(join_spec(home@, ".webtop"@), "webtop.err.log"@),
{
    let dir = join_path(home, ".webtop");
    [join_path(dir.as_str(), "webtop.out.log"), join_path(dir.as_str(), "webtop.err.log")]
}

/// Where to start reading the tail of a file of `len` bytes, or `None` when
/// it is small enough to leave alone.
pub fn rotation_start(len: u64) -> (r: Option<u64>)
    ensures
        len <= MAX_LOG_BYTES ==> r is None,
        len > MAX_LOG_BYTES ==> r == Some((len - KEEP_TAIL_BYTES) as u64),
{
    if len <= MAX_LOG_BYTES {
        None
    } else {
        Some(len - KEEP_TAIL_BYTES)
    }
}

/// Index of the first newline byte, or -1.
pub open spec fn first_newline(s: Seq<u8>) -> int
    decreases s.len(),
{
    if s.len() == 0 {
        -1
    } else if s[0] == 10 {
        0
    } else {
        let r = first_newline(s.drop_first());
        if r < 0 {
            -1
        } else {
            r + 1
        }
    }
}

/// The tail without the partial line it starts with: reading from a byte
/// offset almost always lands mid-line.
pub open spec fn whole_lines(tail: Seq<u8>) -> Seq<u8> {
    let k = first_newline(tail);
    if k >= 0 {
        tail.skip(k + 1)
    } else {
        tail
    }
}

/// The line that opens a rotated file.
pub open spec fn rotation_header(dropped: u64) -> Seq<char> {
    "--- log truncated, dropped "@ + decimal(dropped as nat) + " bytes ---\n"@
}

/// What a rotated file holds: a header line, then the kept bytes.
pub struct Rotated {
    pub header: String,
    pub kept: Vec<u8>,
    /// Bytes of the file before rotation that are gone.
    pub dropped: u64,
}

proof fn lemma_first_newline(s: Seq<u8>)
    ensures
        -1 <= first_newline(s) < s.len(),
        first_newline(s) >= 0 ==> s[first_newline(s)] == 10,
        forall|i: int| 0 <= i < s.len() && (first_newline(s) < 0 || i < first_newline(s)) ==> s[i] != 10,
    decreases s.len(),
{
    if s.len() > 0 && s[0] != 10 {
        lemma_first_newline(s.drop_first());
        assert forall|i: int| 0 <= i < s.len() && (first_newline(s) < 0 || i < first_newline(s)) implies s[i] != 10 by {
            if i > 0 {
                assert(s[i] == s.drop_first()[i - 1]);
            }
        }
    }
}

/// Build the rotated file from the length before rotation and the tail read from
/// [`rotation_start`].
pub fn rotate_tail(len: u64, tail: Vec<u8>) -> (r: Rotated)
    requires
        tail@.len() <= len,
    ensures
        r.kept@ == whole_lines(tail@),
        r.dropped == len - r.kept@.len(),
        r.header@ == rotation_header(r.dropped),
{
    proof {
        lemma_first_newline(tail@);
    }
    let n = tail.len();
    let mut k: usize = 0;
    while k < n && tail[k] != 10
        invariant
            k <= n == tail@.len(),
            forall|i: int| 0 <= i < k ==> tail@[i] != 10,
        decreases n - k,
    {
        k += 1;
    }
    let start = if k < n { k + 1 } else { 0 };
    proof {
        if k < n {
            assert(first_newline(tail@) == k) by {
                let f = first_newline(tail@);
                if f < 0 {
                    assert(tail@[k as int] != 10);
                } else if f < k {
                    assert(tail@[f] != 10);
                } else if f > k {
                    assert(tail@[k as int] != 10);
                }
            }
        } else {
            assert(first_newline(tail@) < 0) by {
                let f = first_newline(tail@);
                if f >= 0 {
                    assert(tail@[f] != 10);
                }
            }
        }
    }
    let mut kept: Vec<u8> = Vec::new();
    let mut i = start;
    while i < n
        invariant
            start <= i <= n == tail@.len(),
            kept@ == tail@.subrange(start as int, i as int),
        decreases n - i,
    {
        kept.push(tail[i]);
        assert(tail@.subrange(start as int, i + 1) =~= tail@.subrange(start as int, i as int).push(tail@[i as int]));
        i += 1;
    }
    assert(kept@ =~= whole_lines(tail@));
    let dropped = len - kept.len() as u64;
    let mut header = String::new();
    push_str(&mut header, "--- log truncated, dropped ");
    push_decimal(&mut header, dropped);
    push_str(&mut header, " bytes ---\n");
    Rotated { header, kept, dropped }
}

/// `10^k`.
pub open spec fn pow10(k: nat) -> nat
    decreases k,
{
    if k == 0 {
        1
    } else {
        10 * pow10((k - 1) as nat)
    }
}

/// A number below `10^k` has at most `k` decimal digits.
pub proof fn lemma_decimal_len(n: nat, k: nat)
    requires
        k >= 1,
        n < pow10(k),
    ensures
        decimal(n).len() <= k,
    decreases k,
{
    if n >= 10 {
        assert(k >= 2) by {
            if k == 1 {
                assert(pow10(1) == 10 * pow10(0));
            }
        }
        let b2 = pow10((k - 1) as nat);
        assert(n / 10 < b2) by (nonlinear_arith)
            requires
                n < 10 * b2,
        ;
        lemma_decimal_len(n / 10, (k - 1) as nat);
    }
}

/// A rotated file never exceeds the ceiling: the header line plus at most
/// [`KEEP_TAIL_BYTES`] of kept lines stays under [`MAX_LOG_BYTES`].
pub proof fn law_rotated_file_is_bounded(tail: Seq<u8>, dropped: u64)
    requires
        tail.len() <= KEEP_TAIL_BYTES,
    ensures
        rotation_header(dropped).len() + whole_lines(tail).len() < MAX_LOG_BYTES,
        whole_lines(tail).len() <= tail.len(),
{
    lemma_first_newline(tail);
    assert(pow10(20) == 100000000000000000000nat) by {
        reveal_with_fuel(pow10, 21);
    }
    lemma_decimal_len(dropped as nat, 20);
    reveal_strlit("--- log truncated, dropped ");
    reveal_strlit(" bytes ---\n");
}

/// What survives a rotation is the newest part of the file and starts on a
/// line boundary: it is a suffix of the tail, and the byte before it, when
/// one was dropped, is a newline.
pub proof fn law_rotation_keeps_whole_newest_lines(tail: Seq<u8>)
    ensures
        tail.len() >= whole_lines(tail).len(),
        whole_lines(tail) == tail.skip(tail.len() - whole_lines(tail).len()),
        whole_lines(tail).len() < tail.len() ==> tail[tail.len() - whole_lines(tail).len() - 1] == 10,
{
    lemma_first_newline(tail);
    let k = first_newline(tail);
    if k < 0 {
        assert(tail.skip(0) =~= tail);
    }
}

} // verus!
