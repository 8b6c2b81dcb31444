//! Decisions of the playback poll loop: latency compensation for the
//! reported position, and the bounded exponential backoff after
//! consecutive failures. The surrounding application runs the loop.

use vstd::prelude::*;

verus! {

/// Backoff never exceeds thirty seconds.
pub const MAX_BACKOFF_MS: u64 = 30000;

pub open spec fn pow2(e: nat) -> nat
    decreases e,
{
    if e == 0 {
        1
    } else {
        2 * pow2((e - 1) as nat)
    }
}

/// The wait after this many consecutive poll failures: a tenth of a
/// second doubled per failure, the exponent capped at ten, the whole
/// wait capped at thirty seconds.
pub open spec fn spec_backoff_ms(consecutive_errors: u32) -> int {
    let e: nat = if consecutive_errors <= 10 {
        consecutive_errors as nat
    } else {
        10
    };
    let raw = 100 * pow2(e);
    if raw <= MAX_BACKOFF_MS {
        raw as int
    } else {
        MAX_BACKOFF_MS as int
    }
}

proof fn lemma_pow2_pos(e: nat)
    ensures
        pow2(e) >= 1,
    decreases e,
{
    if e > 0 {
        lemma_pow2_pos((e - 1) as nat);
    }
}

proof fn lemma_pow2_mono(a: nat, b: nat)
    requires
        a <= b,
    ensures
        pow2(a) <= pow2(b),
    decreases b,
{
    if a < b {
        lemma_pow2_mono(a, (b - 1) as nat);
        lemma_pow2_pos((b - 1) as nat);
    }
}

/// Compute the backoff for an error count.
pub fn backoff_ms(consecutive_errors: u32) -> (r: u64)
    ensures
        r == spec_backoff_ms(consecutive_errors),
{
    let e: u32 = if consecutive_errors <= 10 {
        consecutive_errors
    } else {
        10
    };
    let mut p: u64 = 1;
    let mut k: u32 = 0;
    while k < e
        invariant
            0 <= k <= e <= 10,
            p == pow2(k as nat),
            p <= 1024,
        decreases e - k,
    {
        proof {
            lemma_pow2_mono((k + 1) as nat, 10);
            assert(pow2(10) == 1024) by {
                reveal_with_fuel(pow2, 11);
            }
        }
        p = p * 2;
        k += 1;
    }
    let raw = 100 * p;
    if raw <= MAX_BACKOFF_MS {
        raw
    } else {
        MAX_BACKOFF_MS
    }
}

/// The error count after one more failure, saturating.
pub fn after_error(consecutive_errors: u32) -> (r: u32)
    ensures
        r == if consecutive_errors < u32::MAX {
            consecutive_errors + 1
        } else {
            u32::MAX as int
        },
{
    if consecutive_errors < u32::MAX {
        consecutive_errors + 1
    } else {
        u32::MAX
    }
}

/// After this many consecutive failures the loop reports loudly.
pub const ERROR_ESCALATION_THRESHOLD: u32 = 5;

/// The position handed to the sync engine: the reported progress plus
/// half the request latency, assuming the snapshot dates from the middle
/// of the request.
pub fn compensated_position_ms(progress_ms: u64, request_latency_ms: u64) -> (r: u64)
    ensures
        r == if progress_ms + request_latency_ms / 2 <= u64::MAX {
            progress_ms + request_latency_ms / 2
        } else {
            u64::MAX as int
        },
{
    progress_ms.saturating_add(request_latency_ms / 2)
}

} // verus!
