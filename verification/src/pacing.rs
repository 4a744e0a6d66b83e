//! Pacing of capture loops: how long to wait before capturing a frame.
use vstd::prelude::*;

verus! {

/// The longest duration, in nanoseconds: `u64::MAX` seconds and
/// 999 999 999 nanoseconds.
pub open spec fn duration_max_ns() -> int {
    u64::MAX as int * 1_000_000_000 + 999_999_999
}

/// `frame_duration_ns` times `frame_index`, saturating at the longest
/// duration.
pub open spec fn saturating_frame_time(frame_duration_ns: int, frame_index: int) -> int {
    if frame_duration_ns * frame_index > duration_max_ns() {
        duration_max_ns()
    } else {
        frame_duration_ns * frame_index
    }
}

/// How long to sleep before capturing frame `frame_index` of a loop that
/// started `elapsed_ns` nanoseconds ago and captures one frame every
/// `frame_duration_ns` nanoseconds: the time left until the frame is due,
/// or `None` when it is due already.
pub fn frame_pacing_delay(frame_duration_ns: u128, frame_index: u32, elapsed_ns: u128) -> (delay: Option<u128>)
    requires
        frame_duration_ns <= duration_max_ns(),
        elapsed_ns <= duration_max_ns(),
    ensures
        ({
            let expected = saturating_frame_time(frame_duration_ns as int, frame_index as int);
            &&& expected > elapsed_ns ==> delay == Some((expected - elapsed_ns) as u128)
            &&& expected <= elapsed_ns ==> delay is None
        }),
{
    let max_ns: u128 = 18446744073709551615u128 * 1_000_000_000u128 + 999_999_999u128;
    assert(frame_duration_ns as int * frame_index as int <= duration_max_ns() * u32::MAX) by (nonlinear_arith)
        requires
            frame_duration_ns <= duration_max_ns(),
            frame_index <= u32::MAX,
            0 <= frame_duration_ns,
            0 <= frame_index,
    ;
    let product = frame_duration_ns * (frame_index as u128);
    let expected = if product > max_ns { max_ns } else { product };
    if expected > elapsed_ns {
        Some(expected - elapsed_ns)
    } else {
        None
    }
}

} // verus!
