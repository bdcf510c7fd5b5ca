//! Progress accounting: the counters behind the progress display, and the
//! integer arithmetic of the figures shown (percentage, throughput, remaining
//! time, render throttling). Rendering itself is the caller's business; every
//! function here is a pure computation on the counters.

use vstd::prelude::*;

verus! {

/// The mutable counters of one run. The scan pass grows `bytes_total` and
/// `files_seen`; freezing ends the scan; the copy pass then grows
/// `bytes_done`, never past the frozen total.
pub struct ProgressState {
    /// Bytes copied so far.
    pub bytes_done: u64,
    /// Total bytes to copy, as the scan pass computed it.
    pub bytes_total: u64,
    /// Files counted by the scan pass.
    pub files_seen: u64,
    /// Whether the scan pass is over and `bytes_total` is fixed.
    pub total_frozen: bool,
}

impl ProgressState {
    /// Once the total is frozen, what was copied never exceeds it.
    pub open spec fn wf(&self) -> bool {
        self.total_frozen ==> self.bytes_done <= self.bytes_total
    }

    /// Fresh counters, all zero, scan still open.
    pub fn new() -> (r: Self)
        ensures
            r.bytes_done == 0,
            r.bytes_total == 0,
            r.files_seen == 0,
            !r.total_frozen,
            r.wf(),
    {
        ProgressState { bytes_done: 0, bytes_total: 0, files_seen: 0, total_frozen: false }
    }

    /// Scan pass: account one file of `size` bytes.
    pub fn record_scanned(&mut self, size: u64)
        requires
            !old(self).total_frozen,
            old(self).bytes_total + size <= u64::MAX,
            old(self).files_seen < u64::MAX,
        ensures
            final(self).bytes_total == old(self).bytes_total + size,
            final(self).files_seen == old(self).files_seen + 1,
            final(self).bytes_done == old(self).bytes_done,
            !final(self).total_frozen,
    {
        self.bytes_total = self.bytes_total + size;
        self.files_seen = self.files_seen + 1;
    }

    /// Ends the scan pass: `bytes_total` is fixed from here on.
    pub fn freeze_total(&mut self)
        requires
            old(self).bytes_done <= old(self).bytes_total,
        ensures
            final(self).total_frozen,
            final(self).bytes_done == old(self).bytes_done,
            final(self).bytes_total == old(self).bytes_total,
            final(self).files_seen == old(self).files_seen,
            final(self).wf(),
    {
        self.total_frozen = true;
    }

    /// Copy pass: account one chunk of `delta` bytes written.
    pub fn record_copied(&mut self, delta: u64)
        requires
            old(self).bytes_done + delta <= u64::MAX,
            old(self).total_frozen ==> old(self).bytes_done + delta <= old(self).bytes_total,
        ensures
            final(self).bytes_done == old(self).bytes_done + delta,
            final(self).bytes_total == old(self).bytes_total,
            final(self).files_seen == old(self).files_seen,
            final(self).total_frozen == old(self).total_frozen,
            old(self).wf() ==> final(self).wf(),
    {
        self.bytes_done = self.bytes_done + delta;
    }

    /// The integer percentage shown: bytes copied per hundred of the total,
    /// rounded down. Never more than one hundred.
    pub fn percent(&self) -> (p: u64)
        requires
            self.bytes_total > 0,
            self.bytes_done <= self.bytes_total,
        ensures
            p == self.bytes_done * 100 / self.bytes_total as int,
            p <= 100,
            p == 100 <==> self.bytes_done == self.bytes_total,
    {
        let v: u128 = (self.bytes_done as u128) * 100 / (self.bytes_total as u128);
        proof {
            let d = self.bytes_done as int;
            let t = self.bytes_total as int;
            assert(d * 100 <= t * 100) by (nonlinear_arith)
                requires
                    d <= t,
            ;
            vstd::arithmetic::div_mod::lemma_div_is_ordered(d * 100, t * 100, t);
            vstd::arithmetic::div_mod::lemma_div_multiples_vanish(100, t);
            if d < t {
                assert(d * 100 < t * 100) by (nonlinear_arith)
                    requires
                        d < t,
                ;
                vstd::arithmetic::div_mod::lemma_multiply_divide_lt(d * 100, t, 100);
            }
        }
        v as u64
    }
}

/// Whether the display is rendered now: either the minimum interval since the
/// last render has passed, or the copy has reached its total, which always
/// renders so the final state is shown.
pub fn should_render(
    now_ms: u64,
    last_render_ms: u64,
    min_interval_ms: u64,
    bytes_done: u64,
    bytes_total: u64,
) -> (r: bool)
    ensures
        r == ((now_ms >= last_render_ms && now_ms - last_render_ms >= min_interval_ms)
            || bytes_done >= bytes_total),
{
    (now_ms >= last_render_ms && now_ms - last_render_ms >= min_interval_ms) || bytes_done
        >= bytes_total
}

/// Throughput in bytes per second from bytes copied and elapsed milliseconds,
/// clamped to the largest representable value.
pub fn throughput_bps(bytes_done: u64, elapsed_ms: u64) -> (r: u64)
    requires
        elapsed_ms > 0,
    ensures
        bytes_done * 1000 / elapsed_ms as int <= u64::MAX ==> r == bytes_done * 1000
            / elapsed_ms as int,
        bytes_done * 1000 / elapsed_ms as int > u64::MAX ==> r == u64::MAX,
{
    let v: u128 = (bytes_done as u128) * 1000 / (elapsed_ms as u128);
    if v > u64::MAX as u128 {
        u64::MAX
    } else {
        v as u64
    }
}

/// Estimated remaining milliseconds, extrapolating the elapsed time of what
/// was copied over what is left, clamped to the largest representable value.
pub fn remaining_ms(bytes_done: u64, bytes_total: u64, elapsed_ms: u64) -> (r: u64)
    requires
        0 < bytes_done <= bytes_total,
    ensures
        (bytes_total - bytes_done) * elapsed_ms / bytes_done as int <= u64::MAX ==> r == (
        bytes_total - bytes_done) * elapsed_ms / bytes_done as int,
        (bytes_total - bytes_done) * elapsed_ms / bytes_done as int > u64::MAX ==> r == u64::MAX,
{
    proof {
        assert((bytes_total - bytes_done) * elapsed_ms <= u128::MAX) by (nonlinear_arith)
            requires
                bytes_total - bytes_done <= u64::MAX && elapsed_ms <= u64::MAX,
        ;
    }
    let left: u128 = (bytes_total - bytes_done) as u128;
    let v: u128 = left * (elapsed_ms as u128) / (bytes_done as u128);
    if v > u64::MAX as u128 {
        u64::MAX
    } else {
        v as u64
    }
}

} // verus!
