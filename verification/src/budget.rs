//! Time allowances: how long each outbound request may take, and what is left of a whole
//! operation. Durations are nanoseconds.
use vstd::prelude::*;

verus! {

/// One read of local registry data.
pub const LOCAL: u128 = 3_000_000_000;

/// Asking whether the provider is configured.
pub const PROBE: u128 = 1_500_000_000;

/// Asking the provider to apply its defaults.
pub const INIT: u128 = 3_000_000_000;

/// Everything that is done at startup.
pub const STARTUP: u128 = 6_000_000_000;

/// One proof-backed RPC hop.
pub const RPC: u128 = 12_000_000_000;

/// A whole asset read.
pub const READ: u128 = 14_000_000_000;

/// Building one transfer.
pub const TRANSFER: u128 = 4_500_000_000;

/// The least allowance that is worth a request.
pub const MIN: u128 = 50_000_000;

/// What is kept of a transport allowance for the reply.
pub const MARGIN: u128 = 300_000_000;

/// The nanoseconds in a millisecond.
pub const MILLI: u128 = 1_000_000;

/// A point in time: opaque here.
#[verifier::external_type_specification]
#[verifier::external_body]
pub struct ExInstant(std::time::Instant);

/// `Instant::now`. Nothing is known of the time.
#[verifier::external_body]
fn now() -> std::time::Instant {
    std::time::Instant::now()
}

/// `Instant::elapsed`, in nanoseconds. Nothing is known of the time.
#[verifier::external_body]
fn elapsed(start: &std::time::Instant) -> u128 {
    start.elapsed().as_nanos()
}

/// The smaller of two durations.
pub open spec fn least(a: u128, b: u128) -> u128 {
    if a < b {
        a
    } else {
        b
    }
}

/// What may still be spent on one request, `elapsed` into an operation that has `total`: what is
/// left, at most `cap`, and nothing at all where that is too little.
pub open spec fn granted(total: u128, elapsed: u128, cap: u128) -> Option<u128> {
    if elapsed > total {
        None
    } else {
        let grant = least((total - elapsed) as u128, cap);
        if grant >= MIN {
            Some(grant)
        } else {
            None
        }
    }
}

/// The deadline in milliseconds that goes with a transport allowance, where there is room for
/// one.
pub open spec fn deadline_of(transport: u128) -> Option<i64> {
    if transport >= MARGIN && transport - MARGIN >= MIN {
        Some(((transport - MARGIN) as u128 / MILLI) as i64)
    } else {
        None
    }
}

/// The allowance of a transfer whose caller names a deadline in milliseconds: that deadline, at
/// most [`TRANSFER`], and [`TRANSFER`] where it is missing or negative.
pub open spec fn allowance_of(deadline_ms: Option<i64>) -> u128 {
    match deadline_ms {
        Some(ms) => if ms >= 0 {
            least((ms * MILLI) as u128, TRANSFER)
        } else {
            TRANSFER
        },
        None => TRANSFER,
    }
}

/// What may still be spent on one request, `elapsed` into an operation that has `total`.
pub fn grant(total: u128, elapsed: u128, cap: u128) -> (r: Option<u128>)
    ensures
        r == granted(total, elapsed, cap),
{
    if elapsed > total {
        return None;
    }
    let left: u128 = total - elapsed;
    let grant: u128 = if left < cap {
        left
    } else {
        cap
    };
    if grant >= MIN {
        Some(grant)
    } else {
        None
    }
}

/// The time that one operation has.
pub struct Budget {
    start: std::time::Instant,
    total: u128,
}

impl Budget {
    /// The whole allowance.
    pub closed spec fn total(&self) -> u128 {
        self.total
    }

    /// An allowance that starts now.
    pub fn new(total: u128) -> (r: Budget)
        ensures
            r.total() == total,
    {
        Budget { start: now(), total }
    }

    /// What may still be spent on one request, at most `cap`. How much time has passed, nothing
    /// says; the grant is what goes with it.
    pub fn take(&self, cap: u128) -> (r: Option<u128>)
        ensures
            exists|elapsed: u128| r == #[trigger] granted(self.total(), elapsed, cap),
            r matches Some(g) ==> MIN <= g <= cap && g <= self.total(),
            cap < MIN || self.total() < MIN ==> r is None,
    {
        let spent = elapsed(&self.start);
        let r = grant(self.total, spent, cap);
        assert(r == granted(self.total(), spent, cap));
        r
    }
}

/// The deadline in milliseconds that goes with a transport allowance: it leaves room for the
/// reply.
pub fn deadline(transport: u128) -> (r: Option<i64>)
    ensures
        r == deadline_of(transport),
{
    if transport >= MARGIN && transport - MARGIN >= MIN {
        Some(((transport - MARGIN) / MILLI) as i64)
    } else {
        None
    }
}

/// The allowance of a transfer whose caller names a deadline in milliseconds.
pub fn allowance(deadline_ms: Option<i64>) -> (r: u128)
    ensures
        r == allowance_of(deadline_ms),
{
    match deadline_ms {
        Some(ms) => if ms >= 0 {
            let asked: u128 = ms as u128 * MILLI;
            if asked < TRANSFER {
                asked
            } else {
                TRANSFER
            }
        } else {
            TRANSFER
        },
        None => TRANSFER,
    }
}

/// A grant is never more than the whole allowance, nor than what was asked for, and what has been
/// spent is never granted again.
pub proof fn law_grants_stay_within_the_total(total: u128, elapsed: u128, cap: u128)
    requires
        granted(total, elapsed, cap) is Some,
    ensures
        granted(total, elapsed, cap)->0 + elapsed <= total,
        MIN <= granted(total, elapsed, cap)->0 <= cap,
{
}

/// The later in an operation a request comes, the less is granted.
pub proof fn law_grants_shrink(total: u128, sooner: u128, later: u128, cap: u128)
    requires
        sooner <= later,
        granted(total, later, cap) is Some,
    ensures
        granted(total, sooner, cap) is Some,
        granted(total, later, cap)->0 <= granted(total, sooner, cap)->0,
{
}

/// A deadline leaves at least the margin of its transport allowance for the reply.
pub proof fn law_deadline_leaves_room_for_the_reply(transport: u128)
    requires
        deadline_of(transport) is Some,
        transport <= i64::MAX * MILLI,
    ensures
        0 <= deadline_of(transport)->0,
        deadline_of(transport)->0 * MILLI + MARGIN <= transport,
{
    let left = (transport - MARGIN) as u128;
    assert(left / MILLI <= i64::MAX) by (nonlinear_arith)
        requires
            left <= i64::MAX * MILLI,
            MILLI == 1_000_000u128,
    ;
    assert((left / MILLI) * MILLI <= left) by (nonlinear_arith)
        requires
            MILLI == 1_000_000u128,
    ;
}

/// Whatever deadline a caller names, a transfer has no more than its own allowance.
pub proof fn law_allowance_is_bounded(deadline_ms: Option<i64>)
    ensures
        allowance_of(deadline_ms) <= TRANSFER,
{
}

/// A request gets all that can be given: what is asked for, or all that is left of the whole; and
/// nothing only where one of these is less than fifty milliseconds.
pub proof fn law_a_grant_is_all_that_can_be_given(total: u128, elapsed: u128, cap: u128)
    ensures
        granted(total, elapsed, cap) matches Some(g) ==> g == cap || g + elapsed == total,
        granted(total, elapsed, cap) is None <==> cap < 50_000_000 || total < elapsed + 50_000_000,
{
}

/// A deadline is the latest whole millisecond that leaves the margin, and is missing only where
/// that would be less than fifty milliseconds.
pub proof fn law_a_deadline_is_the_latest_that_leaves_room(transport: u128)
    requires
        transport <= i64::MAX * 1_000_000,
    ensures
        deadline_of(transport) is None <==> transport < 350_000_000,
        deadline_of(transport) matches Some(ms) ==> ms * 1_000_000 + 300_000_000 <= transport
            && transport < (ms + 1) * 1_000_000 + 300_000_000,
{
    if transport >= 350_000_000 {
        let left = (transport - MARGIN) as u128;
        assert(left / MILLI <= i64::MAX) by (nonlinear_arith)
            requires
                left <= i64::MAX * MILLI,
                MILLI == 1_000_000u128,
        ;
        assert((left / MILLI) * MILLI <= left && left < (left / MILLI + 1) * MILLI)
            by (nonlinear_arith)
            requires
                MILLI == 1_000_000u128,
        ;
    }
}

/// The allowance of a transfer is the caller's deadline, where that is given, not negative and no
/// more than four and a half seconds, and those otherwise.
pub proof fn law_an_allowance_is_the_callers_deadline(ms: i64)
    ensures
        0 <= ms <= 4_500 ==> allowance_of(Some(ms)) == ms * 1_000_000,
        ms < 0 || ms > 4_500 ==> allowance_of(Some(ms)) == 4_500_000_000u128,
        allowance_of(None) == 4_500_000_000u128,
{
}

} // verus!
