use vstd::math::min;
use vstd::prelude::*;

verus! {

/// Nanoseconds in a second.
pub const NANOS_PER_SEC: u64 = 1000000000;

/// Nanoseconds of throughput that a full bucket holds: 100 ms.
pub const BURST_NANOS: u64 = 100000000;

/// Most bytes a bucket at `rate` bytes per second holds: 100 ms of throughput.
pub open spec fn cap(rate: u64) -> int {
    rate as int / 10
}

/// Bytes that `rate` bytes per second refills over `elapsed` nanoseconds, rounded down.
pub open spec fn refill_amount(rate: u64, elapsed: int) -> int {
    (rate as int * elapsed) / NANOS_PER_SEC as int
}

/// Token bucket: `volume` bytes may pass before callers are held back; it refills at
/// `speed_limit` bytes per second up to [`cap`]. Times are in nanoseconds.
pub struct Bucket {
    pub updated_at: u64,
    pub volume: i64,
    pub speed_limit: u64,
}

impl Bucket {
    pub open spec fn wf(&self) -> bool {
        self.speed_limit > 0
    }

    /// An empty bucket at `speed_limit` bytes per second, last filled at `now`.
    pub fn new(now: u64, speed_limit: u64) -> (r: Bucket)
        requires
            speed_limit > 0,
        ensures
            r.wf(),
            r.updated_at == now,
            r.volume == 0,
            r.speed_limit == speed_limit,
    {
        Bucket { updated_at: now, volume: 0, speed_limit }
    }

    /// Adds what the rate gives for the time since the last refill, up to the cap.
    pub fn refill(&mut self, now: u64)
        requires
            old(self).wf(),
            old(self).updated_at <= now,
        ensures
            final(self).wf(),
            final(self).updated_at == now,
            final(self).speed_limit == old(self).speed_limit,
            final(self).volume == min(
                cap(old(self).speed_limit),
                old(self).volume + refill_amount(old(self).speed_limit, now - old(self).updated_at),
            ),
    {
        let elapsed: u64 = now - self.updated_at;
        assert(self.speed_limit as int * elapsed as int <= u128::MAX) by (nonlinear_arith)
            requires
                self.speed_limit <= u64::MAX,
                elapsed <= u64::MAX,
        ;
        let refilled: u128 = (self.speed_limit as u128 * elapsed as u128) / NANOS_PER_SEC as u128;
        assert(refilled <= u128::MAX / 1000000000);
        let c: u64 = self.speed_limit / 10;
        let sum: i128 = self.volume as i128 + refilled as i128;
        assert(self.speed_limit as u128 * elapsed as u128 == self.speed_limit as int * elapsed as int) by (nonlinear_arith)
            requires
                self.speed_limit <= u64::MAX,
                elapsed <= u64::MAX,
        ;
        if sum < c as i128 {
            self.volume = sum as i64;
        } else {
            self.volume = c as i64;
        }
        self.updated_at = now;
    }

    /// Takes `bytes` out of the bucket and returns how many nanoseconds the caller waits
    /// before the next transfer: none while the bucket is not in debt, else 100 ms plus the
    /// time the rate takes to pay the debt back.
    pub fn consume(&mut self, bytes: usize) -> (delay: u128)
        requires
            old(self).wf(),
            old(self).volume - bytes >= i64::MIN,
        ensures
            final(self).wf(),
            final(self).updated_at == old(self).updated_at,
            final(self).speed_limit == old(self).speed_limit,
            final(self).volume == old(self).volume - bytes,
            final(self).volume >= 0 ==> delay == 0,
            final(self).volume < 0 ==> delay == BURST_NANOS + (-final(self).volume)
                * NANOS_PER_SEC / final(self).speed_limit as int,
    {
        let v: i128 = self.volume as i128 - bytes as i128;
        self.volume = v as i64;
        if self.volume >= 0 {
            0
        } else {
            let debt: u128 = (-(self.volume as i128)) as u128;
            assert(debt * NANOS_PER_SEC <= u128::MAX) by (nonlinear_arith)
                requires
                    debt <= 9223372036854775808u128,
            ;
            BURST_NANOS as u128 + debt * NANOS_PER_SEC as u128 / self.speed_limit as u128
        }
    }

    /// Changes the rate; the volume and the clock stay.
    pub fn set_speed_limit(&mut self, speed_limit: u64)
        requires
            old(self).wf(),
            speed_limit > 0,
        ensures
            final(self).wf(),
            final(self).speed_limit == speed_limit,
            final(self).updated_at == old(self).updated_at,
            final(self).volume == old(self).volume,
    {
        self.speed_limit = speed_limit;
    }
}

/// A token bucket that can be switched off: while `unlimited`, nothing is held back.
pub struct RateLimiter {
    pub bucket: Bucket,
    pub unlimited: bool,
}

impl RateLimiter {
    /// A limiter at `speed_limit` bytes per second, or without limit for `None`.
    pub fn new(now: u64, speed_limit: Option<u64>) -> (r: RateLimiter)
        requires
            speed_limit matches Some(n) ==> n > 0,
        ensures
            r.bucket.wf(),
            r.unlimited == (speed_limit is None),
            speed_limit matches Some(n) ==> r.bucket.speed_limit == n,
            r.bucket.volume == 0,
            r.bucket.updated_at == now,
    {
        match speed_limit {
            Some(n) => RateLimiter { bucket: Bucket::new(now, n), unlimited: false },
            None => RateLimiter { bucket: Bucket::new(now, 1), unlimited: true },
        }
    }

    /// Switches to `speed_limit` bytes per second, or off for `None`; the bucket's volume
    /// and clock are kept.
    pub fn set_speed_limit(&mut self, speed_limit: Option<u64>)
        requires
            old(self).bucket.wf(),
            speed_limit matches Some(n) ==> n > 0,
        ensures
            final(self).bucket.wf(),
            final(self).unlimited == (speed_limit is None),
            final(self).bucket.updated_at == old(self).bucket.updated_at,
            speed_limit is None ==> final(self).bucket == old(self).bucket,
            speed_limit matches Some(n) ==> final(self).bucket.speed_limit == n
                && final(self).bucket.volume == old(self).bucket.volume,
    {
        match speed_limit {
            Some(n) => {
                self.unlimited = false;
                self.bucket.set_speed_limit(n);
            },
            None => {
                self.unlimited = true;
            },
        }
    }

    /// Accounts for `bytes` that were just moved at time `now` and returns the nanoseconds
    /// to wait before the next transfer.
    pub fn consume(&mut self, now: u64, bytes: usize) -> (delay: u128)
        requires
            old(self).bucket.wf(),
            old(self).bucket.updated_at <= now,
            old(self).bucket.volume >= i64::MIN / 2,
            bytes <= i64::MAX / 2,
        ensures
            final(self).bucket.wf(),
            final(self).unlimited == old(self).unlimited,
            old(self).unlimited ==> delay == 0 && final(self).bucket == old(self).bucket,
            !old(self).unlimited ==> {
                let v = min(
                    cap(old(self).bucket.speed_limit),
                    old(self).bucket.volume + refill_amount(
                        old(self).bucket.speed_limit,
                        now - old(self).bucket.updated_at,
                    ),
                ) - bytes;
                &&& final(self).bucket.volume == v
                &&& final(self).bucket.updated_at == now
                &&& v >= 0 ==> delay == 0
                &&& v < 0 ==> delay == BURST_NANOS + (-v) * NANOS_PER_SEC
                    / old(self).bucket.speed_limit as int
            },
    {
        if self.unlimited {
            return 0;
        }
        self.bucket.refill(now);
        assert(self.bucket.volume >= i64::MIN / 2);
        self.bucket.consume(bytes)
    }
}

} // verus!

verus! {

/// Volume of a bucket at `rate` that held `v0` bytes at time `t0` after each event
/// `(time, bytes)` in turn refills it and takes the bytes out, as [`RateLimiter::consume`]
/// does.
pub open spec fn run_volume(v0: int, t0: int, rate: u64, events: Seq<(int, int)>) -> int
    decreases events.len(),
{
    if events.len() == 0 {
        v0
    } else {
        let prev = run_volume(v0, t0, rate, events.drop_last());
        let t_prev = if events.len() > 1 { events[events.len() - 2].0 } else { t0 };
        let e = events.last();
        min(cap(rate), prev + refill_amount(rate, e.0 - t_prev)) - e.1
    }
}

/// Bytes taken by the events.
pub open spec fn run_bytes(events: Seq<(int, int)>) -> int
    decreases events.len(),
{
    if events.len() == 0 {
        0
    } else {
        run_bytes(events.drop_last()) + events.last().1
    }
}

/// Event times do not go back and start no earlier than `t0`.
pub open spec fn ordered_from(t0: int, events: Seq<(int, int)>) -> bool {
    &&& forall|i: int| 0 <= i < events.len() ==> t0 <= #[trigger] events[i].0
    &&& forall|i: int, j: int| 0 <= i <= j < events.len() ==> events[i].0 <= events[j].0
}

proof fn lemma_refill_split(rate: u64, a: int, b: int)
    requires
        a >= 0,
        b >= 0,
    ensures
        refill_amount(rate, a) + refill_amount(rate, b) <= refill_amount(rate, a + b),
{
    let n = NANOS_PER_SEC as int;
    let x = rate as int * a;
    let y = rate as int * b;
    assert(x >= 0 && y >= 0) by (nonlinear_arith)
        requires
            a >= 0,
            b >= 0,
            rate >= 0,
            x == rate as int * a,
            y == rate as int * b,
    ;
    assert(rate as int * (a + b) == x + y) by (nonlinear_arith)
        requires
            x == rate as int * a,
            y == rate as int * b,
    ;
    vstd::arithmetic::div_mod::lemma_fundamental_div_mod(x, n);
    vstd::arithmetic::div_mod::lemma_fundamental_div_mod(y, n);
    vstd::arithmetic::div_mod::lemma_fundamental_div_mod(x + y, n);
    let qx = x / n;
    let qy = y / n;
    let q = (x + y) / n;
    assert(x % n >= 0 && y % n >= 0 && (x + y) % n < n);
    assert(n * (qx + qy) <= x + y);
    assert(n * (qx + qy) < n * (q + 1));
    assert(qx + qy <= q) by (nonlinear_arith)
        requires
            n * (qx + qy) < n * (q + 1),
            n > 0,
    ;
}

/// Conservation of tokens: over any run of transfers, the bytes let through plus what the
/// bucket still holds never exceed what it held at the start plus what the rate refilled
/// over the run's span. With the start volume at most the cap (100 ms of throughput), the
/// bytes let through over a window are at most `rate * window + cap(rate)` less the final
/// volume.
pub proof fn law_rate_limit_budget(v0: int, t0: int, rate: u64, events: Seq<(int, int)>)
    requires
        ordered_from(t0, events),
    ensures
        run_bytes(events) + run_volume(v0, t0, rate, events) <= v0 + refill_amount(
            rate,
            (if events.len() > 0 { events.last().0 } else { t0 }) - t0,
        ),
    decreases events.len(),
{
    if events.len() == 0 {
        assert(refill_amount(rate, 0) == 0);
    } else {
        let rest = events.drop_last();
        assert(ordered_from(t0, rest)) by {
            assert forall|i: int| 0 <= i < rest.len() implies t0 <= #[trigger] rest[i].0 by {
                assert(rest[i] == events[i]);
            }
            assert forall|i: int, j: int| 0 <= i <= j < rest.len() implies rest[i].0 <= rest[j].0 by {
                assert(rest[i] == events[i]);
                assert(rest[j] == events[j]);
            }
        }
        law_rate_limit_budget(v0, t0, rate, rest);
        let t_prev = if events.len() > 1 { events[events.len() - 2].0 } else { t0 };
        let e = events.last();
        assert(e == events[events.len() - 1]);
        if events.len() > 1 {
            assert(rest.last() == events[events.len() - 2]);
            assert(t0 <= events[events.len() - 2].0);
        }
        assert(t_prev <= e.0);
        assert(t0 <= t_prev);
        lemma_refill_split(rate, t_prev - t0, e.0 - t_prev);
    }
}

} // verus!
