//! The weighted sliding-window estimate over a chronological log of instants.
use vstd::prelude::*;

use crate::rate_limiter::RateLimiterResponse;
use crate::time::{minute_start, second_of_minute, Timestamp, NANOS_PER_SEC};

verus! {

/// Length of the trailing window, in seconds.
pub const WINDOW_SECS: i128 = 60;

/// `t` is strictly older than the trailing minute that ends at `now`.
pub open spec fn is_stale(t: Timestamp, now: Timestamp) -> bool {
    t@ < now@ - WINDOW_SECS * NANOS_PER_SEC
}

/// How many entries at the head of `log` are stale; pruning stops at the first
/// entry that is not.
pub open spec fn leading_stale(log: Seq<Timestamp>, now: Timestamp) -> nat
    decreases log.len(),
{
    if log.len() > 0 && is_stale(log[0], now) {
        1 + leading_stale(log.drop_first(), now)
    } else {
        0
    }
}

/// What is left of `log` once its stale head has been removed.
pub open spec fn pruned(log: Seq<Timestamp>, now: Timestamp) -> Seq<Timestamp> {
    log.subrange(leading_stale(log, now) as int, log.len() as int)
}

/// `t` lies strictly after the start of the wall-clock minute that holds `now`.
pub open spec fn in_current_window(t: Timestamp, now: Timestamp) -> bool {
    t@ > minute_start(now)
}

/// How many entries of `log` lie in the current minute of `now`.
pub open spec fn count_current(log: Seq<Timestamp>, now: Timestamp) -> nat
    decreases log.len(),
{
    if log.len() == 0 {
        0
    } else {
        (if in_current_window(log.last(), now) { 1nat } else { 0nat }) + count_current(
            log.drop_last(),
            now,
        )
    }
}

/// Sixty times the estimate `current + previous * (1 - second / 60)`.
pub open spec fn weighted_estimate_60(current: int, previous: int, second: int) -> int {
    current * 60 + previous * (60 - second)
}

/// The estimate of the requests in the trailing minute, for an already pruned
/// log, lies strictly under `quota`.
pub open spec fn within_quota(log: Seq<Timestamp>, now: Timestamp, quota: int) -> bool {
    let current = count_current(log, now) as int;
    let previous = log.len() - current;
    weighted_estimate_60(current, previous, second_of_minute(now)) < quota * 60
}

/// One request at `now` against `log`: the log afterwards, and the decision.
pub open spec fn step(log: Seq<Timestamp>, now: Timestamp, quota: int) -> (Seq<
    Timestamp,
>, RateLimiterResponse) {
    let kept = pruned(log, now);
    if within_quota(kept, now, quota) {
        (kept.push(now), RateLimiterResponse::Success)
    } else {
        (kept, RateLimiterResponse::Drop)
    }
}

/// The entries of `log` are in chronological order.
pub open spec fn is_chronological(log: Seq<Timestamp>) -> bool {
    forall|i: int, j: int| 0 <= i <= j < log.len() ==> log[i]@ <= log[j]@
}

proof fn lemma_leading_stale_shape(log: Seq<Timestamp>, now: Timestamp)
    ensures
        leading_stale(log, now) <= log.len(),
        forall|j: int| 0 <= j < leading_stale(log, now) ==> is_stale(#[trigger] log[j], now),
        leading_stale(log, now) == log.len() || !is_stale(log[leading_stale(log, now) as int], now),
    decreases log.len(),
{
    if log.len() > 0 && is_stale(log[0], now) {
        let rest = log.drop_first();
        lemma_leading_stale_shape(rest, now);
        assert forall|j: int| 0 <= j < leading_stale(log, now) implies is_stale(
            #[trigger] log[j],
            now,
        ) by {
            if j > 0 {
                assert(log[j] == rest[j - 1]);
            }
        }
        if leading_stale(log, now) < log.len() {
            assert(log[leading_stale(log, now) as int] == rest[leading_stale(rest, now) as int]);
        }
    }
}

proof fn lemma_leading_stale_unfold(log: Seq<Timestamp>, i: int, now: Timestamp)
    requires
        0 <= i < log.len(),
        is_stale(log[i], now),
    ensures
        leading_stale(log.subrange(i, log.len() as int), now) == 1 + leading_stale(
            log.subrange(i + 1, log.len() as int),
            now,
        ),
{
    let s = log.subrange(i, log.len() as int);
    assert(s.drop_first() =~= log.subrange(i + 1, log.len() as int));
    assert(s[0] == log[i]);
}

/// How many entries at the head of `log` lie before the trailing minute that
/// ends at `now`. Only the head is examined: the count stops at the first entry
/// inside the window.
pub fn leading_stale_count(log: &Vec<Timestamp>, now: Timestamp) -> (r: usize)
    ensures
        r == leading_stale(log@, now),
        r <= log.len(),
        forall|j: int| 0 <= j < r ==> is_stale(#[trigger] log@[j], now),
        r == log.len() || !is_stale(log@[r as int], now),
{
    let cutoff = now.as_nanos() - WINDOW_SECS * NANOS_PER_SEC;
    let mut i: usize = 0;
    proof {
        assert(log@.subrange(0, log.len() as int) =~= log@);
    }
    while i < log.len()
        invariant
            i <= log.len(),
            cutoff == now@ - WINDOW_SECS * NANOS_PER_SEC,
            leading_stale(log@, now) == i + leading_stale(log@.subrange(i as int, log.len() as int), now),
        decreases log.len() - i,
    {
        if log[i].as_nanos() < cutoff {
            proof {
                lemma_leading_stale_unfold(log@, i as int, now);
            }
            i = i + 1;
        } else {
            proof {
                let s = log@.subrange(i as int, log.len() as int);
                assert(s[0] == log@[i as int]);
                assert(leading_stale(s, now) == 0);
                assert(leading_stale(log@, now) == i);
                lemma_leading_stale_shape(log@, now);
            }
            return i;
        }
    }
    proof {
        assert(log@.subrange(i as int, log.len() as int).len() == 0);
        lemma_leading_stale_shape(log@, now);
    }
    i
}

proof fn lemma_count_current_prefix(log: Seq<Timestamp>, from: int, i: int, now: Timestamp)
    requires
        0 <= from <= i < log.len(),
    ensures
        count_current(log.subrange(from, i + 1), now) == count_current(log.subrange(from, i), now)
            + (if in_current_window(log[i], now) { 1nat } else { 0nat }),
{
    let s = log.subrange(from, i + 1);
    assert(s.drop_last() =~= log.subrange(from, i));
    assert(s.last() == log[i]);
}

/// How many entries of `log` from position `from` on lie strictly after the
/// start of the wall-clock minute that holds `now`.
pub fn count_current_window(log: &Vec<Timestamp>, from: usize, now: Timestamp) -> (r: usize)
    requires
        from <= log.len(),
    ensures
        r == count_current(log@.subrange(from as int, log.len() as int), now),
        r <= log.len() - from,
{
    let start = now.minute_start();
    let mut count: usize = 0;
    let mut i: usize = from;
    proof {
        assert(log@.subrange(from as int, from as int).len() == 0);
    }
    while i < log.len()
        invariant
            from <= i <= log.len(),
            start == minute_start(now),
            count == count_current(log@.subrange(from as int, i as int), now),
            count <= i - from,
        decreases log.len() - i,
    {
        proof {
            lemma_count_current_prefix(log@, from as int, i as int, now);
        }
        if log[i].as_nanos() > start {
            count = count + 1;
        }
        i = i + 1;
    }
    count
}

/// Whether `current + previous * (1 - second / 60)` lies strictly under
/// `quota`, computed exactly in integers.
pub fn weighted_estimate_below(current: usize, previous: usize, second: u32, quota: u32) -> (r:
    bool)
    requires
        second < 60,
    ensures
        r == (weighted_estimate_60(current as int, previous as int, second as int) < quota as int
            * 60),
{
    let c = current as u128;
    let p = previous as u128;
    let w = 60 - second as u128;
    proof {
        assert(c * 60 <= 0xffff_ffff_ffff_ffff * 60) by (nonlinear_arith)
            requires c <= 0xffff_ffff_ffff_ffff;
        assert(p * w <= 0xffff_ffff_ffff_ffff * 60) by (nonlinear_arith)
            requires p <= 0xffff_ffff_ffff_ffff, w <= 60;
    }
    let estimate: u128 = c * 60 + p * w;
    estimate < quota as u128 * 60
}

/// What one request at `now` does to a log.
#[derive(Clone, Copy, Debug, PartialEq, Eq, Structural)]
pub struct Evaluation {
    /// How many entries to remove from the head of the log.
    pub stale: usize,
    /// The decision; on `Success` the request's instant is appended.
    pub response: RateLimiterResponse,
}

/// Decides a request at `now` against `log` under `quota`: the stale head to
/// prune and the response, as `step` describes them.
pub fn evaluate(log: &Vec<Timestamp>, now: Timestamp, quota: u32) -> (r: Evaluation)
    ensures
        r.stale == leading_stale(log@, now),
        r.response == step(log@, now, quota as int).1,
{
    let stale = leading_stale_count(log, now);
    let current = count_current_window(log, stale, now);
    let kept = log.len() - stale;
    proof {
        let p = pruned(log@, now);
        assert(p =~= log@.subrange(stale as int, log.len() as int));
        lemma_count_current_le(p, now);
    }
    let below = weighted_estimate_below(current, kept - current, now.second_of_minute(), quota);
    let response = if below {
        RateLimiterResponse::Success
    } else {
        RateLimiterResponse::Drop
    };
    Evaluation { stale, response }
}

proof fn lemma_count_current_le(log: Seq<Timestamp>, now: Timestamp)
    ensures
        count_current(log, now) <= log.len(),
    decreases log.len(),
{
    if log.len() > 0 {
        lemma_count_current_le(log.drop_last(), now);
    }
}

/// The decisions and the final log of requests made at `times`, in order,
/// against `log`.
pub open spec fn replay(log: Seq<Timestamp>, times: Seq<Timestamp>, quota: int) -> (Seq<
    Timestamp,
>, Seq<RateLimiterResponse>)
    decreases times.len(),
{
    if times.len() == 0 {
        (log, Seq::empty())
    } else {
        let (before, responses) = replay(log, times.drop_last(), quota);
        let (after, response) = step(before, times.last(), quota);
        (after, responses.push(response))
    }
}

/// `t` lies in an ordinary second (not a leap second, whose nanoseconds run
/// past one second).
pub open spec fn is_regular(t: Timestamp) -> bool {
    t.nanos < NANOS_PER_SEC
}

/// All of `times` are regular instants of one wall-clock minute, strictly
/// after its first instant.
pub open spec fn in_one_minute(times: Seq<Timestamp>) -> bool {
    forall|i: int|
        0 <= i < times.len() ==> minute_start(#[trigger] times[i]) == minute_start(times[0])
            && times[i]@ > minute_start(times[i]) && is_regular(times[i])
}

proof fn lemma_minute_within_window(now: Timestamp)
    requires
        is_regular(now),
    ensures
        now@ - WINDOW_SECS * NANOS_PER_SEC < minute_start(now),
{
}

proof fn lemma_no_stale_head(log: Seq<Timestamp>, now: Timestamp)
    requires
        log.len() == 0 || !is_stale(log[0], now),
    ensures
        leading_stale(log, now) == 0,
        pruned(log, now) == log,
{
    assert(log.subrange(0, log.len() as int) =~= log);
}

proof fn lemma_all_stale(log: Seq<Timestamp>, now: Timestamp)
    requires
        forall|i: int| 0 <= i < log.len() ==> is_stale(#[trigger] log[i], now),
    ensures
        leading_stale(log, now) == log.len(),
        pruned(log, now) == Seq::<Timestamp>::empty(),
    decreases log.len(),
{
    if log.len() > 0 {
        let rest = log.drop_first();
        assert forall|i: int| 0 <= i < rest.len() implies is_stale(#[trigger] rest[i], now) by {
            assert(rest[i] == log[i + 1]);
        }
        lemma_all_stale(rest, now);
    }
    assert(pruned(log, now) =~= Seq::<Timestamp>::empty());
}

proof fn lemma_all_current(log: Seq<Timestamp>, now: Timestamp)
    requires
        forall|i: int| 0 <= i < log.len() ==> in_current_window(#[trigger] log[i], now),
    ensures
        count_current(log, now) == log.len(),
    decreases log.len(),
{
    if log.len() > 0 {
        let rest = log.drop_last();
        assert forall|i: int| 0 <= i < rest.len() implies in_current_window(#[trigger] rest[i], now) by {
            assert(rest[i] == log[i]);
        }
        lemma_all_current(rest, now);
    }
}

/// The first `n` requests of a run within one minute, `n` up to the quota,
/// are all admitted and all recorded.
proof fn lemma_fresh_prefix(times: Seq<Timestamp>, quota: nat, n: nat)
    requires
        n <= quota,
        n <= times.len(),
        is_chronological(times),
        in_one_minute(times),
    ensures
        replay(Seq::empty(), times.take(n as int), quota as int) == (
            times.take(n as int),
            Seq::new(n, |i: int| RateLimiterResponse::Success),
        ),
    decreases n,
{
    if n > 0 {
        let prefix = times.take(n as int);
        let before = times.take(n - 1);
        assert(prefix.drop_last() =~= before);
        lemma_fresh_prefix(times, quota, (n - 1) as nat);
        let now = times[n - 1];
        assert(prefix.last() == now);
        lemma_minute_within_window(now);
        assert forall|i: int| 0 <= i < before.len() implies in_current_window(
            #[trigger] before[i],
            now,
        ) by {
            assert(before[i] == times[i]);
            assert(minute_start(times[i]) == minute_start(times[0]));
            assert(minute_start(times[n - 1]) == minute_start(times[0]));
        }
        if before.len() > 0 {
            assert(in_current_window(before[0], now));
        }
        lemma_no_stale_head(before, now);
        lemma_all_current(before, now);
        assert(weighted_estimate_60(before.len() as int, 0, second_of_minute(now)) == before.len()
            * 60);
        assert(before.push(now) =~= prefix);
        assert(step(before, now, quota as int) == (prefix, RateLimiterResponse::Success));
        assert(replay(Seq::empty(), prefix, quota as int).0 == prefix);
        assert(Seq::new((n - 1) as nat, |i: int| RateLimiterResponse::Success).push(
            RateLimiterResponse::Success,
        ) =~= Seq::new(n, |i: int| RateLimiterResponse::Success));
    } else {
        assert(times.take(0) =~= Seq::<Timestamp>::empty());
        assert(Seq::new(0, |i: int| RateLimiterResponse::Success) =~= Seq::<
            RateLimiterResponse,
        >::empty());
    }
}

/// A client with an empty log that makes quota + 1 requests within one
/// wall-clock minute, in chronological order, has the first quota of them
/// admitted and the last one dropped.
pub proof fn lemma_quota_within_one_minute(times: Seq<Timestamp>, quota: nat)
    requires
        times.len() == quota + 1,
        is_chronological(times),
        in_one_minute(times),
    ensures
        replay(Seq::empty(), times, quota as int).1 == Seq::new(
            quota,
            |i: int| RateLimiterResponse::Success,
        ).push(RateLimiterResponse::Drop),
{
    lemma_fresh_prefix(times, quota, quota);
    let before = times.take(quota as int);
    assert(times.drop_last() =~= before);
    let now = times.last();
    lemma_minute_within_window(now);
    assert forall|i: int| 0 <= i < before.len() implies in_current_window(#[trigger] before[i], now) by {
        assert(before[i] == times[i]);
        assert(minute_start(times[i]) == minute_start(times[0]));
        assert(minute_start(times[quota as int]) == minute_start(times[0]));
    }
    if before.len() > 0 {
        assert(in_current_window(before[0], now));
    }
    lemma_no_stale_head(before, now);
    lemma_all_current(before, now);
    assert(weighted_estimate_60(before.len() as int, 0, second_of_minute(now)) == before.len()
        * 60);
}

/// Once every entry of a log is more than a minute old, the next request is
/// admitted whatever the (positive) quota, and the log then holds that request
/// alone.
pub proof fn lemma_quiet_minute_readmits(log: Seq<Timestamp>, now: Timestamp, quota: int)
    requires
        quota > 0,
        forall|i: int| 0 <= i < log.len() ==> (#[trigger] log[i])@ + WINDOW_SECS * NANOS_PER_SEC
            < now@,
    ensures
        step(log, now, quota) == (seq![now], RateLimiterResponse::Success),
{
    lemma_all_stale(log, now);
    assert(count_current(Seq::<Timestamp>::empty(), now) == 0);
    assert(Seq::<Timestamp>::empty().push(now) =~= seq![now]);
}

/// Pruning removes a head of the log and keeps the rest as it was: what stays
/// is a suffix, every removed entry is more than a minute older than `now`,
/// and pruning stops at the first entry that is not. On a chronological log no
/// kept entry is older than the window.
pub proof fn lemma_pruning_keeps_window(log: Seq<Timestamp>, now: Timestamp)
    ensures
        leading_stale(log, now) <= log.len(),
        pruned(log, now) == log.subrange(leading_stale(log, now) as int, log.len() as int),
        forall|j: int| 0 <= j < leading_stale(log, now) ==> is_stale(#[trigger] log[j], now),
        is_chronological(log) ==> forall|j: int|
            0 <= j < pruned(log, now).len() ==> !is_stale(#[trigger] pruned(log, now)[j], now),
{
    lemma_leading_stale_shape(log, now);
    let k = leading_stale(log, now) as int;
    if is_chronological(log) {
        assert forall|j: int| 0 <= j < pruned(log, now).len() implies !is_stale(
            #[trigger] pruned(log, now)[j],
            now,
        ) by {
            assert(pruned(log, now)[j] == log[k + j]);
            assert(log[k]@ <= log[k + j]@);
        }
    }
}

/// A request at `now`, no earlier than every entry of a chronological log,
/// leaves the log chronological.
pub proof fn lemma_step_keeps_chronological(log: Seq<Timestamp>, now: Timestamp, quota: int)
    requires
        is_chronological(log),
        forall|i: int| 0 <= i < log.len() ==> (#[trigger] log[i])@ <= now@,
    ensures
        is_chronological(step(log, now, quota).0),
{
    lemma_leading_stale_shape(log, now);
    let k = leading_stale(log, now) as int;
    let kept = pruned(log, now);
    assert forall|i: int, j: int| 0 <= i <= j < kept.len() implies kept[i]@ <= kept[j]@ by {
        assert(kept[i] == log[k + i]);
        assert(kept[j] == log[k + j]);
    }
    let grown = kept.push(now);
    assert forall|i: int, j: int| 0 <= i <= j < grown.len() implies grown[i]@ <= grown[j]@ by {
        if j == kept.len() {
            if i < kept.len() {
                assert(grown[i] == log[k + i]);
            }
        } else {
            assert(grown[i] == kept[i]);
            assert(grown[j] == kept[j]);
        }
    }
}

} // verus!
