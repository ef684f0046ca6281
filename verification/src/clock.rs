//! The lifecycle clock: for each advancing tick of the trade clock it lays
//! out, in a fixed order, which strategy callbacks to dispatch, firing the
//! begin/end pairs only at real period boundaries.
use crate::models::StrategyEvent;
use vstd::prelude::*;

verus! {

/// One strategy-host callback. `Init` fires exactly once before any tick,
/// `Stop` exactly once after the last; the rest belong to ticks.
#[derive(Clone, Copy, Debug, PartialEq, Eq, Structural)]
pub enum Callback {
    Init,
    DayBegin,
    HourBegin,
    MinuteBegin,
    Tick,
    MinuteEnd,
    HourEnd,
    DayEnd,
    Stop,
}

pub open spec fn minute_of(t: i64) -> int {
    t / 60_000
}

pub open spec fn hour_of(t: i64) -> int {
    t / 3_600_000
}

pub open spec fn day_of(t: i64) -> int {
    t / 86_400_000
}

/// The callbacks one tick at `now` dispatches, in dispatch order: the
/// begins of every period `now` newly enters (day, then hour, then minute),
/// the tick itself, then the ends of every period the next tick leaves
/// behind (minute, then hour, then day). A callback the host does not
/// supply is left out. `prev` and `next` are the neighbouring tick times.
pub open spec fn spec_tick_plan(prev: i64, now: i64, next: i64, host: StrategyEvent) -> Seq<
    Callback,
> {
    (if host.on_day_begin && day_of(now) != day_of(prev) {
        seq![Callback::DayBegin]
    } else {
        Seq::empty()
    }) + (if host.on_hour_begin && hour_of(now) != hour_of(prev) {
        seq![Callback::HourBegin]
    } else {
        Seq::empty()
    }) + (if host.on_minute_begin && minute_of(now) != minute_of(prev) {
        seq![Callback::MinuteBegin]
    } else {
        Seq::empty()
    }) + (if host.on_tick {
        seq![Callback::Tick]
    } else {
        Seq::empty()
    }) + (if host.on_minute_end && minute_of(next) != minute_of(now) {
        seq![Callback::MinuteEnd]
    } else {
        Seq::empty()
    }) + (if host.on_hour_end && hour_of(next) != hour_of(now) {
        seq![Callback::HourEnd]
    } else {
        Seq::empty()
    }) + (if host.on_day_end && day_of(next) != day_of(now) {
        seq![Callback::DayEnd]
    } else {
        Seq::empty()
    })
}

/// A callback a tick may dispatch: anything but the run-level `Init` and
/// `Stop`.
pub open spec fn tick_kind(c: Callback) -> bool {
    !(c is Init) && !(c is Stop)
}

proof fn lemma_concat_tick_kind(a: Seq<Callback>, b: Seq<Callback>)
    requires
        forall|i: int| 0 <= i < a.len() ==> tick_kind(#[trigger] a[i]),
        forall|i: int| 0 <= i < b.len() ==> tick_kind(#[trigger] b[i]),
    ensures
        forall|i: int| 0 <= i < (a + b).len() ==> tick_kind(#[trigger] (a + b)[i]),
{
}

/// No tick ever dispatches `Init` or `Stop`: those frame the whole run.
pub proof fn lemma_tick_plan_no_lifecycle_ends(prev: i64, now: i64, next: i64, host: StrategyEvent)
    ensures
        forall|i: int|
            0 <= i < spec_tick_plan(prev, now, next, host).len() ==> tick_kind(
                #[trigger] spec_tick_plan(prev, now, next, host)[i],
            ),
{
    let s1 = if host.on_day_begin && day_of(now) != day_of(prev) {
        seq![Callback::DayBegin]
    } else {
        Seq::<Callback>::empty()
    };
    let s2 = if host.on_hour_begin && hour_of(now) != hour_of(prev) {
        seq![Callback::HourBegin]
    } else {
        Seq::<Callback>::empty()
    };
    let s3 = if host.on_minute_begin && minute_of(now) != minute_of(prev) {
        seq![Callback::MinuteBegin]
    } else {
        Seq::<Callback>::empty()
    };
    let s4 = if host.on_tick {
        seq![Callback::Tick]
    } else {
        Seq::<Callback>::empty()
    };
    let s5 = if host.on_minute_end && minute_of(next) != minute_of(now) {
        seq![Callback::MinuteEnd]
    } else {
        Seq::<Callback>::empty()
    };
    let s6 = if host.on_hour_end && hour_of(next) != hour_of(now) {
        seq![Callback::HourEnd]
    } else {
        Seq::<Callback>::empty()
    };
    let s7 = if host.on_day_end && day_of(next) != day_of(now) {
        seq![Callback::DayEnd]
    } else {
        Seq::<Callback>::empty()
    };
    lemma_concat_tick_kind(s1, s2);
    lemma_concat_tick_kind(s1 + s2, s3);
    lemma_concat_tick_kind(s1 + s2 + s3, s4);
    lemma_concat_tick_kind(s1 + s2 + s3 + s4, s5);
    lemma_concat_tick_kind(s1 + s2 + s3 + s4 + s5, s6);
    lemma_concat_tick_kind(s1 + s2 + s3 + s4 + s5 + s6, s7);
    assert(spec_tick_plan(prev, now, next, host) == s1 + s2 + s3 + s4 + s5 + s6 + s7);
}

/// Euclidean index of the period of width `width` that `t` lies in.
fn period_index(t: i64, width: i64) -> (r: i64)
    requires
        1 < width,
    ensures
        r as int == t as int / width as int,
{
    proof {
        let ti = t as int;
        let w = width as int;
        if ti >= 0 {
            vstd::arithmetic::div_mod::lemma_div_pos_is_pos(ti, w);
            vstd::arithmetic::div_mod::lemma_div_nonincreasing(ti, w);
        } else {
            assert(ti * w <= ti) by {
                vstd::arithmetic::mul::lemma_mul_nonnegative(-ti, w - 1);
                vstd::arithmetic::mul::lemma_mul_unary_negation(ti, w - 1);
                vstd::arithmetic::mul::lemma_mul_is_distributive_sub(ti, w, 1);
                vstd::arithmetic::mul::lemma_mul_basics(ti);
            }
            assert((ti * w) / w <= ti / w) by {
                vstd::arithmetic::div_mod::lemma_div_is_ordered(ti * w, ti, w);
            }
            assert((ti * w) / w == ti) by {
                vstd::arithmetic::div_mod::lemma_div_multiples_vanish(ti, w);
                vstd::arithmetic::mul::lemma_mul_is_commutative(ti, w);
            }
            assert(ti / w <= 0) by {
                vstd::arithmetic::div_mod::lemma_div_is_ordered(ti, 0, w);
                vstd::arithmetic::div_mod::lemma_div_of0(w);
            }
        }
    }
    match t.checked_div_euclid(width) {
        Some(r) => r,
        None => 0,
    }
}

/// Builds one tick's dispatch list.
#[verifier::rlimit(100)]
pub fn tick_plan(prev: i64, now: i64, next: i64, host: &StrategyEvent) -> (r: Vec<Callback>)
    ensures
        r@ == spec_tick_plan(prev, now, next, *host),
{
    let mut r: Vec<Callback> = Vec::new();
    if host.on_day_begin && period_index(now, 86_400_000) != period_index(prev, 86_400_000) {
        r.push(Callback::DayBegin);
    }
    if host.on_hour_begin && period_index(now, 3_600_000) != period_index(prev, 3_600_000) {
        r.push(Callback::HourBegin);
    }
    if host.on_minute_begin && period_index(now, 60_000) != period_index(prev, 60_000) {
        r.push(Callback::MinuteBegin);
    }
    if host.on_tick {
        r.push(Callback::Tick);
    }
    if host.on_minute_end && period_index(next, 60_000) != period_index(now, 60_000) {
        r.push(Callback::MinuteEnd);
    }
    if host.on_hour_end && period_index(next, 3_600_000) != period_index(now, 3_600_000) {
        r.push(Callback::HourEnd);
    }
    if host.on_day_end && period_index(next, 86_400_000) != period_index(now, 86_400_000) {
        r.push(Callback::DayEnd);
    }
    proof {
        assert(r@ =~= spec_tick_plan(prev, now, next, *host));
    }
    r
}

/// The bootstrap dispatch list: `Init`, then — with no tick loop in
/// between — `Stop` when the host supplies it. This is the minimal
/// bootstrap path; a full run drives the tick plans between the two.
pub open spec fn spec_bootstrap_plan(host: StrategyEvent) -> Seq<Callback> {
    seq![Callback::Init] + (if host.on_stop {
        seq![Callback::Stop]
    } else {
        Seq::empty()
    })
}

pub fn bootstrap_plan(host: &StrategyEvent) -> (r: Vec<Callback>)
    requires
        host.on_init,
    ensures
        r@ == spec_bootstrap_plan(*host),
        r@[0] is Init,
{
    let mut r: Vec<Callback> = Vec::new();
    r.push(Callback::Init);
    if host.on_stop {
        r.push(Callback::Stop);
    }
    proof {
        assert(r@ =~= spec_bootstrap_plan(*host));
    }
    r
}

/// What a whole run of `count` ticks dispatches, tick `i` standing at
/// `begin + i * interval`.
pub open spec fn spec_run_ticks(begin: i64, count: int, interval: i64, host: StrategyEvent) -> Seq<
    Callback,
>
    decreases count,
{
    if count <= 0 {
        Seq::empty()
    } else {
        spec_run_ticks(begin, count - 1, interval, host) + spec_tick_plan(
            (begin + (count - 1) * interval - interval) as i64,
            (begin + (count - 1) * interval) as i64,
            (begin + (count - 1) * interval + interval) as i64,
            host,
        )
    }
}

/// The dispatch list of one complete run: `Init` first and exactly once,
/// the ordered tick plans for every tick time `begin, begin + interval, …`
/// up to `end` inclusive, and `Stop` last and exactly once (when the host
/// supplies the optional ones; `Init` is mandatory).
pub fn run_plan(begin: i64, end: i64, interval: i64, host: &StrategyEvent) -> (r: Vec<Callback>)
    requires
        host.on_init,
        0 < interval,
        i64::MIN < begin - interval,
        end + interval <= i64::MAX,
    ensures
        r@ == seq![Callback::Init] + spec_run_ticks(
            begin,
            if begin <= end {
                (end - begin) / (interval as int) + 1
            } else {
                0
            },
            interval,
            *host,
        ) + (if host.on_stop {
            seq![Callback::Stop]
        } else {
            Seq::empty()
        }),
        r@[0] is Init,
        forall|i: int| 0 < i < r@.len() ==> !((#[trigger] r@[i]) is Init),
        host.on_stop ==> r@.last() is Stop,
        forall|i: int| 0 <= i < r@.len() - 1 ==> !((#[trigger] r@[i]) is Stop),
{
    let ghost total = if begin <= end {
        (end - begin) / (interval as int) + 1
    } else {
        0
    };
    let mut r: Vec<Callback> = Vec::new();
    r.push(Callback::Init);
    let mut t = begin;
    let ghost mut i: int = 0;
    while t <= end
        invariant
            host.on_init,
            0 < interval,
            i64::MIN < begin - interval,
            end + interval <= i64::MAX,
            0 <= i,
            begin <= t,
            t == begin + i * interval,
            begin <= end ==> i <= total,
            !(begin <= end) ==> i == 0,
            total == (if begin <= end {
                (end - begin) / (interval as int) + 1
            } else {
                0int
            }),
            r@ == seq![Callback::Init] + spec_run_ticks(begin, i, interval, *host),
        decreases end + interval - t,
    {
        proof {
            lemma_tick_count(begin, end, interval as int, i);
        }
        let plan = tick_plan(t - interval, t, t + interval, host);
        let ghost before = r@;
        let mut tail = plan;
        r.append(&mut tail);
        proof {
            assert((begin + i * interval) + interval == begin + (i + 1) * interval) by {
                vstd::arithmetic::mul::lemma_mul_is_distributive_add_other_way(
                    interval as int,
                    i,
                    1,
                );
            }
            assert(r@ =~= seq![Callback::Init] + spec_run_ticks(begin, i + 1, interval, *host));
            i = i + 1;
        }
        t = t + interval;
    }
    proof {
        lemma_tick_loop_done(begin, end, interval as int, i, t as int);
        assert(r@ == seq![Callback::Init] + spec_run_ticks(begin, total, interval, *host));
    }
    if host.on_stop {
        r.push(Callback::Stop);
    }
    proof {
        let ticks = spec_run_ticks(begin, total, interval, *host);
        lemma_run_ticks_no_lifecycle_ends(begin, total, interval, *host);
        assert(forall|j: int| 0 <= j < ticks.len() ==> tick_kind(#[trigger] ticks[j]));
        assert(r@ =~= seq![Callback::Init] + ticks + (if host.on_stop {
            seq![Callback::Stop]
        } else {
            Seq::<Callback>::empty()
        }));
    }
    r
}

/// While another tick is due, fewer than `total` have run.
proof fn lemma_tick_count(begin: i64, end: i64, interval: int, i: int)
    requires
        0 < interval,
        0 <= i,
        begin + i * interval <= end,
    ensures
        begin <= end,
        i + 1 <= (end - begin) / interval + 1,
{
    vstd::arithmetic::mul::lemma_mul_nonnegative(i, interval);
    assert(i * interval <= end - begin);
    assert(i <= (end - begin) / interval) by {
        vstd::arithmetic::div_mod::lemma_fundamental_div_mod(end - begin, interval);
        if i > (end - begin) / interval {
            vstd::arithmetic::mul::lemma_mul_inequality((end - begin) / interval + 1, i, interval);
            vstd::arithmetic::mul::lemma_mul_is_distributive_add_other_way(
                interval,
                (end - begin) / interval,
                1,
            );
            vstd::arithmetic::div_mod::lemma_mod_bound(end - begin, interval);
            vstd::arithmetic::mul::lemma_mul_is_commutative(interval, (end - begin) / interval);
        }
    }
}

/// When the loop leaves, every due tick has run.
proof fn lemma_tick_loop_done(begin: i64, end: i64, interval: int, i: int, t: int)
    requires
        0 < interval,
        0 <= i,
        t == begin + i * interval,
        t > end,
        begin <= end ==> i <= (end - begin) / interval + 1,
    ensures
        (if begin <= end {
            (end - begin) / interval + 1
        } else {
            0int
        }) == if begin > end {
            0int
        } else {
            i
        },
{
    if begin <= end {
        assert(i * interval > end - begin);
        assert(i >= 1) by {
            if i == 0 {
                assert(i * interval == 0) by {
                    vstd::arithmetic::mul::lemma_mul_basics(interval);
                }
            }
        }
        assert((i - 1) * interval == i * interval - interval) by {
            vstd::arithmetic::mul::lemma_mul_is_distributive_sub_other_way(interval, i, 1);
        }
        assert(i - 1 <= (end - begin) / interval);
        assert((end - begin) / interval <= i - 1) by {
            vstd::arithmetic::div_mod::lemma_fundamental_div_mod(end - begin, interval);
            vstd::arithmetic::div_mod::lemma_mod_bound(end - begin, interval);
            let q = (end - begin) / interval;
            if q > i - 1 {
                vstd::arithmetic::mul::lemma_mul_inequality(i, q, interval);
                vstd::arithmetic::mul::lemma_mul_is_commutative(interval, q);
            }
        }
    }
}

/// No tick of a run dispatches `Init` or `Stop`.
proof fn lemma_run_ticks_no_lifecycle_ends(begin: i64, count: int, interval: i64, host: StrategyEvent)
    ensures
        forall|i: int|
            0 <= i < spec_run_ticks(begin, count, interval, host).len() ==> tick_kind(
                #[trigger] spec_run_ticks(begin, count, interval, host)[i],
            ),
    decreases count,
{
    if count > 0 {
        lemma_run_ticks_no_lifecycle_ends(begin, count - 1, interval, host);
        lemma_tick_plan_no_lifecycle_ends(
            (begin + (count - 1) * interval - interval) as i64,
            (begin + (count - 1) * interval) as i64,
            (begin + (count - 1) * interval + interval) as i64,
            host,
        );
        lemma_concat_tick_kind(
            spec_run_ticks(begin, count - 1, interval, host),
            spec_tick_plan(
                (begin + (count - 1) * interval - interval) as i64,
                (begin + (count - 1) * interval) as i64,
                (begin + (count - 1) * interval + interval) as i64,
                host,
            ),
        );
    }
}

} // verus!
