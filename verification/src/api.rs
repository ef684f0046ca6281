//! The query surface the strategy host sees: point-in-time snapshots of
//! account fields, positions, pairs, orders, the running flag, the clock
//! and the benchmark label. Every accessor takes the engine handle, copies
//! the requested value out and returns: none holds on to the state across
//! an external call.
use crate::decimal::Decimal;
use crate::engine::Engine;
use crate::models::spec_open_orders;
use crate::models::Order;
use crate::models::Pair;
use vstd::prelude::*;
use vstd::string::StringExecFns;
use vstd::string::StringSliceAdditionalSpecFns;

verus! {

/// The pair trading `symbol`, when the engine knows one.
fn find_pair<'a>(e: &'a Engine, symbol: &str) -> (r: Option<&'a Pair>)
    requires
        e.wf(),
    ensures
        match r {
            Some(p) => e.context.spec_has_pair(symbol@) && *p == e.context.spec_pair(symbol@),
            None => !e.context.spec_has_pair(symbol@),
        },
{
    let key = String::from_str(symbol);
    match e.context.find_pair(&key) {
        Some(i) => {
            proof {
                e.context.lemma_pair_at(symbol@, i as int);
            }
            Some(&e.context.pairs[i])
        },
        None => None,
    }
}

/// Parses a compact UTC date string to epoch milliseconds.
pub fn str_to_date(s: &str) -> (r: Result<i64, crate::errors::DateError>)
    ensures
        ({
            let n = s.spec_bytes().len() as usize as int;
            if n == 4 || n == 6 || n == 8 || n == 10 || n == 12 || n == 14 {
                r == match crate::date::datetime_ms_of(s@ + crate::date::spec_padding(n)) {
                    Some(t) => Ok::<i64, crate::errors::DateError>(t),
                    None => Err::<i64, crate::errors::DateError>(crate::errors::DateError::Parse),
                }
            } else {
                r == Err::<i64, crate::errors::DateError>(crate::errors::DateError::Format)
            }
        }),
{
    crate::date::str_to_date(s)
}

/// The wall clock as epoch milliseconds.
pub fn now_ms() -> (r: i64) {
    crate::date::now_ms()
}

/// A fresh opaque random token: 32 hex digits.
pub fn rand_id() -> (r: String)
    ensures
        r@.len() == 32,
{
    crate::id::gen()
}

pub fn account_cash(e: &Engine) -> (r: Decimal)
    ensures
        r == e.context.account.cash,
{
    e.context.account.cash
}

pub fn account_available_cash(e: &Engine) -> (r: Decimal)
    ensures
        r == e.context.account.available_cash,
{
    e.context.account.available_cash
}

pub fn account_margin(e: &Engine) -> (r: Decimal)
    ensures
        r == e.context.account.margin,
{
    e.context.account.margin
}

pub fn account_pnl(e: &Engine) -> (r: Decimal)
    ensures
        r == e.context.account.pnl,
{
    e.context.account.pnl
}

pub fn position_long_size(e: &Engine, symbol: &str) -> (r: Option<Decimal>)
    requires
        e.wf(),
    ensures
        r == if e.context.spec_has_pair(symbol@) {
            Some(e.context.spec_pair(symbol@).long.size)
        } else {
            None::<Decimal>
        },
{
    match find_pair(e, symbol) {
        Some(p) => Some(p.long.size),
        None => None,
    }
}

pub fn position_long_available_size(e: &Engine, symbol: &str) -> (r: Option<Decimal>)
    requires
        e.wf(),
    ensures
        r == if e.context.spec_has_pair(symbol@) {
            Some(e.context.spec_pair(symbol@).long.available_size)
        } else {
            None::<Decimal>
        },
{
    match find_pair(e, symbol) {
        Some(p) => Some(p.long.available_size),
        None => None,
    }
}

pub fn position_long_price(e: &Engine, symbol: &str) -> (r: Option<Decimal>)
    requires
        e.wf(),
    ensures
        r == if e.context.spec_has_pair(symbol@) {
            Some(e.context.spec_pair(symbol@).long.price)
        } else {
            None::<Decimal>
        },
{
    match find_pair(e, symbol) {
        Some(p) => Some(p.long.price),
        None => None,
    }
}

pub fn position_long_margin(e: &Engine, symbol: &str) -> (r: Option<Decimal>)
    requires
        e.wf(),
    ensures
        r == if e.context.spec_has_pair(symbol@) {
            Some(e.context.spec_pair(symbol@).long.margin)
        } else {
            None::<Decimal>
        },
{
    match find_pair(e, symbol) {
        Some(p) => Some(p.long.margin),
        None => None,
    }
}

pub fn position_long_pnl(e: &Engine, symbol: &str) -> (r: Option<Decimal>)
    requires
        e.wf(),
    ensures
        r == if e.context.spec_has_pair(symbol@) {
            Some(e.context.spec_pair(symbol@).long.pnl)
        } else {
            None::<Decimal>
        },
{
    match find_pair(e, symbol) {
        Some(p) => Some(p.long.pnl),
        None => None,
    }
}

pub fn position_short_size(e: &Engine, symbol: &str) -> (r: Option<Decimal>)
    requires
        e.wf(),
    ensures
        r == if e.context.spec_has_pair(symbol@) {
            Some(e.context.spec_pair(symbol@).short.size)
        } else {
            None::<Decimal>
        },
{
    match find_pair(e, symbol) {
        Some(p) => Some(p.short.size),
        None => None,
    }
}

pub fn position_short_available_size(e: &Engine, symbol: &str) -> (r: Option<Decimal>)
    requires
        e.wf(),
    ensures
        r == if e.context.spec_has_pair(symbol@) {
            Some(e.context.spec_pair(symbol@).short.available_size)
        } else {
            None::<Decimal>
        },
{
    match find_pair(e, symbol) {
        Some(p) => Some(p.short.available_size),
        None => None,
    }
}

pub fn position_short_price(e: &Engine, symbol: &str) -> (r: Option<Decimal>)
    requires
        e.wf(),
    ensures
        r == if e.context.spec_has_pair(symbol@) {
            Some(e.context.spec_pair(symbol@).short.price)
        } else {
            None::<Decimal>
        },
{
    match find_pair(e, symbol) {
        Some(p) => Some(p.short.price),
        None => None,
    }
}

pub fn position_short_margin(e: &Engine, symbol: &str) -> (r: Option<Decimal>)
    requires
        e.wf(),
    ensures
        r == if e.context.spec_has_pair(symbol@) {
            Some(e.context.spec_pair(symbol@).short.margin)
        } else {
            None::<Decimal>
        },
{
    match find_pair(e, symbol) {
        Some(p) => Some(p.short.margin),
        None => None,
    }
}

pub fn position_short_pnl(e: &Engine, symbol: &str) -> (r: Option<Decimal>)
    requires
        e.wf(),
    ensures
        r == if e.context.spec_has_pair(symbol@) {
            Some(e.context.spec_pair(symbol@).short.pnl)
        } else {
            None::<Decimal>
        },
{
    match find_pair(e, symbol) {
        Some(p) => Some(p.short.pnl),
        None => None,
    }
}

pub fn pair_leverage(e: &Engine, symbol: &str) -> (r: Option<Decimal>)
    requires
        e.wf(),
    ensures
        r == if e.context.spec_has_pair(symbol@) {
            Some(e.context.spec_pair(symbol@).leverage)
        } else {
            None::<Decimal>
        },
{
    match find_pair(e, symbol) {
        Some(p) => Some(p.leverage),
        None => None,
    }
}

pub fn pair_margin(e: &Engine, symbol: &str) -> (r: Option<Decimal>)
    requires
        e.wf(),
    ensures
        r == if e.context.spec_has_pair(symbol@) {
            Some(e.context.spec_pair(symbol@).margin)
        } else {
            None::<Decimal>
        },
{
    match find_pair(e, symbol) {
        Some(p) => Some(p.margin),
        None => None,
    }
}

pub fn pair_mark_price(e: &Engine, symbol: &str) -> (r: Option<Decimal>)
    requires
        e.wf(),
    ensures
        r == if e.context.spec_has_pair(symbol@) {
            Some(e.context.spec_pair(symbol@).mark_price)
        } else {
            None::<Decimal>
        },
{
    match find_pair(e, symbol) {
        Some(p) => Some(p.mark_price),
        None => None,
    }
}

/// Point lookup of one order by `(symbol, id)`: a copy of the order, or
/// `None` when the symbol is unknown or no order of the pair carries `id`.
pub fn pair_order(e: &Engine, symbol: &str, id: &str) -> (r: Option<Order>)
    requires
        e.wf(),
    ensures
        match r {
            Some(o) => e.context.spec_has_pair(symbol@) && exists|j: int|
                0 <= j < e.context.spec_pair(symbol@).orders@.len() && (#[trigger] e.context.spec_pair(
                    symbol@,
                ).orders@[j]) == o && o.id@ == id@,
            None => !e.context.spec_has_pair(symbol@) || forall|j: int|
                0 <= j < e.context.spec_pair(symbol@).orders@.len() ==> (#[trigger] e.context.spec_pair(
                    symbol@,
                ).orders@[j]).id@ != id@,
        },
{
    match find_pair(e, symbol) {
        Some(p) => {
            let key = String::from_str(id);
            match p.find_order(&key) {
                Some(o) => Some(o.clone()),
                None => None,
            }
        },
        None => None,
    }
}

/// The open orders of a pair: exactly the book entries in one of the four
/// non-terminal states, for any mix of statuses in the book; empty when
/// the symbol is unknown.
pub fn pair_open_orders(e: &Engine, symbol: &str) -> (r: Vec<Order>)
    requires
        e.wf(),
    ensures
        r@ == if e.context.spec_has_pair(symbol@) {
            spec_open_orders(e.context.spec_pair(symbol@).orders@)
        } else {
            Seq::<Order>::empty()
        },
{
    match find_pair(e, symbol) {
        Some(p) => p.open_orders(),
        None => Vec::new(),
    }
}

/// Every order id of a pair, in book order; empty when the symbol is
/// unknown.
pub fn pair_order_ids(e: &Engine, symbol: &str) -> (r: Vec<String>)
    requires
        e.wf(),
    ensures
        e.context.spec_has_pair(symbol@) ==> r@.len() == e.context.spec_pair(
            symbol@,
        ).orders@.len() && forall|j: int|
            0 <= j < r@.len() ==> r@[j]@ == (#[trigger] e.context.spec_pair(
                symbol@,
            ).orders@[j]).id@,
        !e.context.spec_has_pair(symbol@) ==> r@.len() == 0,
{
    match find_pair(e, symbol) {
        Some(p) => p.order_ids(),
        None => Vec::new(),
    }
}

pub fn is_running(e: &Engine) -> (r: bool)
    ensures
        r == e.context.running,
{
    e.context.running
}

/// The current trade clock, epoch milliseconds.
pub fn trade_time(e: &Engine) -> (r: i64)
    ensures
        r == e.context.trade_time,
{
    e.context.trade_time
}

pub fn benchmark(e: &Engine) -> (r: String)
    ensures
        r@ == e.context.benchmark@,
{
    e.context.benchmark.clone()
}

/// Every symbol the engine trades, in pair order.
pub fn symbols(e: &Engine) -> (r: Vec<String>)
    ensures
        r@.len() == e.context.pairs@.len(),
        forall|i: int| 0 <= i < r@.len() ==> r@[i]@ == (#[trigger] e.context.pairs@[i]).symbol@,
{
    let n = e.context.pairs.len();
    let mut r: Vec<String> = Vec::new();
    let mut i: usize = 0;
    while i < n
        invariant
            i <= n == e.context.pairs@.len(),
            r@.len() == i,
            forall|j: int| 0 <= j < i ==> r@[j]@ == (#[trigger] e.context.pairs@[j]).symbol@,
        decreases n - i,
    {
        r.push(e.context.pairs[i].symbol.clone());
        i = i + 1;
    }
    r
}

} // verus!
