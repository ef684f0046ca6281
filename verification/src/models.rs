//! The trading-state data model: account ledger, per-symbol positions and
//! order books, price bars, and the strategy host's callback table.
use crate::decimal::Decimal;
use crate::errors::LedgerError;
use crate::types::OrderStatus;
use crate::types::Side;
use crate::types::Type;
use vstd::prelude::*;

verus! {

/// One immutable price bar. The four prices and the four volume fields
/// carry IEEE-754 bit patterns: bars are inputs, never an accumulating
/// ledger, so the store treats them as opaque 64-bit payloads and never
/// computes with them.
#[derive(Clone, Copy, Debug, PartialEq, Eq, Structural)]
pub struct Candle {
    /// Period-open epoch milliseconds; the natural sort and primary key.
    pub time: i64,
    pub open: u64,
    pub high: u64,
    pub low: u64,
    pub close: u64,
    pub volume: u64,
    pub amount: u64,
    pub taker_volume: u64,
    pub taker_amount: u64,
    pub trades: i64,
}

/// The account ledger.
#[derive(Clone, Copy, Debug, PartialEq, Eq, Structural)]
pub struct Account {
    pub cash: Decimal,
    pub available_cash: Decimal,
    pub margin: Decimal,
    pub pnl: Decimal,
}

impl Account {
    /// The ledger invariant: available cash is exactly cash minus reserved
    /// margin, and the reservation is never negative.
    pub open spec fn wf(self) -> bool {
        &&& self.available_cash@ == self.cash@ - self.margin@
        &&& self.margin@ >= 0
    }

    pub fn new() -> (r: Account)
        ensures
            r.wf(),
            r.cash@ == 0 && r.available_cash@ == 0 && r.margin@ == 0 && r.pnl@ == 0,
    {
        Account {
            cash: Decimal::zero(),
            available_cash: Decimal::zero(),
            margin: Decimal::zero(),
            pnl: Decimal::zero(),
        }
    }

    /// Applies one settlement step to the ledger: a cash movement, a margin
    /// reservation change and a pnl change, all exact. The mutation is
    /// rejected whole — the ledger is untouched — when the new margin would
    /// be negative or any field would overflow; otherwise every field moves
    /// and `available_cash` is recomputed, so the invariant survives any
    /// sequence of applications.
    pub fn apply(
        &mut self,
        cash_delta: Decimal,
        margin_delta: Decimal,
        pnl_delta: Decimal,
    ) -> (r: Result<(), LedgerError>)
        requires
            old(self).wf(),
        ensures
            final(self).wf(),
            r is Ok ==> {
                &&& final(self).cash@ == old(self).cash@ + cash_delta@
                &&& final(self).margin@ == old(self).margin@ + margin_delta@
                &&& final(self).pnl@ == old(self).pnl@ + pnl_delta@
                &&& final(self).available_cash@ == final(self).cash@ - final(self).margin@
            },
            r is Err ==> *final(self) == *old(self),
            r == Err::<(), LedgerError>(LedgerError::Invariant) <==> (i128::MIN <= old(
                self,
            ).margin@ + margin_delta@ <= i128::MAX && old(self).margin@ + margin_delta@ < 0),
    {
        let new_margin = match self.margin.checked_add(margin_delta) {
            Some(m) => m,
            None => {
                return Err(LedgerError::Overflow);
            },
        };
        if new_margin.is_negative() {
            return Err(LedgerError::Invariant);
        }
        let new_cash = match self.cash.checked_add(cash_delta) {
            Some(c) => c,
            None => {
                return Err(LedgerError::Overflow);
            },
        };
        let new_available = match new_cash.checked_sub(new_margin) {
            Some(a) => a,
            None => {
                return Err(LedgerError::Overflow);
            },
        };
        let new_pnl = match self.pnl.checked_add(pnl_delta) {
            Some(p) => p,
            None => {
                return Err(LedgerError::Overflow);
            },
        };
        self.cash = new_cash;
        self.margin = new_margin;
        self.available_cash = new_available;
        self.pnl = new_pnl;
        Ok(())
    }
}

/// One side of a symbol's exposure. A pair holds one long and one short.
#[derive(Clone, Copy, Debug, PartialEq, Eq, Structural)]
pub struct Position {
    pub size: Decimal,
    /// Size not locked by reduce-only orders.
    pub available_size: Decimal,
    /// Volume-weighted average entry price.
    pub price: Decimal,
    pub margin: Decimal,
    pub pnl: Decimal,
}

impl Position {
    /// The position invariant: no more size is available than held, and a
    /// flat position reserves no margin and carries no pnl.
    pub open spec fn wf(self) -> bool {
        &&& self.available_size@ <= self.size@
        &&& self.size@ == 0 ==> self.margin@ == 0 && self.pnl@ == 0
    }

    pub fn new() -> (r: Position)
        ensures
            r.wf(),
            r.size@ == 0 && r.available_size@ == 0 && r.price@ == 0 && r.margin@ == 0 && r.pnl@
                == 0,
    {
        Position {
            size: Decimal::zero(),
            available_size: Decimal::zero(),
            price: Decimal::zero(),
            margin: Decimal::zero(),
            pnl: Decimal::zero(),
        }
    }

    /// Replaces the position's state with the settlement engine's proposal,
    /// but only when the proposal keeps the invariant; a violating proposal
    /// is rejected whole and the position stands unchanged.
    pub fn update(
        &mut self,
        size: Decimal,
        available_size: Decimal,
        price: Decimal,
        margin: Decimal,
        pnl: Decimal,
    ) -> (r: Result<(), LedgerError>)
        requires
            old(self).wf(),
        ensures
            final(self).wf(),
            r is Ok <==> (Position { size, available_size, price, margin, pnl }).wf(),
            r is Ok ==> *final(self) == (Position { size, available_size, price, margin, pnl }),
            r is Err ==> *final(self) == *old(self) && r == Err::<(), LedgerError>(
                LedgerError::Invariant,
            ),
    {
        let ok_sizes = available_size.le(size);
        let flat_ok = !(size.atoms == 0) || (margin.atoms == 0 && pnl.atoms == 0);
        if ok_sizes && flat_ok {
            self.size = size;
            self.available_size = available_size;
            self.price = price;
            self.margin = margin;
            self.pnl = pnl;
            Ok(())
        } else {
            Err(LedgerError::Invariant)
        }
    }
}

/// One order. It is created by a mutation request, moved through its
/// status machine by the settlement logic, and kept until evicted.
#[derive(Debug, PartialEq)]
pub struct Order {
    pub symbol: String,
    /// Opaque random token identifying the order.
    pub id: String,
    pub kind: Type,
    pub side: Side,
    /// A reduce-only order may only shrink a position.
    pub reduce: bool,
    pub leverage: Decimal,
    pub size: Decimal,
    pub price: Decimal,
    /// Placement time, epoch milliseconds.
    pub time: i64,
    pub margin: Decimal,
    pub deal_size: Decimal,
    pub deal_price: Decimal,
    pub deal_average: Decimal,
    pub deal_fee: Decimal,
    pub status: OrderStatus,
}

/// The mathematical content of an order: strings as character sequences,
/// decimals as atom counts.
pub struct OrderView {
    pub symbol: Seq<char>,
    pub id: Seq<char>,
    pub kind: Type,
    pub side: Side,
    pub reduce: bool,
    pub leverage: i128,
    pub size: i128,
    pub price: i128,
    pub time: i64,
    pub margin: i128,
    pub deal_size: i128,
    pub deal_price: i128,
    pub deal_average: i128,
    pub deal_fee: i128,
    pub status: OrderStatus,
}

impl View for Order {
    type V = OrderView;

    open spec fn view(&self) -> OrderView {
        OrderView {
            symbol: self.symbol@,
            id: self.id@,
            kind: self.kind,
            side: self.side,
            reduce: self.reduce,
            leverage: self.leverage.atoms,
            size: self.size.atoms,
            price: self.price.atoms,
            time: self.time,
            margin: self.margin.atoms,
            deal_size: self.deal_size.atoms,
            deal_price: self.deal_price.atoms,
            deal_average: self.deal_average.atoms,
            deal_fee: self.deal_fee.atoms,
            status: self.status,
        }
    }
}

impl Clone for Order {
    fn clone(&self) -> (r: Order)
        ensures
            r == *self,
    {
        Order {
            symbol: self.symbol.clone(),
            id: self.id.clone(),
            kind: self.kind,
            side: self.side,
            reduce: self.reduce,
            leverage: self.leverage,
            size: self.size,
            price: self.price,
            time: self.time,
            margin: self.margin,
            deal_size: self.deal_size,
            deal_price: self.deal_price,
            deal_average: self.deal_average,
            deal_fee: self.deal_fee,
            status: self.status,
        }
    }
}

impl Order {
    /// Moves the order's status forward. The machine is monotonic: a move
    /// that goes backward, stands still, or leaves a terminal state is
    /// rejected and the order keeps its status.
    pub fn advance_status(&mut self, next: OrderStatus) -> (r: Result<(), LedgerError>)
        ensures
            r is Ok <==> old(self).status.spec_can_advance(next),
            r is Ok ==> final(self)@ == (OrderView { status: next, ..old(self)@ }),
            r is Err ==> *final(self) == *old(self) && r == Err::<(), LedgerError>(
                LedgerError::Invariant,
            ),
            final(self).status.spec_rank() >= old(self).status.spec_rank(),
    {
        if self.status.can_advance(next) {
            self.status = next;
            Ok(())
        } else {
            Err(LedgerError::Invariant)
        }
    }
}

/// An open order: one whose status still admits fills.
pub open spec fn spec_open_orders(s: Seq<Order>) -> Seq<Order> {
    s.filter(|o: Order| o.status.spec_is_open())
}

/// Law: the open orders of a book are exactly the book entries whose
/// status is one of the four non-terminal states, whatever mix of statuses
/// the book holds.
pub proof fn lemma_open_orders_membership(s: Seq<Order>, o: Order)
    ensures
        spec_open_orders(s).contains(o) <==> s.contains(o) && o.status.spec_is_open(),
    decreases s.len(),
{
    reveal(Seq::filter);
    let pred = |x: Order| x.status.spec_is_open();
    if s.len() == 0 {
        assert(!s.contains(o));
    } else {
        let dl = s.drop_last();
        lemma_open_orders_membership(dl, o);
        assert(s.filter(pred) == if pred(s.last()) {
            dl.filter(pred).push(s.last())
        } else {
            dl.filter(pred)
        });
        if s.filter(pred).contains(o) {
            if pred(s.last()) && o == s.last() {
                assert(s.contains(o)) by {
                    assert(s[s.len() - 1] == o);
                }
            } else {
                assert(dl.filter(pred).contains(o)) by {
                    let j = choose|j: int|
                        0 <= j < s.filter(pred).len() && s.filter(pred)[j] == o;
                    if pred(s.last()) {
                        assert(s.filter(pred)[j] == dl.filter(pred).push(s.last())[j]);
                        assert(j < dl.filter(pred).len());
                    }
                }
                assert(dl.contains(o));
                let j = choose|j: int| 0 <= j < dl.len() && dl[j] == o;
                assert(s[j] == o);
                assert(s.contains(o));
            }
        }
        if s.contains(o) && pred(o) {
            let j = choose|j: int| 0 <= j < s.len() && s[j] == o;
            if j == s.len() - 1 {
                assert(s.filter(pred).last() == o);
                assert(s.filter(pred).contains(o));
            } else {
                assert(dl[j] == o);
                assert(dl.contains(o));
                assert(dl.filter(pred).contains(o));
                let k = choose|k: int|
                    0 <= k < dl.filter(pred).len() && dl.filter(pred)[k] == o;
                assert(s.filter(pred)[k] == o);
                assert(s.filter(pred).contains(o));
            }
        }
    }
}

/// Per-symbol trading context: leverage, symbol-level margin, mark price,
/// the long and short position, and the order book.
#[derive(Debug)]
pub struct Pair {
    pub symbol: String,
    pub leverage: Decimal,
    pub margin: Decimal,
    pub mark_price: Decimal,
    pub long: Position,
    pub short: Position,
    /// The order book; ids are unique, insertion order carries no meaning.
    pub orders: Vec<Order>,
}

impl Pair {
    pub open spec fn ids_unique(self) -> bool {
        forall|i: int, j: int|
            0 <= i < j < self.orders@.len() ==> self.orders@[i].id@ != self.orders@[j].id@
    }

    pub open spec fn wf(self) -> bool {
        &&& self.long.wf()
        &&& self.short.wf()
        &&& self.ids_unique()
    }

    pub fn new(symbol: String) -> (r: Pair)
        ensures
            r.wf(),
            r.symbol@ == symbol@,
            r.orders@.len() == 0,
            r.leverage@ == 0 && r.margin@ == 0 && r.mark_price@ == 0,
            r.long.size@ == 0 && r.long.available_size@ == 0 && r.long.margin@ == 0 && r.long.pnl@
                == 0,
            r.short.size@ == 0 && r.short.available_size@ == 0 && r.short.margin@ == 0
                && r.short.pnl@ == 0,
    {
        Pair {
            symbol,
            leverage: Decimal::zero(),
            margin: Decimal::zero(),
            mark_price: Decimal::zero(),
            long: Position::new(),
            short: Position::new(),
            orders: Vec::new(),
        }
    }

    /// Point lookup by order id; `None` exactly when no order carries the
    /// id.
    pub fn find_order(&self, id: &String) -> (r: Option<&Order>)
        ensures
            match r {
                Some(o) => exists|i: int|
                    0 <= i < self.orders@.len() && self.orders@[i] == *o && o.id@ == id@,
                None => forall|i: int|
                    0 <= i < self.orders@.len() ==> self.orders@[i].id@ != id@,
            },
    {
        let n = self.orders.len();
        let mut i: usize = 0;
        while i < n
            invariant
                i <= n == self.orders@.len(),
                forall|j: int| 0 <= j < i ==> self.orders@[j].id@ != id@,
            decreases n - i,
        {
            if self.orders[i].id == *id {
                return Some(&self.orders[i]);
            }
            i = i + 1;
        }
        None
    }

    /// The open orders: exactly the book entries whose status is one of the
    /// four non-terminal states, in book order.
    pub fn open_orders(&self) -> (r: Vec<Order>)
        ensures
            r@ == spec_open_orders(self.orders@),
    {
        let n = self.orders.len();
        let mut r: Vec<Order> = Vec::new();
        let mut i: usize = 0;
        proof {
            reveal(Seq::filter);
            assert(self.orders@.take(0) =~= Seq::<Order>::empty());
        }
        while i < n
            invariant
                i <= n == self.orders@.len(),
                r@ == spec_open_orders(self.orders@.take(i as int)),
            decreases n - i,
        {
            let o = &self.orders[i];
            proof {
                broadcast use Seq::lemma_filter_push;

                assert(self.orders@.take(i + 1) =~= self.orders@.take(i as int).push(
                    self.orders@[i as int],
                ));
            }
            if o.status.is_open() {
                r.push(o.clone());
            }
            i = i + 1;
        }
        proof {
            assert(self.orders@.take(n as int) =~= self.orders@);
        }
        r
    }

    /// The ids in the book, in book order.
    pub fn order_ids(&self) -> (r: Vec<String>)
        ensures
            r@.len() == self.orders@.len(),
            forall|i: int| 0 <= i < r@.len() ==> r@[i]@ == self.orders@[i].id@,
    {
        let n = self.orders.len();
        let mut r: Vec<String> = Vec::new();
        let mut i: usize = 0;
        while i < n
            invariant
                i <= n == self.orders@.len(),
                r@.len() == i,
                forall|j: int| 0 <= j < i ==> r@[j]@ == self.orders@[j].id@,
            decreases n - i,
        {
            r.push(self.orders[i].id.clone());
            i = i + 1;
        }
        r
    }

    /// Upserts an order into the book: an entry with the same id is
    /// replaced in place, anything else is appended. Id uniqueness — and
    /// with it the pair invariant — survives either way.
    pub fn insert_order(&mut self, order: Order) -> (replaced: bool)
        requires
            old(self).wf(),
        ensures
            final(self).wf(),
            final(self).symbol == old(self).symbol,
            final(self).leverage == old(self).leverage,
            final(self).margin == old(self).margin,
            final(self).mark_price == old(self).mark_price,
            final(self).long == old(self).long,
            final(self).short == old(self).short,
            replaced <==> exists|i: int|
                0 <= i < old(self).orders@.len() && old(self).orders@[i].id@ == order.id@,
            replaced ==> exists|i: int|
                {
                    &&& 0 <= i < old(self).orders@.len()
                    &&& old(self).orders@[i].id@ == order.id@
                    &&& final(self).orders@ == old(self).orders@.update(i, order)
                },
            !replaced ==> final(self).orders@ == old(self).orders@.push(order),
    {
        let n = self.orders.len();
        let mut i: usize = 0;
        while i < n
            invariant
                *self == *old(self),
                old(self).wf(),
                i <= n == self.orders@.len(),
                forall|j: int| 0 <= j < i ==> self.orders@[j].id@ != order.id@,
            decreases n - i,
        {
            if self.orders[i].id == order.id {
                let ghost before = self.orders@;
                self.orders.remove(i);
                self.orders.insert(i, order);
                proof {
                    assert(self.orders@ =~= before.update(i as int, order));
                    assert forall|a: int, b: int|
                        0 <= a < b < self.orders@.len() implies self.orders@[a].id@
                        != self.orders@[b].id@ by {
                        assert(before[a].id@ != before[b].id@);
                    }
                }
                return true;
            }
            i = i + 1;
        }
        self.orders.push(order);
        false
    }
}

/// The engine context: the authoritative aggregate of running flag, clock,
/// benchmark label, account ledger and per-symbol pairs. Exactly one lives
/// behind each engine handle, guarded by one exclusive lock, so the
/// cross-field invariants are never observed torn.
#[derive(Debug)]
pub struct Context {
    pub running: bool,
    /// Current simulated or real clock value, epoch milliseconds.
    pub trade_time: i64,
    pub benchmark: String,
    pub account: Account,
    pub pairs: Vec<Pair>,
}

impl Context {
    pub open spec fn symbols_unique(self) -> bool {
        forall|i: int, j: int|
            0 <= i < j < self.pairs@.len() ==> self.pairs@[i].symbol@ != self.pairs@[j].symbol@
    }

    pub open spec fn wf(self) -> bool {
        &&& self.account.wf()
        &&& self.symbols_unique()
        &&& forall|i: int| 0 <= i < self.pairs@.len() ==> self.pairs@[i].wf()
    }

    /// A fresh context: not running, clock and ledgers zeroed, no pairs.
    pub fn new() -> (r: Context)
        ensures
            r.wf(),
            !r.running,
            r.trade_time == 0,
            r.benchmark@ == Seq::<char>::empty(),
            r.account.cash@ == 0 && r.account.available_cash@ == 0 && r.account.margin@ == 0
                && r.account.pnl@ == 0,
            r.pairs@.len() == 0,
    {
        Context {
            running: false,
            trade_time: 0,
            benchmark: String::new(),
            account: Account::new(),
            pairs: Vec::new(),
        }
    }

    /// Whether some pair trades `symbol`.
    pub open spec fn spec_has_pair(self, symbol: Seq<char>) -> bool {
        exists|i: int| 0 <= i < self.pairs@.len() && (#[trigger] self.pairs@[i]).symbol@ == symbol
    }

    /// The pair trading `symbol`; meaningful when `spec_has_pair` holds,
    /// and then — symbols being unique — pinned to the one such pair.
    pub open spec fn spec_pair(self, symbol: Seq<char>) -> Pair {
        self.pairs@[choose|i: int|
            0 <= i < self.pairs@.len() && (#[trigger] self.pairs@[i]).symbol@ == symbol]
    }

    /// In a well-formed context the pair found at any matching index is
    /// the pair `spec_pair` names.
    pub proof fn lemma_pair_at(self, symbol: Seq<char>, i: int)
        requires
            self.wf(),
            0 <= i < self.pairs@.len(),
            self.pairs@[i].symbol@ == symbol,
        ensures
            self.spec_has_pair(symbol),
            self.spec_pair(symbol) == self.pairs@[i],
    {
        let k = choose|k: int|
            0 <= k < self.pairs@.len() && (#[trigger] self.pairs@[k]).symbol@ == symbol;
        if k < i {
            assert(self.pairs@[k].symbol@ != self.pairs@[i].symbol@);
        } else if i < k {
            assert(self.pairs@[i].symbol@ != self.pairs@[k].symbol@);
        }
    }

    /// Index of the pair trading `symbol`; `None` exactly when the symbol
    /// is unknown.
    pub fn find_pair(&self, symbol: &String) -> (r: Option<usize>)
        ensures
            match r {
                Some(i) => i < self.pairs@.len() && self.pairs@[i as int].symbol@ == symbol@,
                None => forall|i: int|
                    0 <= i < self.pairs@.len() ==> self.pairs@[i].symbol@ != symbol@,
            },
    {
        let n = self.pairs.len();
        let mut i: usize = 0;
        while i < n
            invariant
                i <= n == self.pairs@.len(),
                forall|j: int| 0 <= j < i ==> self.pairs@[j].symbol@ != symbol@,
            decreases n - i,
        {
            if self.pairs[i].symbol == *symbol {
                return Some(i);
            }
            i = i + 1;
        }
        None
    }
}

/// Which callbacks the strategy host supplies. Every absent callback is
/// dispatched as a no-op, except `on_init`, whose absence is fatal.
#[derive(Clone, Copy, Debug, PartialEq, Eq, Structural)]
pub struct StrategyEvent {
    pub on_init: bool,
    pub on_day_begin: bool,
    pub on_hour_begin: bool,
    pub on_minute_begin: bool,
    pub on_tick: bool,
    pub on_minute_end: bool,
    pub on_hour_end: bool,
    pub on_day_end: bool,
    pub on_stop: bool,
}

} // verus!
