//! The engine controller: it owns the trading state and the time-series
//! store, and guards the rule that each slot runs at most one engine.
//!
//! The process-wide singleton of the embedding shell becomes an explicit
//! slot handle here: every operation takes the slot (or the engine inside
//! it), so several engines can coexist under test while each slot still
//! enforces the at-most-one rule. The shell is expected to keep one slot
//! behind one process-wide exclusive lock and to release it on every exit
//! path.
use crate::clock::bootstrap_plan;
use crate::clock::spec_bootstrap_plan;
use crate::clock::Callback;
use crate::errors::EngineError;
use crate::models::Context;
use crate::models::StrategyEvent;
use crate::storage::TimeSeriesStore;
use vstd::prelude::*;

verus! {

/// The engine: the authoritative trading state plus the store its bars and
/// replay cursors live in.
pub struct Engine {
    pub store: TimeSeriesStore,
    pub context: Context,
}

impl Engine {
    pub open spec fn wf(self) -> bool {
        self.context.wf()
    }
}

/// A slot that holds at most one engine and at most one strategy callback
/// table for its lifetime.
pub struct EngineSlot {
    pub engine: Option<Engine>,
    pub callback: Option<StrategyEvent>,
}

impl EngineSlot {
    /// The slot invariant: whatever engine is installed is well formed.
    pub open spec fn wf(self) -> bool {
        self.engine matches Some(e) ==> e.wf()
    }

    pub fn empty() -> (r: EngineSlot)
        ensures
            r.engine is None,
            r.callback is None,
            r.wf(),
    {
        EngineSlot { engine: None, callback: None }
    }
}

/// Installs an engine into the slot. Fails — and changes nothing — exactly
/// when the slot already holds one: at most one engine per slot, ever.
pub fn set_engine(slot: &mut EngineSlot, engine: Engine) -> (r: Result<(), EngineError>)
    requires
        old(slot).wf(),
        engine.wf(),
    ensures
        final(slot).wf(),
        old(slot).engine is Some ==> r == Err::<(), EngineError>(EngineError::AlreadyInitialized)
            && *final(slot) == *old(slot),
        old(slot).engine is None ==> r is Ok && final(slot).engine == Some(engine)
            && final(slot).callback == old(slot).callback,
{
    if slot.engine.is_some() {
        return Err(EngineError::AlreadyInitialized);
    }
    slot.engine = Some(engine);
    Ok(())
}

/// Borrows the installed engine; the slot must hold one.
pub fn engine(slot: &EngineSlot) -> (r: &Engine)
    requires
        slot.engine is Some,
    ensures
        slot.engine == Some(*r),
{
    match &slot.engine {
        Some(e) => e,
        None => unreached(),
    }
}

/// Records the strategy host's callback table. Fails — and changes
/// nothing — exactly when one is already recorded.
pub fn set_strategy_callback(slot: &mut EngineSlot, sc: StrategyEvent) -> (r: Result<
    (),
    EngineError,
>)
    requires
        old(slot).wf(),
    ensures
        final(slot).wf(),
        old(slot).callback is Some ==> r == Err::<(), EngineError>(EngineError::AlreadyInitialized)
            && *final(slot) == *old(slot),
        old(slot).callback is None ==> r is Ok && final(slot).callback == Some(sc)
            && final(slot).engine == old(slot).engine,
{
    if slot.callback.is_some() {
        return Err(EngineError::AlreadyInitialized);
    }
    slot.callback = Some(sc);
    Ok(())
}

/// The recorded callback table; the slot must hold one.
pub fn strategy_callback(slot: &EngineSlot) -> (r: StrategyEvent)
    requires
        slot.callback is Some,
    ensures
        slot.callback == Some(r),
{
    match &slot.callback {
        Some(sc) => *sc,
        None => unreached(),
    }
}

/// Starts an engine in the slot around an opened store: checks that the
/// host supplies the mandatory `on_init` before touching anything, builds a
/// fresh context — not running, ledgers zeroed, no pairs — installs it, and
/// answers the bootstrap dispatch list `Init` then `Stop`, which the shell
/// runs against the host with no tick loop in between.
///
/// A second start on the same slot fails with `AlreadyInitialized` and
/// leaves the first engine exactly as it was; a host without `on_init`
/// fails with `LifecycleConfig` before any state is installed.
pub fn start(slot: &mut EngineSlot, store: TimeSeriesStore, host: &StrategyEvent) -> (r: Result<
    Vec<Callback>,
    EngineError,
>)
    requires
        old(slot).wf(),
    ensures
        final(slot).wf(),
        r is Err ==> *final(slot) == *old(slot),
        old(slot).engine is Some || old(slot).callback is Some ==> r == Err::<
            Vec<Callback>,
            EngineError,
        >(EngineError::AlreadyInitialized),
        old(slot).engine is None && old(slot).callback is None && !host.on_init ==> r == Err::<
            Vec<Callback>,
            EngineError,
        >(EngineError::LifecycleConfig),
        old(slot).engine is None && old(slot).callback is None && host.on_init ==> {
            &&& r is Ok
            &&& r matches Ok(plan) ==> plan@ == spec_bootstrap_plan(*host) && plan@[0] is Init
            &&& final(slot).callback == Some(*host)
            &&& final(slot).engine matches Some(e) && {
                &&& !e.context.running
                &&& e.context.trade_time == 0
                &&& e.context.benchmark@ == Seq::<char>::empty()
                &&& e.context.account.cash@ == 0
                &&& e.context.account.available_cash@ == 0
                &&& e.context.account.margin@ == 0
                &&& e.context.account.pnl@ == 0
                &&& e.context.pairs@.len() == 0
                &&& e.store == store
            }
        },
{
    if slot.engine.is_some() || slot.callback.is_some() {
        return Err(EngineError::AlreadyInitialized);
    }
    if !host.on_init {
        return Err(EngineError::LifecycleConfig);
    }
    let context = Context::new();
    let installed = Engine { store, context };
    slot.engine = Some(installed);
    slot.callback = Some(*host);
    Ok(bootstrap_plan(host))
}

/// Terminates a run: the engine leaves the running state and stays
/// queryable; nothing else moves.
pub fn stop(e: &mut Engine)
    requires
        old(e).wf(),
    ensures
        final(e).wf(),
        !final(e).context.running,
        final(e).context.trade_time == old(e).context.trade_time,
        final(e).context.benchmark == old(e).context.benchmark,
        final(e).context.account == old(e).context.account,
        final(e).context.pairs == old(e).context.pairs,
        final(e).store == old(e).store,
{
    e.context.running = false;
}

} // verus!
