use wukong::api;
use wukong::clock::{bootstrap_plan, run_plan, tick_plan, Callback};
use wukong::decimal::Decimal;
use wukong::engine::{engine, set_engine, set_strategy_callback, start, stop, strategy_callback, Engine, EngineSlot};
use wukong::errors::EngineError;
use wukong::models::{Context, Pair, StrategyEvent};
use wukong::storage::TimeSeriesStore;
use wukong::types::Mode;

fn full_host() -> StrategyEvent {
    StrategyEvent {
        on_init: true,
        on_day_begin: true,
        on_hour_begin: true,
        on_minute_begin: true,
        on_tick: true,
        on_minute_end: true,
        on_hour_end: true,
        on_day_end: true,
        on_stop: true,
    }
}

#[test]
fn start_twice_fails_and_keeps_first_engine() {
    let mut slot = EngineSlot::empty();
    let host = full_host();
    let store = TimeSeriesStore::open_at("/tmp", Mode::Sandbox).expect("open");
    let plan = start(&mut slot, store, &host).expect("first start");
    assert_eq!(plan, vec![Callback::Init, Callback::Stop]);

    let second = TimeSeriesStore::open_at("/tmp", Mode::Real).expect("open");
    let err = start(&mut slot, second, &host).unwrap_err();
    assert_eq!(err, EngineError::AlreadyInitialized);

    // the first engine is intact and queryable
    let e = engine(&slot);
    assert!(!api::is_running(e));
    assert_eq!(api::trade_time(e), 0);
    assert_eq!(api::benchmark(e), String::new());
    assert_eq!(api::account_cash(e), Decimal::zero());
    assert_eq!(api::symbols(e), Vec::<String>::new());
    assert_eq!(strategy_callback(&slot), host);
}

#[test]
fn start_without_on_init_fails_before_any_state() {
    let mut slot = EngineSlot::empty();
    let mut host = full_host();
    host.on_init = false;
    let store = TimeSeriesStore::open_at("/tmp", Mode::Sandbox).expect("open");
    let err = start(&mut slot, store, &host).unwrap_err();
    assert_eq!(err, EngineError::LifecycleConfig);
    assert!(slot.engine.is_none());
    assert!(slot.callback.is_none());
}

#[test]
fn slot_setters_reject_second_installation() {
    let mut slot = EngineSlot::empty();
    let store = TimeSeriesStore::open_at("/tmp", Mode::Sandbox).expect("open");
    let e = Engine {
        store,
        context: Context::new(),
    };
    assert!(set_engine(&mut slot, e).is_ok());
    let store2 = TimeSeriesStore::open_at("/tmp", Mode::Real).expect("open");
    let e2 = Engine {
        store: store2,
        context: Context::new(),
    };
    assert_eq!(
        set_engine(&mut slot, e2),
        Err(EngineError::AlreadyInitialized)
    );
    assert!(set_strategy_callback(&mut slot, full_host()).is_ok());
    assert_eq!(
        set_strategy_callback(&mut slot, full_host()),
        Err(EngineError::AlreadyInitialized)
    );
}

#[test]
fn accessors_answer_pair_snapshots() {
    let store = TimeSeriesStore::open_at("/tmp", Mode::Sandbox).expect("open");
    let mut context = Context::new();
    let mut pair = Pair::new(String::from("BTCUSDT"));
    pair.leverage = Decimal::from_units(10);
    pair.mark_price = Decimal::from_units(101);
    pair.long.size = Decimal::from_units(3);
    pair.long.available_size = Decimal::from_units(2);
    context.pairs.push(pair);
    let e = Engine { store, context };

    assert_eq!(api::pair_leverage(&e, "BTCUSDT"), Some(Decimal::from_units(10)));
    assert_eq!(api::pair_mark_price(&e, "BTCUSDT"), Some(Decimal::from_units(101)));
    assert_eq!(api::position_long_size(&e, "BTCUSDT"), Some(Decimal::from_units(3)));
    assert_eq!(
        api::position_long_available_size(&e, "BTCUSDT"),
        Some(Decimal::from_units(2))
    );
    assert_eq!(api::position_short_size(&e, "BTCUSDT"), Some(Decimal::zero()));
    assert_eq!(api::pair_leverage(&e, "UNKNOWN"), None);
    assert_eq!(api::position_long_size(&e, "UNKNOWN"), None);
    assert_eq!(api::pair_order(&e, "BTCUSDT", "nope"), None);
    assert_eq!(api::pair_open_orders(&e, "BTCUSDT"), Vec::new());
    assert_eq!(api::pair_order_ids(&e, "UNKNOWN"), Vec::<String>::new());
    assert_eq!(api::symbols(&e), vec![String::from("BTCUSDT")]);
}

#[test]
fn tick_plan_fires_begins_and_ends_at_boundaries() {
    let host = full_host();
    let minute = 60_000i64;
    // a tick inside an hour: only the minute boundary fires
    let t = 3_600_000i64 + 120_000;
    assert_eq!(
        tick_plan(t - minute, t, t + minute, &host),
        vec![Callback::MinuteBegin, Callback::Tick, Callback::MinuteEnd]
    );
    // the first tick of a day opens day, hour and minute
    let midnight = 86_400_000i64;
    assert_eq!(
        tick_plan(midnight - minute, midnight, midnight + minute, &host),
        vec![
            Callback::DayBegin,
            Callback::HourBegin,
            Callback::MinuteBegin,
            Callback::Tick,
            Callback::MinuteEnd
        ]
    );
    // absent callbacks are left out
    let mut sparse = full_host();
    sparse.on_minute_begin = false;
    sparse.on_minute_end = false;
    assert_eq!(
        tick_plan(t - minute, t, t + minute, &sparse),
        vec![Callback::Tick]
    );
}

#[test]
fn run_plan_frames_ticks_with_init_and_stop() {
    let host = full_host();
    let minute = 60_000i64;
    let begin = 3_600_000i64;
    let plan = run_plan(begin, begin + 2 * minute, minute, &host);
    assert_eq!(plan[0], Callback::Init);
    assert_eq!(*plan.last().unwrap(), Callback::Stop);
    assert_eq!(plan.iter().filter(|c| **c == Callback::Init).count(), 1);
    assert_eq!(plan.iter().filter(|c| **c == Callback::Stop).count(), 1);
    assert_eq!(plan.iter().filter(|c| **c == Callback::Tick).count(), 3);
}

#[test]
fn stop_clears_running_and_keeps_state() {
    let store = TimeSeriesStore::open_at("/tmp", Mode::Sandbox).expect("open");
    let mut context = Context::new();
    context.running = true;
    context.trade_time = 777;
    context.pairs.push(Pair::new(String::from("BTCUSDT")));
    let mut e = Engine { store, context };
    stop(&mut e);
    assert!(!api::is_running(&e));
    assert_eq!(api::trade_time(&e), 777);
    assert_eq!(api::symbols(&e), vec![String::from("BTCUSDT")]);
}

#[test]
fn bootstrap_plan_is_init_then_stop() {
    let host = full_host();
    assert_eq!(bootstrap_plan(&host), vec![Callback::Init, Callback::Stop]);
    let mut no_stop = full_host();
    no_stop.on_stop = false;
    assert_eq!(bootstrap_plan(&no_stop), vec![Callback::Init]);
}
