use wukong::models::Candle;
use wukong::storage::TimeSeriesStore;
use wukong::types::{Mode, TimeFrame};

fn bar(time: i64, close: f64) -> Candle {
    Candle {
        time,
        open: 1.0f64.to_bits(),
        high: 2.0f64.to_bits(),
        low: 0.5f64.to_bits(),
        close: close.to_bits(),
        volume: 3.0f64.to_bits(),
        amount: 4.0f64.to_bits(),
        taker_volume: 1.5f64.to_bits(),
        taker_amount: 2.5f64.to_bits(),
        trades: 9,
    }
}

#[test]
fn save_then_point_and_range_reads() {
    let mut store = TimeSeriesStore::open_at("/tmp", Mode::Backtest)
        .expect("open store");
    let candles = vec![bar(1000, 10.0), bar(2000, 20.0)];
    store
        .save_candles("BTCUSDT", TimeFrame::Minute, &candles)
        .expect("save");

    let in_range = store
        .get_candles("BTCUSDT", TimeFrame::Minute, 500, 1500)
        .expect("range read");
    assert_eq!(in_range, vec![bar(1000, 10.0)]);

    let hit = store
        .get_candle("BTCUSDT", TimeFrame::Minute, 2000)
        .expect("point read");
    assert_eq!(hit, Some(bar(2000, 20.0)));

    let miss = store
        .get_candle("BTCUSDT", TimeFrame::Minute, 3000)
        .expect("point read");
    assert_eq!(miss, None);
}

#[test]
fn range_read_sorts_and_last_write_wins() {
    let mut store = TimeSeriesStore::open_at("/tmp", Mode::Backtest)
        .expect("open store");
    // out of order, with two writes on time 1000: the later write wins
    let candles = vec![bar(2000, 20.0), bar(1000, 10.0), bar(1000, 11.0)];
    store
        .save_candles("ETHUSDT", TimeFrame::Minute, &candles)
        .expect("save");
    let all = store
        .get_candles("ETHUSDT", TimeFrame::Minute, i64::MIN, i64::MAX)
        .expect("range read");
    assert_eq!(all, vec![bar(1000, 11.0), bar(2000, 20.0)]);

    // saving the same batch again changes nothing: the upsert is idempotent
    store
        .save_candles("ETHUSDT", TimeFrame::Minute, &candles)
        .expect("save again");
    let again = store
        .get_candles("ETHUSDT", TimeFrame::Minute, i64::MIN, i64::MAX)
        .expect("range read");
    assert_eq!(again, all);
}

#[test]
fn unwritten_namespace_reads_empty_not_error() {
    let store = TimeSeriesStore::open_at("/tmp", Mode::Backtest)
        .expect("open store");
    let none = store
        .get_candle("NEVERWRITTEN", TimeFrame::Hour, 1000)
        .expect("absence is not an error");
    assert_eq!(none, None);
    let empty = store
        .get_candles("NEVERWRITTEN", TimeFrame::Hour, 0, i64::MAX)
        .expect("absence is not an error");
    assert_eq!(empty, Vec::new());
}

#[test]
fn modes_do_not_collide() {
    let mut backtest = TimeSeriesStore::open_at("/tmp", Mode::Backtest)
        .expect("open backtest");
    let sandbox = TimeSeriesStore::open_at("/tmp", Mode::Sandbox)
        .expect("open sandbox");
    backtest
        .save_candles("BTCUSDT", TimeFrame::Day, &vec![bar(5000, 50.0)])
        .expect("save");
    let other = sandbox
        .get_candle("BTCUSDT", TimeFrame::Day, 5000)
        .expect("read");
    assert_eq!(other, None);
}

#[test]
fn replay_cursor_roundtrip() {
    let mut store = TimeSeriesStore::open_at("/tmp", Mode::Backtest)
        .expect("open store");
    store
        .save_replay_cursor("SOLUSDT", TimeFrame::Minute15, 123)
        .expect("save");
    assert_eq!(
        store
            .get_replay_cursor("SOLUSDT", TimeFrame::Minute15)
            .expect("read"),
        Some(123)
    );
    store
        .save_replay_cursor("SOLUSDT", TimeFrame::Minute15, 456)
        .expect("overwrite");
    assert_eq!(
        store
            .get_replay_cursor("SOLUSDT", TimeFrame::Minute15)
            .expect("read"),
        Some(456)
    );
    // another pair's cursor is untouched
    assert_eq!(
        store
            .get_replay_cursor("SOLUSDT", TimeFrame::Hour)
            .expect("read"),
        None
    );
}
