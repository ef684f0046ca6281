use wukong::codec::{decode_candle, decode_order, encode_candle, encode_order, push_i64, read_i64};
use wukong::decimal::Decimal;
use wukong::errors::CodecError;
use wukong::models::{Candle, Order};
use wukong::types::{OrderStatus, Side, Type};

fn key_of(t: i64) -> Vec<u8> {
    let mut v = Vec::new();
    push_i64(&mut v, t);
    v
}

fn sample_candle(time: i64) -> Candle {
    Candle {
        time,
        open: 100.5f64.to_bits(),
        high: 101.25f64.to_bits(),
        low: 99.75f64.to_bits(),
        close: 100.0f64.to_bits(),
        volume: 12.5f64.to_bits(),
        amount: 1250.0f64.to_bits(),
        taker_volume: 6.25f64.to_bits(),
        taker_amount: 625.0f64.to_bits(),
        trades: 42,
    }
}

#[test]
fn key_roundtrip_boundaries() {
    for t in [0i64, 1, -1, 1_000, i64::MAX, i64::MIN, 1_706_918_400_000] {
        let k = key_of(t);
        assert_eq!(k.len(), 8);
        assert_eq!(read_i64(&k, 0), t);
    }
}

#[test]
fn key_order_matches_byte_order() {
    // Range scans compare raw bytes: encoded keys must sort as the times do.
    let times = [i64::MIN, -2, -1, 0, 1, 999, 1_000, 2_000, i64::MAX];
    for w in times.windows(2) {
        assert!(key_of(w[0]) < key_of(w[1]));
    }
}

#[test]
fn candle_roundtrip() {
    for t in [0i64, 1_000, i64::MAX, i64::MIN] {
        let c = sample_candle(t);
        let bytes = encode_candle(&c);
        assert_eq!(bytes.len(), 80);
        assert_eq!(decode_candle(&bytes), Ok(c));
    }
}

#[test]
fn candle_decode_rejects_bad_width() {
    let c = sample_candle(7);
    let mut bytes = encode_candle(&c);
    bytes.pop();
    assert_eq!(decode_candle(&bytes), Err(CodecError::Truncated));
    let mut long = encode_candle(&c);
    long.push(0);
    assert_eq!(decode_candle(&long), Err(CodecError::Malformed));
}

fn sample_order() -> Order {
    Order {
        symbol: String::from("BTCUSDT"),
        id: String::from("9f2c4a"),
        kind: Type::Limit,
        side: Side::Short,
        reduce: true,
        leverage: Decimal::from_units(10),
        size: Decimal::from_atoms(1_500_000_000),
        price: Decimal::from_atoms(i128::MAX),
        time: 1_706_918_400_000,
        margin: Decimal::from_atoms(i128::MIN),
        deal_size: Decimal::from_atoms(0),
        deal_price: Decimal::from_atoms(-1),
        deal_average: Decimal::from_units(-3),
        deal_fee: Decimal::from_atoms(25),
        status: OrderStatus::Partial,
    }
}

#[test]
fn order_roundtrip() {
    let o = sample_order();
    let bytes = encode_order(&o);
    assert_eq!(decode_order(&bytes), Ok(o));
}

#[test]
fn order_roundtrip_boundary_times_and_unicode() {
    let mut o = sample_order();
    o.symbol = String::from("BTC-€-USDT");
    o.id = String::from("");
    o.time = 0;
    let bytes = encode_order(&o);
    assert_eq!(decode_order(&bytes), Ok(o.clone()));
    o.time = i64::MAX;
    o.status = OrderStatus::Created;
    let bytes = encode_order(&o);
    assert_eq!(decode_order(&bytes), Ok(o));
}

#[test]
fn order_decode_rejects_malformed() {
    let o = sample_order();
    let good = encode_order(&o);
    let mut truncated = good.clone();
    truncated.pop();
    assert!(decode_order(&truncated).is_err());
    let mut extra = good.clone();
    extra.push(0);
    assert!(decode_order(&extra).is_err());
    // an out-of-range status tag is malformed, never defaulted
    let mut bad_tag = good.clone();
    let last = bad_tag.len() - 1;
    bad_tag[last] = 200;
    assert_eq!(decode_order(&bad_tag), Err(CodecError::Malformed));
    // a length prefix past the end of the input is truncation
    let mut bad_len = good.clone();
    bad_len[0] = 0xff;
    assert_eq!(decode_order(&bad_len), Err(CodecError::Truncated));
}
