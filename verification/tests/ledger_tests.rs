use wukong::decimal::Decimal;
use wukong::errors::LedgerError;
use wukong::models::{Account, Order, Pair, Position};
use wukong::types::{OrderStatus, Side, Type};

fn d(units: i64) -> Decimal {
    Decimal::from_units(units)
}

fn check_account(a: &Account) {
    assert_eq!(
        a.available_cash.atoms,
        a.cash.atoms - a.margin.atoms,
        "available cash must be cash minus margin"
    );
    assert!(a.margin.atoms >= 0);
}

#[test]
fn ledger_invariant_survives_mutations() {
    let mut a = Account::new();
    check_account(&a);
    assert!(a.apply(d(1000), d(0), d(0)).is_ok());
    check_account(&a);
    assert!(a.apply(d(-100), d(250), d(5)).is_ok());
    check_account(&a);
    assert_eq!(a.cash, d(900));
    assert_eq!(a.margin, d(250));
    assert_eq!(a.available_cash, d(650));
    assert_eq!(a.pnl, d(5));
    // a mutation that would drive margin negative is rejected whole
    assert_eq!(a.apply(d(0), d(-300), d(0)), Err(LedgerError::Invariant));
    check_account(&a);
    assert_eq!(a.cash, d(900));
    assert_eq!(a.margin, d(250));
    // an overflowing mutation is rejected whole
    assert_eq!(
        a.apply(Decimal::from_atoms(i128::MAX), Decimal::from_atoms(0), Decimal::from_atoms(0)),
        Err(LedgerError::Overflow)
    );
    check_account(&a);
    assert_eq!(a.available_cash, d(650));
}

#[test]
fn position_invariant_enforced() {
    let mut p = Position::new();
    assert!(p.update(d(10), d(8), d(100), d(50), d(1)).is_ok());
    assert!(p.available_size.atoms <= p.size.atoms);
    // more available than held is rejected
    assert_eq!(
        p.update(d(5), d(6), d(100), d(50), d(1)),
        Err(LedgerError::Invariant)
    );
    assert_eq!(p.size, d(10));
    // a flat position with margin left over is rejected
    assert_eq!(
        p.update(d(0), d(0), d(100), d(50), d(0)),
        Err(LedgerError::Invariant)
    );
    // a clean flat proposal passes
    assert!(p.update(d(0), d(0), d(100), d(0), d(0)).is_ok());
}

fn order_with(id: &str, status: OrderStatus) -> Order {
    Order {
        symbol: String::from("BTCUSDT"),
        id: String::from(id),
        kind: Type::Limit,
        side: Side::Long,
        reduce: false,
        leverage: d(10),
        size: d(1),
        price: d(100),
        time: 1000,
        margin: d(10),
        deal_size: d(0),
        deal_price: d(0),
        deal_average: d(0),
        deal_fee: d(0),
        status,
    }
}

#[test]
fn status_moves_forward_only() {
    let mut o = order_with("a", OrderStatus::Created);
    assert!(o.advance_status(OrderStatus::Submitted).is_ok());
    assert!(o.advance_status(OrderStatus::Pending).is_ok());
    assert!(o.advance_status(OrderStatus::Partial).is_ok());
    assert!(o.advance_status(OrderStatus::Completed).is_ok());
    assert_eq!(o.status, OrderStatus::Completed);
    // nothing leaves a terminal state
    assert_eq!(
        o.advance_status(OrderStatus::Canceled),
        Err(LedgerError::Invariant)
    );
    assert_eq!(o.status, OrderStatus::Completed);

    // a backward move is rejected and changes nothing
    let mut p = order_with("b", OrderStatus::Pending);
    assert_eq!(
        p.advance_status(OrderStatus::Created),
        Err(LedgerError::Invariant)
    );
    assert_eq!(
        p.advance_status(OrderStatus::Pending),
        Err(LedgerError::Invariant)
    );
    assert_eq!(p.status, OrderStatus::Pending);
    // a forward jump into a terminal state is fine
    assert!(p.advance_status(OrderStatus::Rejected).is_ok());
    assert_eq!(p.status, OrderStatus::Rejected);
}

#[test]
fn open_orders_are_exactly_the_non_terminal_ones() {
    let mut pair = Pair::new(String::from("BTCUSDT"));
    let statuses = [
        OrderStatus::Created,
        OrderStatus::Submitted,
        OrderStatus::Pending,
        OrderStatus::Partial,
        OrderStatus::Completed,
        OrderStatus::Rejected,
        OrderStatus::Canceled,
    ];
    for (i, st) in statuses.iter().enumerate() {
        pair.insert_order(order_with(&format!("id{}", i), *st));
    }
    let open = pair.open_orders();
    assert_eq!(open.len(), 4);
    for o in &open {
        assert!(matches!(
            o.status,
            OrderStatus::Created
                | OrderStatus::Submitted
                | OrderStatus::Pending
                | OrderStatus::Partial
        ));
    }
    let ids: Vec<String> = open.iter().map(|o| o.id.clone()).collect();
    assert_eq!(
        ids,
        vec![
            String::from("id0"),
            String::from("id1"),
            String::from("id2"),
            String::from("id3")
        ]
    );
}

#[test]
fn insert_order_replaces_by_id() {
    let mut pair = Pair::new(String::from("BTCUSDT"));
    assert!(!pair.insert_order(order_with("x", OrderStatus::Created)));
    assert!(!pair.insert_order(order_with("y", OrderStatus::Created)));
    assert!(pair.insert_order(order_with("x", OrderStatus::Completed)));
    assert_eq!(pair.orders.len(), 2);
    let fetched = pair.find_order(&String::from("x")).expect("present");
    assert_eq!(fetched.status, OrderStatus::Completed);
    assert!(pair.find_order(&String::from("z")).is_none());
}
