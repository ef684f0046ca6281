use vstd::prelude::*;

verus! {

/// Run mode. It scopes every storage namespace, so backtest, sandbox and
/// live data never collide.
#[derive(Clone, Copy, Debug, PartialEq, Eq, Structural)]
pub enum Mode {
    Backtest,
    Sandbox,
    Real,
}

impl Mode {
    pub fn as_str(self) -> (r: &'static str)
        ensures
            self is Backtest ==> r@ == "Backtest"@,
            self is Sandbox ==> r@ == "Sandbox"@,
            self is Real ==> r@ == "Real"@,
    {
        match self {
            Mode::Backtest => "Backtest",
            Mode::Sandbox => "Sandbox",
            Mode::Real => "Real",
        }
    }
}

/// Order kind.
#[derive(Clone, Copy, Debug, PartialEq, Eq, Structural)]
pub enum Type {
    Limit,
    Market,
}

/// Trade direction.
#[derive(Clone, Copy, Debug, PartialEq, Eq, Structural)]
pub enum Side {
    Long,
    Short,
}

/// Width of one price bar.
#[derive(Clone, Copy, Debug, PartialEq, Eq, Structural)]
pub enum TimeFrame {
    Minute,
    Minute3,
    Minute5,
    Minute15,
    Minute30,
    Hour,
    Hour2,
    Hour4,
    Hour6,
    Hour8,
    Hour12,
    Day,
    Day3,
    Week,
    Month,
}

pub const MINUTE_MS: i64 = 60_000;
pub const HOUR_MS: i64 = 3_600_000;
pub const DAY_MS: i64 = 86_400_000;
pub const WEEK_MS: i64 = 604_800_000;

impl TimeFrame {
    /// The frame's width in milliseconds. A month counts as four weeks.
    pub open spec fn spec_duration_ms(self) -> int {
        match self {
            TimeFrame::Minute => 60_000,
            TimeFrame::Minute3 => 180_000,
            TimeFrame::Minute5 => 300_000,
            TimeFrame::Minute15 => 900_000,
            TimeFrame::Minute30 => 1_800_000,
            TimeFrame::Hour => 3_600_000,
            TimeFrame::Hour2 => 7_200_000,
            TimeFrame::Hour4 => 14_400_000,
            TimeFrame::Hour6 => 21_600_000,
            TimeFrame::Hour8 => 28_800_000,
            TimeFrame::Hour12 => 43_200_000,
            TimeFrame::Day => 86_400_000,
            TimeFrame::Day3 => 259_200_000,
            TimeFrame::Week => 604_800_000,
            TimeFrame::Month => 2_419_200_000,
        }
    }

    /// The frame's width as a count of milliseconds.
    pub fn as_duration(self) -> (r: i64)
        ensures
            r == self.spec_duration_ms(),
            0 < r,
    {
        match self {
            TimeFrame::Minute => 60_000,
            TimeFrame::Minute3 => 180_000,
            TimeFrame::Minute5 => 300_000,
            TimeFrame::Minute15 => 900_000,
            TimeFrame::Minute30 => 1_800_000,
            TimeFrame::Hour => 3_600_000,
            TimeFrame::Hour2 => 7_200_000,
            TimeFrame::Hour4 => 14_400_000,
            TimeFrame::Hour6 => 21_600_000,
            TimeFrame::Hour8 => 28_800_000,
            TimeFrame::Hour12 => 43_200_000,
            TimeFrame::Day => 86_400_000,
            TimeFrame::Day3 => 259_200_000,
            TimeFrame::Week => 604_800_000,
            TimeFrame::Month => 2_419_200_000,
        }
    }

    /// The short name that storage namespaces are built from.
    pub fn as_str(self) -> (r: &'static str)
        ensures
            self is Minute ==> r@ == "1m"@,
            self is Minute3 ==> r@ == "3m"@,
            self is Minute5 ==> r@ == "5m"@,
            self is Minute15 ==> r@ == "15m"@,
            self is Minute30 ==> r@ == "30m"@,
            self is Hour ==> r@ == "1h"@,
            self is Hour2 ==> r@ == "2h"@,
            self is Hour4 ==> r@ == "4h"@,
            self is Hour6 ==> r@ == "6h"@,
            self is Hour8 ==> r@ == "8h"@,
            self is Hour12 ==> r@ == "12h"@,
            self is Day ==> r@ == "1d"@,
            self is Day3 ==> r@ == "3d"@,
            self is Week ==> r@ == "1w"@,
            self is Month ==> r@ == "1M"@,
    {
        match self {
            TimeFrame::Minute => "1m",
            TimeFrame::Minute3 => "3m",
            TimeFrame::Minute5 => "5m",
            TimeFrame::Minute15 => "15m",
            TimeFrame::Minute30 => "30m",
            TimeFrame::Hour => "1h",
            TimeFrame::Hour2 => "2h",
            TimeFrame::Hour4 => "4h",
            TimeFrame::Hour6 => "6h",
            TimeFrame::Hour8 => "8h",
            TimeFrame::Hour12 => "12h",
            TimeFrame::Day => "1d",
            TimeFrame::Day3 => "3d",
            TimeFrame::Week => "1w",
            TimeFrame::Month => "1M",
        }
    }
}

/// Order lifecycle state. The machine is monotonic: a status only moves
/// forward along `Created -> Submitted -> Pending -> Partial` and from any
/// non-terminal state into one of the terminal states `Completed`,
/// `Rejected`, `Canceled`. Nothing leaves a terminal state.
#[derive(Clone, Copy, Debug, PartialEq, Eq, Structural)]
pub enum OrderStatus {
    Created,
    Submitted,
    Pending,
    Partial,
    Completed,
    Rejected,
    Canceled,
}

impl OrderStatus {
    /// Position along the forward chain; every terminal state shares the
    /// last rank, so no transition between terminal states is forward.
    pub open spec fn spec_rank(self) -> int {
        match self {
            OrderStatus::Created => 0,
            OrderStatus::Submitted => 1,
            OrderStatus::Pending => 2,
            OrderStatus::Partial => 3,
            OrderStatus::Completed => 4,
            OrderStatus::Rejected => 4,
            OrderStatus::Canceled => 4,
        }
    }

    pub open spec fn spec_is_terminal(self) -> bool {
        self is Completed || self is Rejected || self is Canceled
    }

    /// An order counts as open exactly in the four non-terminal states.
    pub open spec fn spec_is_open(self) -> bool {
        !self.spec_is_terminal()
    }

    /// Whether the machine admits a move from `self` to `next`: strictly
    /// forward, and never out of a terminal state.
    pub open spec fn spec_can_advance(self, next: OrderStatus) -> bool {
        !self.spec_is_terminal() && self.spec_rank() < next.spec_rank()
    }

    pub fn is_terminal(self) -> (r: bool)
        ensures
            r == self.spec_is_terminal(),
    {
        match self {
            OrderStatus::Completed | OrderStatus::Rejected | OrderStatus::Canceled => true,
            _ => false,
        }
    }

    pub fn is_open(self) -> (r: bool)
        ensures
            r == self.spec_is_open(),
    {
        !self.is_terminal()
    }

    fn rank(self) -> (r: u8)
        ensures
            r as int == self.spec_rank(),
    {
        match self {
            OrderStatus::Created => 0,
            OrderStatus::Submitted => 1,
            OrderStatus::Pending => 2,
            OrderStatus::Partial => 3,
            OrderStatus::Completed => 4,
            OrderStatus::Rejected => 4,
            OrderStatus::Canceled => 4,
        }
    }

    pub fn can_advance(self, next: OrderStatus) -> (r: bool)
        ensures
            r == self.spec_can_advance(next),
    {
        !self.is_terminal() && self.rank() < next.rank()
    }
}

} // verus!
