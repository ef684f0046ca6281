use vstd::prelude::*;

verus! {

/// Number of atoms in one whole unit: the fixed denominator is `10^9`.
pub const DECIMAL_UNIT: i128 = 1_000_000_000;

/// Fixed-point decimal used for every monetary and quantity field of the
/// ledger. A value is an integer count of `10^-9` units, so additive updates
/// to cash, margin and pnl are exact and never accumulate rounding drift.
#[derive(Clone, Copy, Debug, PartialEq, Eq, Structural)]
pub struct Decimal {
    pub atoms: i128,
}

impl Decimal {
    /// The mathematical value, in atoms.
    pub open spec fn view(self) -> int {
        self.atoms as int
    }

    pub open spec fn spec_zero() -> Decimal {
        Decimal { atoms: 0 }
    }

    pub fn zero() -> (r: Decimal)
        ensures
            r == Decimal::spec_zero(),
    {
        Decimal { atoms: 0 }
    }

    /// Builds a decimal from a raw atom count (`10^-9` units).
    pub fn from_atoms(atoms: i128) -> (r: Decimal)
        ensures
            r@ == atoms as int,
    {
        Decimal { atoms }
    }

    /// Builds a decimal from a count of whole units.
    pub fn from_units(units: i64) -> (r: Decimal)
        ensures
            r@ == units as int * DECIMAL_UNIT as int,
    {
        Decimal { atoms: (units as i128) * DECIMAL_UNIT }
    }

    /// Exact addition; `None` when the sum does not fit the atom range.
    pub fn checked_add(self, other: Decimal) -> (r: Option<Decimal>)
        ensures
            i128::MIN <= self@ + other@ <= i128::MAX ==> r == Some(
                Decimal { atoms: (self@ + other@) as i128 },
            ),
            !(i128::MIN <= self@ + other@ <= i128::MAX) ==> r is None,
    {
        match self.atoms.checked_add(other.atoms) {
            Some(atoms) => Some(Decimal { atoms }),
            None => None,
        }
    }

    /// Exact subtraction; `None` when the difference does not fit.
    pub fn checked_sub(self, other: Decimal) -> (r: Option<Decimal>)
        ensures
            i128::MIN <= self@ - other@ <= i128::MAX ==> r == Some(
                Decimal { atoms: (self@ - other@) as i128 },
            ),
            !(i128::MIN <= self@ - other@ <= i128::MAX) ==> r is None,
    {
        match self.atoms.checked_sub(other.atoms) {
            Some(atoms) => Some(Decimal { atoms }),
            None => None,
        }
    }

    pub fn is_negative(self) -> (r: bool)
        ensures
            r == (self@ < 0),
    {
        self.atoms < 0
    }

    /// `self <= other` on the mathematical values.
    pub fn le(self, other: Decimal) -> (r: bool)
        ensures
            r == (self@ <= other@),
    {
        self.atoms <= other.atoms
    }
}

} // verus!
