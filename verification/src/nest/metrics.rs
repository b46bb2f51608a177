//! Accounting of how stock is used.
use vstd::prelude::*;
use crate::units::UNITS_PER_MM;

verus! {

/// Largest stock total for which the efficiency can be computed.
pub const METRIC_LIMIT: i128 = 0x400_0000_0000_0000_0000_0000_0000;

#[derive(Debug, Clone, Copy, PartialEq, Eq, Structural)]
pub enum MetricKind {
    /// Lengths, in micro-units.
    Linear,
    /// Areas, in square micro-units.
    Area,
}

#[derive(Debug, Clone, Copy, PartialEq, Eq, Structural)]
pub struct UtilizationBreakdown {
    pub kind: MetricKind,
    /// What the parts take.
    pub utilized: i128,
    /// What the cuts between parts take.
    pub kerf_loss: i128,
    /// What is trimmed off the stock.
    pub trim_loss: i128,
    /// What is left over.
    pub offcut_loss: i128,
    /// All of the stock.
    pub stock_total: i128,
}

impl UtilizationBreakdown {
    /// A breakdown of nothing.
    pub fn new(kind: MetricKind) -> (m: Self)
        ensures
            m == (UtilizationBreakdown {
                kind,
                utilized: 0,
                kerf_loss: 0,
                trim_loss: 0,
                offcut_loss: 0,
                stock_total: 0,
            }),
    {
        UtilizationBreakdown {
            kind,
            utilized: 0,
            kerf_loss: 0,
            trim_loss: 0,
            offcut_loss: 0,
            stock_total: 0,
        }
    }

    /// The share of the stock that the parts take, in millionths: one
    /// million where there is no stock, else `utilized / stock_total`,
    /// rounded down and kept between nothing and one million.
    pub open spec fn spec_efficiency(self) -> int {
        if self.stock_total <= 0 {
            UNITS_PER_MM as int
        } else if self.utilized <= 0 {
            0
        } else if self.utilized >= self.stock_total {
            UNITS_PER_MM as int
        } else {
            (self.utilized * UNITS_PER_MM) / (self.stock_total as int)
        }
    }

    /// The share of the stock that the parts take, in millionths.
    pub fn efficiency(&self) -> (e: i64)
        requires
            self.stock_total <= METRIC_LIMIT,
        ensures
            e == self.spec_efficiency(),
            0 <= e <= UNITS_PER_MM,
    {
        if self.stock_total <= 0 {
            UNITS_PER_MM
        } else if self.utilized <= 0 {
            0
        } else if self.utilized >= self.stock_total {
            UNITS_PER_MM
        } else {
            assert(self.utilized * UNITS_PER_MM < self.stock_total * UNITS_PER_MM) by (nonlinear_arith)
                requires
                    self.utilized < self.stock_total,
                    UNITS_PER_MM == 1_000_000,
            ;
            let scaled: i128 = self.utilized * (UNITS_PER_MM as i128);
            let q = scaled / self.stock_total;
            proof {
                vstd::arithmetic::div_mod::lemma_fundamental_div_mod(
                    scaled as int,
                    self.stock_total as int,
                );
                vstd::arithmetic::div_mod::lemma_mod_bound(scaled as int, self.stock_total as int);
                assert(q < UNITS_PER_MM) by (nonlinear_arith)
                    requires
                        scaled == self.stock_total * q + scaled % self.stock_total,
                        0 <= scaled % self.stock_total,
                        scaled < self.stock_total * UNITS_PER_MM,
                        self.stock_total > 0,
                ;
                assert(q >= 0) by (nonlinear_arith)
                    requires
                        scaled == self.stock_total * q + scaled % self.stock_total,
                        scaled % self.stock_total < self.stock_total,
                        scaled >= 0,
                        self.stock_total > 0,
                ;
            }
            q as i64
        }
    }
}

} // verus!
