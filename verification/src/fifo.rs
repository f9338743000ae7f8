//! FIFO ledger: lot consumption, fee allocation, realized PnL.

use vstd::prelude::*;

use crate::amount::{abs, Money, RawAmount};
use crate::error::ScoutError;
use crate::identity::AssetKey;
use crate::lot::{BasisStatus, Lot, LotProvenance};

verus! {

/// Whether `v` fits in an `i128`.
pub open spec fn fits_i128(v: int) -> bool {
    i128::MIN <= v <= i128::MAX
}

/// The part of a lot that disposals change.
pub struct LotModel {
    pub remaining: nat,
    pub basis: int,
    pub known: bool,
}

impl Lot {
    /// What disposals read and change of a lot.
    pub open spec fn model(self) -> LotModel {
        LotModel {
            remaining: self.remaining_amount@,
            basis: self.remaining_basis@,
            known: self.basis_status is Known,
        }
    }

    /// The fields that disposals never change.
    pub open spec fn same_identity(self, other: Lot) -> bool {
        &&& self.asset == other.asset
        &&& self.acquisition_sequence == other.acquisition_sequence
        &&& self.original_amount == other.original_amount
        &&& self.original_basis == other.original_basis
        &&& self.basis_status == other.basis_status
        &&& self.provenance == other.provenance
    }
}

/// The models of a sequence of lots.
pub open spec fn models(lots: Seq<Lot>) -> Seq<LotModel> {
    lots.map_values(|l: Lot| l.model())
}

/// `total * numerator / denominator` on scaled units, rounded toward zero,
/// computed exactly: zero for a zero denominator, `total` itself when the
/// whole amount is consumed, and an overflow error (with its context) when
/// an operand exceeds `u128` or the product or quotient exceeds its type.
pub open spec fn proportional(total: int, numerator: nat, denominator: nat) -> Result<
    int,
    Seq<char>,
> {
    if denominator == 0 {
        Ok(0)
    } else if numerator == denominator {
        Ok(total)
    } else if numerator > u128::MAX {
        Err("proportional_money: numerator exceeds u128"@)
    } else if denominator > u128::MAX {
        Err("proportional_money: denominator exceeds u128"@)
    } else if abs(total) * numerator > u128::MAX {
        Err("proportional_money: total * numerator overflow"@)
    } else if (abs(total) * numerator) / denominator > i128::MAX {
        Err("proportional_money: quotient exceeds i128"@)
    } else if total < 0 {
        Ok(-((abs(total) * numerator) / denominator))
    } else {
        Ok(((abs(total) * numerator) / denominator) as int)
    }
}

/// State of a FIFO consumption: failed (lots as left at the failure, and
/// the error's context), or running (lots, amount still to cover, basis
/// consumed so far, whether every consumed lot had known basis).
pub enum FifoState {
    Failed(Seq<LotModel>, Seq<char>),
    Running(Seq<LotModel>, nat, int, bool),
}

/// Consumes lots oldest first, from index `i` on, to cover `remaining`.
/// Each lot gives up `min(its remaining amount, remaining)` and the same
/// fraction of its remaining basis; exhausted lots are skipped.
pub open spec fn fifo_consume(
    lots: Seq<LotModel>,
    i: nat,
    remaining: nat,
    consumed: int,
    all_known: bool,
) -> FifoState
    decreases lots.len() - i,
{
    if i >= lots.len() || remaining == 0 {
        FifoState::Running(lots, remaining, consumed, all_known)
    } else if lots[i as int].remaining == 0 {
        fifo_consume(lots, i + 1, remaining, consumed, all_known)
    } else {
        let lot = lots[i as int];
        let take = if lot.remaining <= remaining {
            lot.remaining
        } else {
            remaining
        };
        match proportional(lot.basis, take, lot.remaining) {
            Err(context) => FifoState::Failed(lots, context),
            Ok(b) => if !fits_i128(consumed + b) {
                FifoState::Failed(lots, "Money::checked_add"@)
            } else if !fits_i128(lot.basis - b) {
                FifoState::Failed(
                    lots.update(
                        i as int,
                        LotModel { remaining: (lot.remaining - take) as nat, ..lot },
                    ),
                    "Money::checked_sub"@,
                )
            } else {
                fifo_consume(
                    lots.update(
                        i as int,
                        LotModel {
                            remaining: (lot.remaining - take) as nat,
                            basis: lot.basis - b,
                            known: lot.known,
                        },
                    ),
                    i + 1,
                    (remaining - take) as nat,
                    consumed + b,
                    all_known && lot.known,
                )
            },
        }
    }
}

/// What a successful disposal reports.
pub struct DisposalModel {
    pub net: int,
    pub consumed: int,
    pub pnl: Option<int>,
    pub all_known: bool,
}

/// A disposal of `amount` for `gross` proceeds and `fee`: the lots after
/// it (also after a failure part-way) and its result or error context.
pub open spec fn dispose_spec(lots: Seq<LotModel>, amount: nat, gross: int, fee: int) -> (
    Seq<LotModel>,
    Result<DisposalModel, Seq<char>>,
) {
    if !fits_i128(gross - fee) {
        (lots, Err("Money::checked_sub"@))
    } else {
        match fifo_consume(lots, 0, amount, 0, true) {
            FifoState::Failed(after, context) => (after, Err(context)),
            FifoState::Running(after, rest, consumed, known) => if rest != 0 {
                (after, Err("Ledger::dispose: insufficient open inventory to cover disposal"@))
            } else if known {
                if !fits_i128(gross - fee - consumed) {
                    (after, Err("Money::checked_sub"@))
                } else {
                    (
                        after,
                        Ok(
                            DisposalModel {
                                net: gross - fee,
                                consumed,
                                pnl: Some(gross - fee - consumed),
                                all_known: true,
                            },
                        ),
                    )
                }
            } else {
                (
                    after,
                    Ok(
                        DisposalModel {
                            net: gross - fee,
                            consumed,
                            pnl: None,
                            all_known: false,
                        },
                    ),
                )
            },
        }
    }
}

/// Open inventory as computed by summing remaining amounts in order,
/// restarting from zero whenever the running sum would exceed `2^256 - 1`.
pub open spec fn open_amount_spec(lots: Seq<LotModel>) -> nat
    decreases lots.len(),
{
    if lots.len() == 0 {
        0
    } else {
        let acc = open_amount_spec(lots.drop_last());
        if acc + lots.last().remaining < crate::amount::two_pow_256() {
            acc + lots.last().remaining
        } else {
            0
        }
    }
}

/// Result of consuming lots to cover a disposal (sale).
#[derive(Debug, Clone)]
pub struct DisposalResult {
    /// Proceeds after the sale fee.
    pub net_sale_proceeds: Money,
    /// Capitalized basis consumed from all lots touched.
    pub consumed_acquisition_basis: Money,
    /// `net_sale_proceeds - consumed_acquisition_basis`, only when every
    /// consumed lot had known basis; `None` otherwise.
    pub realized_trade_pnl: Option<Money>,
    /// Whether every lot consumed by this disposal had known basis.
    pub all_basis_known: bool,
}

impl DisposalResult {
    /// Whether this result reports the model `m`.
    pub open spec fn reports(self, m: DisposalModel) -> bool {
        &&& self.net_sale_proceeds@ == m.net
        &&& self.consumed_acquisition_basis@ == m.consumed
        &&& self.all_basis_known == m.all_known
        &&& match (self.realized_trade_pnl, m.pnl) {
            (Some(p), Some(q)) => p@ == q,
            (None, None) => true,
            _ => false,
        }
    }
}

/// Per-asset FIFO inventory and realized-PnL ledger.
#[derive(Debug, Clone)]
pub struct Ledger {
    lots: Vec<Lot>,
    next_sequence: u64,
}

/// `total * numerator / denominator` using only checked integer
/// arithmetic on scaled units, never floats.
fn proportional_money(total: Money, numerator: RawAmount, denominator: RawAmount) -> (r: Result<
    Money,
    ScoutError,
>)
    ensures
        match proportional(total@, numerator@, denominator@) {
            Ok(v) => r matches Ok(m) && m@ == v,
            Err(context) => r matches Err(ScoutError::ArithmeticOverflow { context: c }) && c@
                == context,
        },
{
    if denominator.is_zero() {
        return Ok(Money::zero());
    }
    if numerator.same_as(&denominator) {
        return Ok(total);
    }
    let num = match numerator.to_u128() {
        Some(v) => v,
        None => {
            return Err(
                ScoutError::ArithmeticOverflow {
                    context: "proportional_money: numerator exceeds u128",
                },
            )
        },
    };
    let den = match denominator.to_u128() {
        Some(v) => v,
        None => {
            return Err(
                ScoutError::ArithmeticOverflow {
                    context: "proportional_money: denominator exceeds u128",
                },
            )
        },
    };
    let total_units = total.scaled_units();
    let total_abs: u128 = if total_units < 0 {
        ((-(total_units + 1)) as u128) + 1
    } else {
        total_units as u128
    };
    assert(total_abs == abs(total@));
    let product = match total_abs.checked_mul(num) {
        Some(p) => p,
        None => {
            return Err(
                ScoutError::ArithmeticOverflow {
                    context: "proportional_money: total * numerator overflow",
                },
            )
        },
    };
    let quotient = product / den;
    if quotient > 0x7fff_ffff_ffff_ffff_ffff_ffff_ffff_ffffu128 {
        return Err(
            ScoutError::ArithmeticOverflow { context: "proportional_money: quotient exceeds i128" },
        );
    }
    let signed = quotient as i128;
    let signed = if total_units < 0 {
        -signed
    } else {
        signed
    };
    Ok(Money::from_scaled_units(signed))
}

impl Ledger {
    /// The lots, oldest first.
    pub closed spec fn lots(&self) -> Seq<Lot> {
        self.lots@
    }

    /// The ledger's lots are numbered by position and the next number is
    /// their count.
    pub closed spec fn wf(&self) -> bool {
        &&& self.next_sequence == self.lots@.len()
        &&& forall|i: int|
            0 <= i < self.lots@.len() ==> #[trigger] self.lots@[i].acquisition_sequence == i
    }

    /// The lots, oldest first.
    pub fn lots_in_order(&self) -> (r: &Vec<Lot>)
        ensures
            r@ == self.lots(),
    {
        &self.lots
    }

    /// An empty ledger.
    pub fn new() -> (l: Ledger)
        ensures
            l.wf(),
            l.lots() == Seq::<Lot>::empty(),
    {
        Ledger { lots: Vec::new(), next_sequence: 0 }
    }

    /// Records a new acquisition lot, with `basis` the fully capitalized
    /// cost, and returns its sequence number.
    pub fn acquire(
        &mut self,
        asset: AssetKey,
        amount: RawAmount,
        basis: Money,
        basis_status: BasisStatus,
    ) -> (sequence: u64)
        requires
            old(self).wf(),
            old(self).lots().len() < u64::MAX,
        ensures
            final(self).wf(),
            sequence == old(self).lots().len(),
            final(self).lots() == old(self).lots().push(
                Lot {
                    asset,
                    acquisition_sequence: sequence,
                    original_amount: amount,
                    remaining_amount: amount,
                    original_basis: basis,
                    remaining_basis: basis,
                    basis_status,
                    provenance: LotProvenance::Verified,
                },
            ),
    {
        let sequence = self.next_sequence;
        self.next_sequence = self.next_sequence + 1;
        self.lots.push(
            Lot {
                asset,
                acquisition_sequence: sequence,
                original_amount: amount,
                remaining_amount: amount,
                original_basis: basis,
                remaining_basis: basis,
                basis_status,
                provenance: LotProvenance::Verified,
            },
        );
        sequence
    }

    /// Total remaining amount across all lots (open inventory).
    pub fn open_amount(&self) -> (total: RawAmount)
        ensures
            total@ == open_amount_spec(models(self.lots())),
    {
        let mut acc = RawAmount::zero();
        let mut i: usize = 0;
        while i < self.lots.len()
            invariant
                i <= self.lots@.len(),
                acc@ == open_amount_spec(models(self.lots@.subrange(0, i as int))),
            decreases self.lots@.len() - i,
        {
            let next = match acc.checked_add(&self.lots[i].remaining_amount) {
                Some(s) => s,
                None => RawAmount::zero(),
            };
            proof {
                let pre = models(self.lots@.subrange(0, i as int));
                let post = models(self.lots@.subrange(0, i + 1));
                assert(post.drop_last() =~= pre);
                assert(post.last() == self.lots@[i as int].model());
            }
            acc = next;
            i = i + 1;
        }
        assert(self.lots@.subrange(0, i as int) =~= self.lots@);
        acc
    }

    /// Consumes lots oldest first to cover a disposal of `amount_to_dispose`
    /// for `gross_proceeds` and a `sale_fee` (which reduces the proceeds).
    /// Basis is consumed in proportion to the amount taken from each lot.
    /// Errors (with the ledger as left at that point) when open inventory
    /// is insufficient or checked arithmetic overflows.
    pub fn dispose(
        &mut self,
        amount_to_dispose: RawAmount,
        gross_proceeds: Money,
        sale_fee: Money,
    ) -> (r: Result<DisposalResult, ScoutError>)
        requires
            old(self).wf(),
        ensures
            final(self).wf(),
            final(self).lots().len() == old(self).lots().len(),
            forall|i: int|
                0 <= i < old(self).lots().len() ==> #[trigger] final(self).lots()[i].same_identity(
                    old(self).lots()[i],
                ),
            ({
                let (after, outcome) = dispose_spec(
                    models(old(self).lots()),
                    amount_to_dispose@,
                    gross_proceeds@,
                    sale_fee@,
                );
                &&& models(final(self).lots()) == after
                &&& match outcome {
                    Ok(m) => r matches Ok(d) && d.reports(m),
                    Err(context) => r matches Err(ScoutError::ArithmeticOverflow { context: c })
                        && c@ == context,
                }
            }),
    {
        let ghost start = models(self.lots@);
        assert(start == models(old(self).lots()));
        let net_sale_proceeds = match gross_proceeds.checked_sub(&sale_fee) {
            Ok(m) => m,
            Err(e) => return Err(e),
        };
        let mut remaining = amount_to_dispose;
        let mut consumed = Money::zero();
        let mut all_known = true;
        let n = self.lots.len();
        let mut i: usize = 0;
        while i < n && !remaining.is_zero()
            invariant
                n == self.lots@.len(),
                n == old(self).lots@.len(),
                i <= n,
                self.wf(),
                forall|j: int|
                    0 <= j < n ==> #[trigger] self.lots@[j].same_identity(old(self).lots@[j]),
                fits_i128(gross_proceeds@ - sale_fee@),
                start == models(old(self).lots()),
                fifo_consume(start, 0, amount_to_dispose@, 0, true) == fifo_consume(
                    models(self.lots@),
                    i as nat,
                    remaining@,
                    consumed@,
                    all_known,
                ),
            decreases n - i,
        {
            let lot = self.lots[i].clone();
            if lot.remaining_amount.is_zero() {
                i = i + 1;
                continue;
            }
            let take = if lot.remaining_amount.le(&remaining) {
                lot.remaining_amount
            } else {
                remaining
            };
            assert(models(self.lots@)[i as int] == lot.model());
            let ghost cur = models(self.lots@);
            let lot_basis = match proportional_money(lot.remaining_basis, take, lot.remaining_amount) {
                Ok(b) => b,
                Err(e) => {
                    proof {
                        assert(fifo_consume(cur, i as nat, remaining@, consumed@, all_known)
                            == FifoState::Failed(
                            cur,
                            proportional(lot.remaining_basis@, take@, lot.remaining_amount@)->Err_0,
                        ));
                        assert(dispose_spec(start, amount_to_dispose@, gross_proceeds@, sale_fee@)
                            == (
                            cur,
                            Err::<DisposalModel, Seq<char>>(
                                proportional(
                                    lot.remaining_basis@,
                                    take@,
                                    lot.remaining_amount@,
                                )->Err_0,
                            ),
                        ));
                    }
                    return Err(e);
                },
            };
            consumed = match consumed.checked_add(&lot_basis) {
                Ok(c) => c,
                Err(e) => {
                    proof {
                        assert(fifo_consume(cur, i as nat, remaining@, consumed@, all_known)
                            == FifoState::Failed(cur, "Money::checked_add"@));
                        assert(dispose_spec(start, amount_to_dispose@, gross_proceeds@, sale_fee@)
                            == (cur, Err::<DisposalModel, Seq<char>>("Money::checked_add"@)));
                    }
                    return Err(e);
                },
            };
            if let BasisStatus::Unknown { .. } = lot.basis_status {
                all_known = false;
            }
            let new_remaining = match lot.remaining_amount.checked_sub(&take) {
                Some(a) => a,
                None => {
                    return Err(
                        ScoutError::ArithmeticOverflow {
                            context: "Ledger::dispose remaining_amount underflow",
                        },
                    )
                },
            };
            let mut updated = lot.clone();
            updated.remaining_amount = new_remaining;
            let ghost before = self.lots@;
            self.lots.set(i, updated.clone());
            proof {
                assert forall|j: int| 0 <= j < n implies #[trigger] self.lots@[j].same_identity(
                    old(self).lots@[j],
                ) by {
                    assert(before[j].same_identity(old(self).lots@[j]));
                }
                assert(models(self.lots@) =~= models(before).update(
                    i as int,
                    LotModel { remaining: (lot.remaining_amount@ - take@) as nat, ..lot.model() },
                ));
            }
            let new_basis = match lot.remaining_basis.checked_sub(&lot_basis) {
                Ok(b) => b,
                Err(e) => return Err(e),
            };
            updated.remaining_basis = new_basis;
            let ghost mid = self.lots@;
            self.lots.set(i, updated);
            proof {
                assert forall|j: int| 0 <= j < n implies #[trigger] self.lots@[j].same_identity(
                    old(self).lots@[j],
                ) by {
                    assert(mid[j].same_identity(old(self).lots@[j]));
                }
                assert(models(self.lots@) =~= models(before).update(
                    i as int,
                    LotModel {
                        remaining: (lot.remaining_amount@ - take@) as nat,
                        basis: lot.remaining_basis@ - lot_basis@,
                        known: lot.model().known,
                    },
                ));
            }
            remaining = match remaining.checked_sub(&take) {
                Some(a) => a,
                None => {
                    return Err(
                        ScoutError::ArithmeticOverflow {
                            context: "Ledger::dispose amount_to_dispose underflow",
                        },
                    )
                },
            };
            i = i + 1;
        }
        if !remaining.is_zero() {
            return Err(
                ScoutError::ArithmeticOverflow {
                    context: "Ledger::dispose: insufficient open inventory to cover disposal",
                },
            );
        }
        let realized_trade_pnl = if all_known {
            match net_sale_proceeds.checked_sub(&consumed) {
                Ok(p) => Some(p),
                Err(e) => return Err(e),
            }
        } else {
            None
        };
        Ok(
            DisposalResult {
                net_sale_proceeds,
                consumed_acquisition_basis: consumed,
                realized_trade_pnl,
                all_basis_known: all_known,
            },
        )
    }
}

} // verus!
