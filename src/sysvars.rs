//! Integer parts of the fee and rent sysvars.
use vstd::prelude::*;

verus! {

pub const DEFAULT_TICKS_PER_SLOT: u64 = 64;

pub const DEFAULT_TICKS_PER_SECOND: u64 = 160;

pub const DEFAULT_MS_PER_SLOT: u64 = 1_000 * DEFAULT_TICKS_PER_SLOT / DEFAULT_TICKS_PER_SECOND;

pub const DEFAULT_TARGET_LAMPORTS_PER_SIGNATURE: u64 = 10_000;

pub const DEFAULT_TARGET_SIGNATURES_PER_SLOT: u64 = 50 * DEFAULT_MS_PER_SLOT;

pub const DEFAULT_BURN_PERCENT: u8 = 50;

/// The cluster's clock.
#[derive(Clone, Copy, Debug, Default)]
pub struct Clock {
    pub slot: u64,
    pub epoch_start_timestamp: i64,
    pub epoch: u64,
    pub leader_schedule_epoch: u64,
    pub unix_timestamp: i64,
}

/// Fee charged per signature.
#[derive(Clone, Copy, Debug)]
pub struct FeeCalculator {
    pub lamports_per_signature: u64,
}

impl FeeCalculator {
    pub fn new(lamports_per_signature: u64) -> (r: Self)
        ensures
            r.lamports_per_signature == lamports_per_signature,
    {
        Self { lamports_per_signature }
    }
}

/// Parameters of the fee schedule.
#[derive(Clone, Copy, Debug)]
pub struct FeeRateGovernor {
    pub lamports_per_signature: u64,
    pub target_lamports_per_signature: u64,
    pub target_signatures_per_slot: u64,
    pub min_lamports_per_signature: u64,
    pub max_lamports_per_signature: u64,
    pub burn_percent: u8,
}

impl Default for FeeRateGovernor {
    fn default() -> (r: Self)
        ensures
            r.lamports_per_signature == 0,
            r.target_lamports_per_signature == DEFAULT_TARGET_LAMPORTS_PER_SIGNATURE,
            r.target_signatures_per_slot == DEFAULT_TARGET_SIGNATURES_PER_SLOT,
            r.min_lamports_per_signature == 0,
            r.max_lamports_per_signature == 0,
            r.burn_percent == DEFAULT_BURN_PERCENT,
    {
        Self {
            lamports_per_signature: 0,
            target_lamports_per_signature: DEFAULT_TARGET_LAMPORTS_PER_SIGNATURE,
            target_signatures_per_slot: DEFAULT_TARGET_SIGNATURES_PER_SLOT,
            min_lamports_per_signature: 0,
            max_lamports_per_signature: 0,
            burn_percent: DEFAULT_BURN_PERCENT,
        }
    }
}

impl FeeRateGovernor {
    /// A calculator charging the current fee per signature.
    pub fn create_fee_calculator(&self) -> (r: FeeCalculator)
        ensures
            r.lamports_per_signature == self.lamports_per_signature,
    {
        FeeCalculator::new(self.lamports_per_signature)
    }

    /// Splits `fees` into the part kept and the part burned, which is
    /// `burn_percent` percent of it, rounded down.
    pub fn burn(&self, fees: u64) -> (r: (u64, u64))
        requires
            self.burn_percent <= 100,
            fees * self.burn_percent <= u64::MAX,
        ensures
            r.1 == fees * self.burn_percent / 100,
            r.0 == fees - r.1,
    {
        let burned = fees * (self.burn_percent as u64) / 100;
        assert(burned <= fees) by (nonlinear_arith)
            requires
                burned == fees * (self.burn_percent as u64) / 100,
                self.burn_percent <= 100;
        (fees - burned, burned)
    }
}

/// The fee sysvar.
#[derive(Clone, Copy, Debug)]
pub struct Fees {
    pub fee_calculator: FeeCalculator,
    pub fee_rate_governor: FeeRateGovernor,
}

impl Fees {
    pub fn new(fee_calculator: FeeCalculator, fee_rate_governor: FeeRateGovernor) -> (r: Self)
        ensures
            r.fee_calculator == fee_calculator,
            r.fee_rate_governor == fee_rate_governor,
    {
        Self { fee_calculator, fee_rate_governor }
    }
}

/// Rent owed by an account.
#[derive(Clone, Copy, Debug, PartialEq, Eq, Structural)]
pub enum RentDue {
    /// The account holds enough to be exempt.
    Exempt,
    /// The account owes this many lamports.
    Paying(u64),
}

impl RentDue {
    /// Lamports owed; none when exempt.
    pub fn lamports(&self) -> (r: u64)
        ensures
            r == match *self {
                RentDue::Exempt => 0,
                RentDue::Paying(x) => x,
            },
    {
        match self {
            RentDue::Exempt => 0,
            RentDue::Paying(x) => *x,
        }
    }

    /// The account is exempt.
    pub fn is_exempt(&self) -> (r: bool)
        ensures
            r == (*self is Exempt),
    {
        match self {
            RentDue::Exempt => true,
            RentDue::Paying(_) => false,
        }
    }
}

} // verus!
