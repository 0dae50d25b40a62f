//! The abstract state of the bridge and the effect of each operation on it.
//!
//! Every operation is a function from the state (and its arguments) to
//! either a new state with a result, or a refusal. The executable
//! operations of `OnboardingBridge` are proved to follow these functions.
use crate::error::BridgeError;
use vstd::prelude::*;

verus! {

/// Fees are stated in basis points; 10000 basis points are 100%.
pub const MAX_FEE_BPS: u32 = 10000;

/// The version that an initialized bridge reports.
pub const CONTRACT_VERSION: u32 = 2;

/// What the bridge records of a proposed operation.
pub struct OpState {
    /// The ledger time from which the operation may be executed.
    pub ready_at: u64,
    /// Whether the admin cancelled the operation.
    pub cancelled: bool,
}

/// The abstract state of the bridge. `A` is the type of account addresses.
pub struct BridgeView<A> {
    pub admin: Option<A>,
    pub fee_bps: u32,
    pub accumulated_fees: i128,
    pub timelock_delay: u64,
    pub paused: bool,
    pub version: u32,
    /// Proposed operations, by identifier.
    pub pending: Map<Seq<u8>, OpState>,
}

impl<A> BridgeView<A> {
    /// What holds of every reachable state: the fee is at most 100%, the
    /// accumulated fees are never negative, and before initialization
    /// nothing has been recorded.
    pub open spec fn valid(self) -> bool {
        &&& self.fee_bps <= MAX_FEE_BPS
        &&& self.accumulated_fees >= 0
        &&& self.admin is None ==> self.is_blank()
        &&& self.admin is Some ==> self.version == CONTRACT_VERSION
    }

    /// The state of a bridge that was never initialized.
    pub open spec fn is_blank(self) -> bool {
        &&& self.fee_bps == 0
        &&& self.accumulated_fees == 0
        &&& self.timelock_delay == 0
        &&& !self.paused
        &&& self.version == 0
        &&& self.pending == Map::<Seq<u8>, OpState>::empty()
    }
}

/// `initialize`: records the admin, the fee and the timelock delay, once.
pub open spec fn initialize_step<A>(
    s: BridgeView<A>,
    admin: A,
    fee_bps: u32,
    timelock_delay: u64,
) -> Result<BridgeView<A>, BridgeError> {
    if s.admin is Some {
        Err(BridgeError::AlreadyInitialized)
    } else if fee_bps > MAX_FEE_BPS {
        Err(BridgeError::FeeTooHigh)
    } else {
        Ok(BridgeView {
            admin: Some(admin),
            fee_bps,
            accumulated_fees: 0,
            timelock_delay,
            paused: false,
            version: CONTRACT_VERSION,
            pending: s.pending,
        })
    }
}

/// Proposing an operation: it becomes ready `timelock_delay` after `now`
/// and is recorded as not cancelled, replacing any earlier proposal under
/// the same identifier. The result is the ready time.
pub open spec fn propose_step<A>(s: BridgeView<A>, key: Seq<u8>, now: u64) -> Result<
    (BridgeView<A>, u64),
    BridgeError,
> {
    if s.admin is None {
        Err(BridgeError::NotInitialized)
    } else if now + s.timelock_delay > u64::MAX {
        Err(BridgeError::ArithmeticOverflow)
    } else {
        let ready_at = (now + s.timelock_delay) as u64;
        Ok(
            (
                BridgeView {
                    pending: s.pending.insert(key, OpState { ready_at, cancelled: false }),
                    ..s
                },
                ready_at,
            ),
        )
    }
}

/// `cancel_op`: marks a proposed operation as cancelled.
pub open spec fn cancel_step<A>(s: BridgeView<A>, key: Seq<u8>) -> Result<
    BridgeView<A>,
    BridgeError,
> {
    if s.admin is None {
        Err(BridgeError::NotInitialized)
    } else if !s.pending.contains_key(key) {
        Err(BridgeError::OpNotFound)
    } else if s.pending[key].cancelled {
        Err(BridgeError::AlreadyCancelled)
    } else {
        Ok(
            BridgeView {
                pending: s.pending.insert(
                    key,
                    OpState { ready_at: s.pending[key].ready_at, cancelled: true },
                ),
                ..s
            },
        )
    }
}

/// Whether the operation under `key` may be executed at time `now`.
pub open spec fn op_ready<A>(s: BridgeView<A>, key: Seq<u8>, now: u64) -> Result<(), BridgeError> {
    if !s.pending.contains_key(key) {
        Err(BridgeError::OpNotFound)
    } else if s.pending[key].cancelled {
        Err(BridgeError::OpCancelled)
    } else if now < s.pending[key].ready_at {
        Err(BridgeError::TimelockNotElapsed)
    } else {
        Ok(())
    }
}

/// `execute_set_fee`: sets the fee once the operation under `key` is ready.
/// The operation stays recorded as it was.
pub open spec fn execute_set_fee_step<A>(
    s: BridgeView<A>,
    new_fee_bps: u32,
    key: Seq<u8>,
    now: u64,
) -> Result<BridgeView<A>, BridgeError> {
    if s.admin is None {
        Err(BridgeError::NotInitialized)
    } else if new_fee_bps > MAX_FEE_BPS {
        Err(BridgeError::FeeTooHigh)
    } else if op_ready(s, key, now) is Err {
        Err(op_ready(s, key, now)->Err_0)
    } else {
        Ok(BridgeView { fee_bps: new_fee_bps, ..s })
    }
}

/// `set_fee`: sets the fee without a timelock.
pub open spec fn set_fee_step<A>(s: BridgeView<A>, new_fee_bps: u32) -> Result<
    BridgeView<A>,
    BridgeError,
> {
    if s.admin is None {
        Err(BridgeError::NotInitialized)
    } else if new_fee_bps > MAX_FEE_BPS {
        Err(BridgeError::FeeTooHigh)
    } else {
        Ok(BridgeView { fee_bps: new_fee_bps, ..s })
    }
}

/// `pause` (with `true`) and `unpause` (with `false`).
pub open spec fn set_paused_step<A>(s: BridgeView<A>, paused: bool) -> Result<
    BridgeView<A>,
    BridgeError,
> {
    if s.admin is None {
        Err(BridgeError::NotInitialized)
    } else {
        Ok(BridgeView { paused, ..s })
    }
}

/// Integer division rounding toward zero, as Rust divides signed integers.
pub open spec fn div_toward_zero(x: int, d: int) -> int {
    if x >= 0 {
        x / d
    } else {
        -((-x) / d)
    }
}

/// The fee charged on `amount`: `amount * fee_bps / 10000`, rounded toward
/// zero, and nothing when the fee is zero.
pub open spec fn fee_for(fee_bps: u32, amount: i128) -> int {
    if fee_bps > 0 {
        div_toward_zero(amount * fee_bps, MAX_FEE_BPS as int)
    } else {
        0
    }
}

/// `fund_c_address`: charges the fee on `amount`, adds a positive fee to the
/// accumulated fees, and returns the fee.
pub open spec fn fund_step<A>(s: BridgeView<A>, amount: i128) -> Result<
    (BridgeView<A>, i128),
    BridgeError,
> {
    if s.paused {
        Err(BridgeError::ContractPaused)
    } else if s.fee_bps > 0 && (amount * s.fee_bps > i128::MAX || amount * s.fee_bps
        < i128::MIN) {
        Err(BridgeError::ArithmeticOverflow)
    } else if fee_for(s.fee_bps, amount) > 0 {
        if s.accumulated_fees + fee_for(s.fee_bps, amount) > i128::MAX {
            Err(BridgeError::ArithmeticOverflow)
        } else {
            Ok(
                (
                    BridgeView {
                        accumulated_fees: (s.accumulated_fees + fee_for(
                            s.fee_bps,
                            amount,
                        )) as i128,
                        ..s
                    },
                    fee_for(s.fee_bps, amount) as i128,
                ),
            )
        }
    } else {
        Ok((s, fee_for(s.fee_bps, amount) as i128))
    }
}

/// The amount that `withdraw_fees` takes out: all accumulated fees when
/// `amount` is zero, else `amount`.
pub open spec fn withdrawal_amount<A>(s: BridgeView<A>, amount: i128) -> i128 {
    if amount == 0 {
        s.accumulated_fees
    } else {
        amount
    }
}

/// `withdraw_fees`: takes the withdrawal amount out of the accumulated fees
/// and returns it.
pub open spec fn withdraw_step<A>(s: BridgeView<A>, amount: i128) -> Result<
    (BridgeView<A>, i128),
    BridgeError,
> {
    let w = withdrawal_amount(s, amount);
    if s.admin is None {
        Err(BridgeError::NotInitialized)
    } else if w > s.accumulated_fees {
        Err(BridgeError::InsufficientFees)
    } else if s.accumulated_fees - w > i128::MAX {
        Err(BridgeError::ArithmeticOverflow)
    } else {
        Ok((BridgeView { accumulated_fees: (s.accumulated_fees - w) as i128, ..s }, w))
    }
}

/// A call of one of the bridge's state-changing operations, with its
/// arguments. `propose_op` and `propose_set_fee` are both `Propose`;
/// `route_from_exchange` is `Fund`; the other operations only read.
pub enum Call<A> {
    Initialize { admin: A, fee_bps: u32, timelock_delay: u64 },
    Propose { key: Seq<u8>, now: u64 },
    Cancel { key: Seq<u8> },
    ExecuteSetFee { new_fee_bps: u32, key: Seq<u8>, now: u64 },
    SetFee { new_fee_bps: u32 },
    SetPaused { paused: bool },
    Fund { amount: i128 },
    Withdraw { amount: i128 },
}

/// The state after a call: the new state when the call succeeds, the same
/// state when it is refused.
pub open spec fn after_call<A>(s: BridgeView<A>, c: Call<A>) -> BridgeView<A> {
    match c {
        Call::Initialize { admin, fee_bps, timelock_delay } => match initialize_step(
            s,
            admin,
            fee_bps,
            timelock_delay,
        ) {
            Ok(t) => t,
            Err(_) => s,
        },
        Call::Propose { key, now } => match propose_step(s, key, now) {
            Ok((t, _)) => t,
            Err(_) => s,
        },
        Call::Cancel { key } => match cancel_step(s, key) {
            Ok(t) => t,
            Err(_) => s,
        },
        Call::ExecuteSetFee { new_fee_bps, key, now } => match execute_set_fee_step(
            s,
            new_fee_bps,
            key,
            now,
        ) {
            Ok(t) => t,
            Err(_) => s,
        },
        Call::SetFee { new_fee_bps } => match set_fee_step(s, new_fee_bps) {
            Ok(t) => t,
            Err(_) => s,
        },
        Call::SetPaused { paused } => match set_paused_step(s, paused) {
            Ok(t) => t,
            Err(_) => s,
        },
        Call::Fund { amount } => match fund_step(s, amount) {
            Ok((t, _)) => t,
            Err(_) => s,
        },
        Call::Withdraw { amount } => match withdraw_step(s, amount) {
            Ok((t, _)) => t,
            Err(_) => s,
        },
    }
}

/// The state after a sequence of calls, made in order.
pub open spec fn after_calls<A>(s: BridgeView<A>, calls: Seq<Call<A>>) -> BridgeView<A>
    decreases calls.len(),
{
    if calls.len() == 0 {
        s
    } else {
        after_calls(after_call(s, calls[0]), calls.drop_first())
    }
}

} // verus!
