//! Properties of the bridge that span operations, proved over the abstract
//! state. The executable operations follow `model`, so each law holds of them.
use crate::error::BridgeError;
use crate::model::{
    after_call, after_calls, Call, OpState, CONTRACT_VERSION,
    cancel_step, execute_set_fee_step, fee_for, fund_step, initialize_step, op_ready,
    propose_step, set_fee_step, set_paused_step, withdraw_step, BridgeView, MAX_FEE_BPS,
};
use crate::token::{balance_of, mint_step, transfer_step};
use vstd::prelude::*;

verus! {

/// Every operation keeps the state valid: the fee stays at most 100%, the
/// accumulated fees never become negative, and nothing is recorded before
/// initialization.
pub proof fn lemma_every_operation_keeps_validity<A>(
    s: BridgeView<A>,
    admin: A,
    fee_bps: u32,
    timelock_delay: u64,
    key: Seq<u8>,
    now: u64,
    paused: bool,
    amount: i128,
)
    requires
        s.valid(),
    ensures
        initialize_step(s, admin, fee_bps, timelock_delay) matches Ok(t) ==> t.valid(),
        propose_step(s, key, now) matches Ok((t, _)) ==> t.valid(),
        cancel_step(s, key) matches Ok(t) ==> t.valid(),
        execute_set_fee_step(s, fee_bps, key, now) matches Ok(t) ==> t.valid(),
        set_fee_step(s, fee_bps) matches Ok(t) ==> t.valid(),
        set_paused_step(s, paused) matches Ok(t) ==> t.valid(),
        fund_step(s, amount) matches Ok((t, _)) ==> t.valid(),
        withdraw_step(s, amount) matches Ok((t, _)) ==> t.valid(),
{
}

/// Every call, successful or refused, keeps an initialized bridge's admin,
/// version and timelock delay.
pub proof fn lemma_call_keeps_configuration<A>(s: BridgeView<A>, c: Call<A>)
    requires
        s.admin is Some,
    ensures
        after_call(s, c).admin == s.admin,
        after_call(s, c).version == s.version,
        after_call(s, c).timelock_delay == s.timelock_delay,
{
}

/// Any sequence of calls keeps an initialized bridge's admin, version and
/// timelock delay.
pub proof fn lemma_calls_keep_configuration<A>(s: BridgeView<A>, calls: Seq<Call<A>>)
    requires
        s.admin is Some,
    ensures
        after_calls(s, calls).admin == s.admin,
        after_calls(s, calls).version == s.version,
        after_calls(s, calls).timelock_delay == s.timelock_delay,
    decreases calls.len(),
{
    if calls.len() > 0 {
        lemma_call_keeps_configuration(s, calls[0]);
        lemma_calls_keep_configuration(after_call(s, calls[0]), calls.drop_first());
    }
}

/// Any sequence of calls keeps the state valid.
pub proof fn lemma_calls_keep_validity<A>(s: BridgeView<A>, calls: Seq<Call<A>>)
    requires
        s.valid(),
    ensures
        after_calls(s, calls).valid(),
    decreases calls.len(),
{
    if calls.len() > 0 {
        let t = after_call(s, calls[0]);
        assert(t.valid()) by {
            match calls[0] {
                Call::Initialize { admin, fee_bps, timelock_delay } => {
                    lemma_every_operation_keeps_validity(s, admin, fee_bps, timelock_delay, Seq::empty(), 0, false, 0);
                },
                Call::Propose { key, now } => {
                    lemma_every_operation_keeps_validity(s, arbitrary(), 0, 0, key, now, false, 0);
                },
                Call::Cancel { key } => {
                    lemma_every_operation_keeps_validity(s, arbitrary(), 0, 0, key, 0, false, 0);
                },
                Call::ExecuteSetFee { new_fee_bps, key, now } => {
                    lemma_every_operation_keeps_validity(s, arbitrary(), new_fee_bps, 0, key, now, false, 0);
                },
                Call::SetFee { new_fee_bps } => {
                    lemma_every_operation_keeps_validity(s, arbitrary(), new_fee_bps, 0, Seq::empty(), 0, false, 0);
                },
                Call::SetPaused { paused } => {
                    lemma_every_operation_keeps_validity(s, arbitrary(), 0, 0, Seq::empty(), 0, paused, 0);
                },
                Call::Fund { amount } => {
                    lemma_every_operation_keeps_validity(s, arbitrary(), 0, 0, Seq::empty(), 0, false, amount);
                },
                Call::Withdraw { amount } => {
                    lemma_every_operation_keeps_validity(s, arbitrary(), 0, 0, Seq::empty(), 0, false, amount);
                },
            }
        }
        lemma_calls_keep_validity(t, calls.drop_first());
    }
}

/// Once `initialize(admin, fee_bps, timelock_delay)` has succeeded, every
/// later state, after any sequence of calls whether they succeed or are
/// refused, has that admin, version 2 and that timelock delay.
pub proof fn lemma_initialization_is_permanent<A>(
    s: BridgeView<A>,
    admin: A,
    fee_bps: u32,
    timelock_delay: u64,
    calls: Seq<Call<A>>,
)
    requires
        initialize_step(s, admin, fee_bps, timelock_delay) is Ok,
    ensures
        ({
            let t = after_calls(initialize_step(s, admin, fee_bps, timelock_delay)->Ok_0, calls);
            &&& t.admin == Some(admin)
            &&& t.version == CONTRACT_VERSION
            &&& t.timelock_delay == timelock_delay
        }),
{
    lemma_calls_keep_configuration(initialize_step(s, admin, fee_bps, timelock_delay)->Ok_0, calls);
}

/// Proposing under `key` succeeds exactly when the bridge is initialized and
/// the ready time fits; it records the operation under `key` as not
/// cancelled and ready `timelock_delay` after `now`, returns that ready
/// time, and leaves every other recorded operation and every other field as
/// it was.
pub proof fn lemma_propose_touches_only_its_key<A>(
    s: BridgeView<A>,
    key: Seq<u8>,
    now: u64,
    other: Seq<u8>,
)
    ensures
        propose_step(s, key, now) is Ok <==> (s.admin is Some && now + s.timelock_delay
            <= u64::MAX),
        propose_step(s, key, now) matches Ok((t, ready_at)) ==> {
            &&& ready_at == now + s.timelock_delay
            &&& t.pending.contains_key(key)
            &&& t.pending[key].ready_at == ready_at
            &&& !t.pending[key].cancelled
            &&& other != key ==> (t.pending.contains_key(other) == s.pending.contains_key(other)
                && t.pending[other] == s.pending[other])
            &&& t.admin == s.admin && t.fee_bps == s.fee_bps && t.accumulated_fees
                == s.accumulated_fees && t.timelock_delay == s.timelock_delay && t.paused
                == s.paused && t.version == s.version
        },
{
}

/// Cancelling `key` succeeds exactly when the bridge is initialized and an
/// operation under `key` is recorded and not cancelled; it marks that
/// operation cancelled with its ready time kept, and leaves every other
/// recorded operation and every other field as it was.
pub proof fn lemma_cancel_touches_only_its_key<A>(s: BridgeView<A>, key: Seq<u8>, other: Seq<u8>)
    ensures
        cancel_step(s, key) is Ok <==> (s.admin is Some && s.pending.contains_key(key)
            && !s.pending[key].cancelled),
        cancel_step(s, key) matches Ok(t) ==> {
            &&& t.pending.contains_key(key)
            &&& t.pending[key].cancelled
            &&& t.pending[key].ready_at == s.pending[key].ready_at
            &&& other != key ==> (t.pending.contains_key(other) == s.pending.contains_key(other)
                && t.pending[other] == s.pending[other])
            &&& t.admin == s.admin && t.fee_bps == s.fee_bps && t.accumulated_fees
                == s.accumulated_fees && t.timelock_delay == s.timelock_delay && t.paused
                == s.paused && t.version == s.version
        },
{
}

/// Whatever a call is, it leaves the record of an operation `key` as it was
/// unless it proposes `key` or cancels `key`: no other call creates,
/// removes or changes it.
pub proof fn lemma_only_propose_and_cancel_change_a_record<A>(
    s: BridgeView<A>,
    c: Call<A>,
    key: Seq<u8>,
)
    requires
        !(c matches Call::Propose { key: k, now: _ } && k == key),
        !(c matches Call::Cancel { key: k } && k == key),
    ensures
        after_call(s, c).pending.contains_key(key) == s.pending.contains_key(key),
        s.pending.contains_key(key) ==> after_call(s, c).pending[key] == s.pending[key],
{
    match c {
        Call::Propose { key: k, now } => {
            lemma_propose_touches_only_its_key(s, k, now, key);
        },
        Call::Cancel { key: k } => {
            lemma_cancel_touches_only_its_key(s, k, key);
        },
        _ => {},
    }
}

/// A cancelled operation stays cancelled, with its ready time, through any
/// sequence of calls that does not propose its identifier again.
pub proof fn lemma_cancelled_stays_cancelled<A>(
    s: BridgeView<A>,
    calls: Seq<Call<A>>,
    key: Seq<u8>,
)
    requires
        s.pending.contains_key(key),
        s.pending[key].cancelled,
        forall|i: int|
            0 <= i < calls.len() ==> !(#[trigger] calls[i] matches Call::Propose { key: k, now: _ }
                && k == key),
    ensures
        after_calls(s, calls).pending.contains_key(key),
        after_calls(s, calls).pending[key] == s.pending[key],
    decreases calls.len(),
{
    if calls.len() > 0 {
        let c = calls[0];
        let t = after_call(s, c);
        match c {
            Call::Cancel { key: k } => {
                lemma_cancel_touches_only_its_key(s, k, key);
            },
            _ => {
                lemma_only_propose_and_cancel_change_a_record(s, c, key);
            },
        }
        assert forall|i: int|
            0 <= i < calls.drop_first().len() implies !(#[trigger] calls.drop_first()[i] matches Call::Propose {
                key: k,
                now: _,
            } && k == key) by {
            assert(calls.drop_first()[i] == calls[i + 1]);
        }
        lemma_cancelled_stays_cancelled(t, calls.drop_first(), key);
    }
}

/// Withdrawing succeeds on an initialized bridge for any amount up to the
/// accumulated fees, the whole of them included; it returns the amount
/// (all accumulated fees for zero) and lowers the accumulated fees by it.
/// It is refused as insufficient exactly when more is asked than has
/// accumulated.
pub proof fn lemma_withdraw_succeeds_up_to_accumulated<A>(s: BridgeView<A>, amount: i128)
    requires
        s.valid(),
    ensures
        s.admin is Some && 0 < amount <= s.accumulated_fees ==> (withdraw_step(s, amount) matches Ok(
            (t, w),
        ) && w == amount && t.accumulated_fees == s.accumulated_fees - amount),
        s.admin is Some && amount == 0 ==> (withdraw_step(s, amount) matches Ok((t, w)) && w
            == s.accumulated_fees && t.accumulated_fees == 0),
        withdraw_step(s, amount) == Err::<(BridgeView<A>, i128), BridgeError>(
            BridgeError::InsufficientFees,
        ) <==> (s.admin is Some && amount != 0 && amount > s.accumulated_fees),
        withdraw_step(s, amount) matches Ok((t, _)) ==> t.admin == s.admin && t.fee_bps
            == s.fee_bps && t.timelock_delay == s.timelock_delay && t.paused == s.paused
            && t.version == s.version && t.pending == s.pending,
{
}

/// Setting the fee on an initialized bridge to any fee up to 100% succeeds
/// and the fee is then exactly the one requested, higher or lower than
/// before; nothing else changes. A fee above 100% is refused.
pub proof fn lemma_set_fee_sets_requested_fee<A>(s: BridgeView<A>, new_fee_bps: u32)
    requires
        s.admin is Some,
    ensures
        new_fee_bps <= MAX_FEE_BPS ==> (set_fee_step(s, new_fee_bps) matches Ok(t)
            && t.fee_bps == new_fee_bps && t.admin == s.admin && t.accumulated_fees
            == s.accumulated_fees && t.timelock_delay == s.timelock_delay && t.paused == s.paused
            && t.version == s.version && t.pending == s.pending),
        new_fee_bps > MAX_FEE_BPS ==> set_fee_step(s, new_fee_bps) == Err::<
            BridgeView<A>,
            BridgeError,
        >(BridgeError::FeeTooHigh),
{
}

/// Executing a ready fee change sets the fee to exactly the requested one and
/// leaves the operation recorded as it was.
pub proof fn lemma_execute_sets_requested_fee<A>(
    s: BridgeView<A>,
    new_fee_bps: u32,
    key: Seq<u8>,
    now: u64,
)
    requires
        s.admin is Some,
        new_fee_bps <= MAX_FEE_BPS,
        s.pending.contains_key(key),
        !s.pending[key].cancelled,
        s.pending[key].ready_at <= now,
    ensures
        execute_set_fee_step(s, new_fee_bps, key, now) matches Ok(t) && t.fee_bps == new_fee_bps
            && t.pending == s.pending && t.admin == s.admin && t.accumulated_fees
            == s.accumulated_fees && t.paused == s.paused,
{
}

/// On an initialized bridge, pausing and unpausing always succeed and leave
/// the bridge paused, respectively running, whatever it was before; nothing
/// else changes. Both are idempotent.
pub proof fn lemma_pause_state_is_what_was_asked<A>(s: BridgeView<A>, paused: bool)
    requires
        s.admin is Some,
    ensures
        set_paused_step(s, paused) matches Ok(t) && t.paused == paused && t.admin == s.admin
            && t.fee_bps == s.fee_bps && t.accumulated_fees == s.accumulated_fees
            && t.timelock_delay == s.timelock_delay && t.version == s.version && t.pending
            == s.pending,
        set_paused_step(s, paused) matches Ok(t) && set_paused_step(t, paused) == Ok::<
            BridgeView<A>,
            BridgeError,
        >(t),
{
}

/// Funding is refused as paused exactly when the bridge is paused. When it
/// succeeds, the fee it returns is `amount * fee_bps / 10000` rounded toward
/// zero (for a non-negative amount: the largest fee whose 10000-fold does
/// not exceed `amount * fee_bps`), the accumulated fees grow by a positive
/// fee and are untouched by any other, and nothing else changes. It
/// succeeds whenever the bridge runs and a non-negative amount, its product
/// with the fee, and its sum with the accumulated fees all fit.
pub proof fn lemma_fund_charges_the_fee<A>(s: BridgeView<A>, amount: i128)
    requires
        s.valid(),
    ensures
        fund_step(s, amount) == Err::<(BridgeView<A>, i128), BridgeError>(
            BridgeError::ContractPaused,
        ) <==> s.paused,
        fund_step(s, amount) matches Ok((t, fee)) ==> {
            &&& amount >= 0 ==> fee * 10000 <= amount * s.fee_bps < fee * 10000 + 10000
            &&& amount < 0 ==> fee * 10000 - 10000 < amount * s.fee_bps <= fee * 10000
            &&& t.accumulated_fees == s.accumulated_fees + if fee > 0 {
                fee as int
            } else {
                0
            }
            &&& t.admin == s.admin && t.fee_bps == s.fee_bps && t.timelock_delay
                == s.timelock_delay && t.paused == s.paused && t.version == s.version
                && t.pending == s.pending
        },
        !s.paused && 0 <= amount && amount * s.fee_bps <= i128::MAX && s.accumulated_fees
            + amount <= i128::MAX ==> fund_step(s, amount) is Ok,
{
    lemma_fee_within_amount(s.fee_bps, amount);
    let p = amount * s.fee_bps;
    let f = fee_for(s.fee_bps, amount);
    if amount >= 0 {
        assert(0 <= p) by (nonlinear_arith)
            requires
                0 <= amount,
                p == amount * s.fee_bps,
        ;
    } else {
        assert(p <= 0) by (nonlinear_arith)
            requires
                amount < 0,
                p == amount * s.fee_bps,
        ;
    }
    if s.fee_bps > 0 {
        if p >= 0 {
            assert(f == p / 10000);
            assert(f * 10000 <= p < f * 10000 + 10000);
        } else {
            assert(f == -((-p) / 10000));
            assert(f * 10000 - 10000 < p <= f * 10000);
        }
    } else {
        assert(p == 0) by (nonlinear_arith)
            requires
                s.fee_bps == 0,
                p == amount * s.fee_bps,
        ;
        assert(f == 0);
    }
    assert(amount >= 0 ==> f * 10000 <= p < f * 10000 + 10000);
    assert(amount < 0 ==> f * 10000 - 10000 < p <= f * 10000);
}

/// Initializing a bridge that has no admin with a fee up to 100% succeeds
/// and records exactly the given admin, fee and delay, at version 2, running
/// and with no fees accumulated; a fee above 100% is refused.
pub proof fn lemma_initialize_records_arguments<A>(
    s: BridgeView<A>,
    admin: A,
    fee_bps: u32,
    timelock_delay: u64,
)
    requires
        s.admin is None,
    ensures
        fee_bps <= MAX_FEE_BPS ==> (initialize_step(s, admin, fee_bps, timelock_delay) matches Ok(
            t,
        ) && t.admin == Some(admin) && t.fee_bps == fee_bps && t.timelock_delay == timelock_delay
            && t.version == CONTRACT_VERSION && !t.paused && t.accumulated_fees == 0
            && t.pending == s.pending),
        fee_bps > MAX_FEE_BPS ==> initialize_step(s, admin, fee_bps, timelock_delay) == Err::<
            BridgeView<A>,
            BridgeError,
        >(BridgeError::FeeTooHigh),
{
}

/// Executing a fee change succeeds exactly when the bridge is initialized,
/// the fee is at most 100%, and the operation is recorded, not cancelled and
/// ready at `now`.
pub proof fn lemma_execute_succeeds_exactly_when_ready<A>(
    s: BridgeView<A>,
    new_fee_bps: u32,
    key: Seq<u8>,
    now: u64,
)
    ensures
        execute_set_fee_step(s, new_fee_bps, key, now) is Ok <==> (s.admin is Some && new_fee_bps
            <= MAX_FEE_BPS && s.pending.contains_key(key) && !s.pending[key].cancelled
            && s.pending[key].ready_at <= now),
{
}

/// A bridge is initialized at most once: after a successful `initialize`,
/// every further `initialize` is refused as already initialized.
pub proof fn lemma_initialize_only_once<A>(
    s: BridgeView<A>,
    admin: A,
    fee_bps: u32,
    timelock_delay: u64,
    admin2: A,
    fee_bps2: u32,
    timelock_delay2: u64,
)
    requires
        initialize_step(s, admin, fee_bps, timelock_delay) is Ok,
    ensures
        initialize_step(
            initialize_step(s, admin, fee_bps, timelock_delay)->Ok_0,
            admin2,
            fee_bps2,
            timelock_delay2,
        ) == Err::<BridgeView<A>, BridgeError>(BridgeError::AlreadyInitialized),
{
}

/// Before initialization every administrative operation is refused as not
/// initialized, and funding succeeds, charges nothing and changes nothing.
pub proof fn lemma_uninitialized_bridge<A>(
    s: BridgeView<A>,
    key: Seq<u8>,
    now: u64,
    fee_bps: u32,
    paused: bool,
    amount: i128,
)
    requires
        s.valid(),
        s.admin is None,
    ensures
        propose_step(s, key, now) == Err::<(BridgeView<A>, u64), BridgeError>(
            BridgeError::NotInitialized,
        ),
        cancel_step(s, key) == Err::<BridgeView<A>, BridgeError>(BridgeError::NotInitialized),
        execute_set_fee_step(s, fee_bps, key, now) == Err::<BridgeView<A>, BridgeError>(
            BridgeError::NotInitialized,
        ),
        set_fee_step(s, fee_bps) == Err::<BridgeView<A>, BridgeError>(BridgeError::NotInitialized),
        set_paused_step(s, paused) == Err::<BridgeView<A>, BridgeError>(
            BridgeError::NotInitialized,
        ),
        withdraw_step(s, amount) == Err::<(BridgeView<A>, i128), BridgeError>(
            BridgeError::NotInitialized,
        ),
        fund_step(s, amount) == Ok::<(BridgeView<A>, i128), BridgeError>((s, 0i128)),
{
}

/// A proposed operation becomes ready exactly `timelock_delay` after it was
/// proposed, and is then executable whatever was recorded under its
/// identifier before (a cancelled proposal is replaced): executing a fee
/// change at `later` is refused as not elapsed before the ready time and
/// sets the fee from it on.
pub proof fn lemma_propose_then_execute<A>(
    s: BridgeView<A>,
    key: Seq<u8>,
    now: u64,
    new_fee_bps: u32,
    later: u64,
)
    requires
        propose_step(s, key, now) is Ok,
        new_fee_bps <= MAX_FEE_BPS,
    ensures
        ({
            let (t, ready_at) = propose_step(s, key, now)->Ok_0;
            &&& ready_at == now + s.timelock_delay
            &&& op_ready(t, key, later) == if later < ready_at {
                Err(BridgeError::TimelockNotElapsed)
            } else {
                Ok(())
            }
            &&& execute_set_fee_step(t, new_fee_bps, key, later) == if later < ready_at {
                Err(BridgeError::TimelockNotElapsed)
            } else {
                Ok(BridgeView { fee_bps: new_fee_bps, ..t })
            }
        }),
{
}

/// A cancelled operation can neither be cancelled again nor executed, and
/// keeps its ready time.
pub proof fn lemma_cancel_blocks_execution<A>(
    s: BridgeView<A>,
    key: Seq<u8>,
    now: u64,
    new_fee_bps: u32,
)
    requires
        cancel_step(s, key) is Ok,
        new_fee_bps <= MAX_FEE_BPS,
    ensures
        ({
            let t = cancel_step(s, key)->Ok_0;
            &&& t.pending[key].ready_at == s.pending[key].ready_at
            &&& cancel_step(t, key) == Err::<BridgeView<A>, BridgeError>(
                BridgeError::AlreadyCancelled,
            )
            &&& op_ready(t, key, now) == Err::<(), BridgeError>(BridgeError::OpCancelled)
            &&& execute_set_fee_step(t, new_fee_bps, key, now) == Err::<
                BridgeView<A>,
                BridgeError,
            >(BridgeError::OpCancelled)
        }),
{
}

/// While paused, funding is refused; unpausing undoes pausing.
pub proof fn lemma_pause_unpause<A>(s: BridgeView<A>, amount: i128)
    requires
        s.admin is Some,
    ensures
        ({
            let p = set_paused_step(s, true)->Ok_0;
            &&& set_paused_step(s, true) is Ok
            &&& p.paused
            &&& fund_step(p, amount) == Err::<(BridgeView<A>, i128), BridgeError>(
                BridgeError::ContractPaused,
            )
            &&& set_paused_step(p, false) == Ok::<BridgeView<A>, BridgeError>(
                BridgeView { paused: false, ..s },
            )
            &&& !s.paused ==> set_paused_step(p, false) == Ok::<BridgeView<A>, BridgeError>(s)
        }),
{
}

/// The fee on an amount is never more than the amount: between zero and the
/// amount for a non-negative amount, between the amount and zero otherwise.
pub proof fn lemma_fee_within_amount(fee_bps: u32, amount: i128)
    requires
        fee_bps <= MAX_FEE_BPS,
    ensures
        amount >= 0 ==> 0 <= fee_for(fee_bps, amount) <= amount,
        amount < 0 ==> amount <= fee_for(fee_bps, amount) <= 0,
{
    if fee_bps > 0 {
        let p = amount * fee_bps;
        if amount >= 0 {
            assert(0 <= p <= amount * 10000) by (nonlinear_arith)
                requires
                    amount >= 0,
                    0 < fee_bps <= 10000,
                    p == amount * fee_bps,
            ;
        } else {
            assert(amount * 10000 <= p < 0) by (nonlinear_arith)
                requires
                    amount < 0,
                    0 < fee_bps <= 10000,
                    p == amount * fee_bps,
            ;
        }
    }
}

/// Funding adds the fee to the accumulated fees when the fee is positive,
/// and withdrawing with amount zero then takes out everything accumulated.
pub proof fn lemma_fund_then_withdraw_all<A>(s: BridgeView<A>, amount: i128)
    requires
        s.valid(),
        s.admin is Some,
        fund_step(s, amount) is Ok,
    ensures
        ({
            let (t, fee) = fund_step(s, amount)->Ok_0;
            &&& t.accumulated_fees == s.accumulated_fees + if fee > 0 {
                fee as int
            } else {
                0
            }
            &&& withdraw_step(t, 0) == Ok::<(BridgeView<A>, i128), BridgeError>(
                (BridgeView { accumulated_fees: 0, ..t }, t.accumulated_fees),
            )
        }),
{
}

/// A withdrawal takes out exactly what it returns, and never leaves the
/// accumulated fees negative.
pub proof fn lemma_withdraw_accounting<A>(s: BridgeView<A>, amount: i128)
    requires
        s.valid(),
        withdraw_step(s, amount) is Ok,
    ensures
        ({
            let (t, withdrawn) = withdraw_step(s, amount)->Ok_0;
            &&& t.accumulated_fees + withdrawn == s.accumulated_fees
            &&& t.accumulated_fees >= 0
            &&& amount == 0 ==> t.accumulated_fees == 0
        }),
{
}

/// Minting credits exactly the minted amount to the recipient and leaves
/// every other balance as it was.
pub proof fn lemma_mint_credits(m: Map<Seq<char>, i128>, to: Seq<char>, amount: i128, other: Seq<char>)
    requires
        mint_step(m, to, amount) is Some,
    ensures
        balance_of(mint_step(m, to, amount)->Some_0, to) == balance_of(m, to) + amount,
        other != to ==> balance_of(mint_step(m, to, amount)->Some_0, other) == balance_of(m, other),
{
}

/// A transfer between two distinct accounts moves the amount from one to the
/// other: their total is unchanged, and every other balance is too.
pub proof fn lemma_transfer_conserves(
    m: Map<Seq<char>, i128>,
    from: Seq<char>,
    to: Seq<char>,
    amount: i128,
    other: Seq<char>,
)
    requires
        from != to,
        transfer_step(m, from, to, amount) is Some,
    ensures
        ({
            let n = transfer_step(m, from, to, amount)->Some_0;
            &&& balance_of(n, from) == balance_of(m, from) - amount
            &&& balance_of(n, to) == balance_of(m, to) + amount
            &&& balance_of(n, from) + balance_of(n, to) == balance_of(m, from) + balance_of(m, to)
            &&& other != from && other != to ==> balance_of(n, other) == balance_of(m, other)
        }),
{
}

/// A transfer from an account to itself credits it with the amount: the
/// later write of the recipient's balance replaces the sender's.
pub proof fn lemma_self_transfer_credits(m: Map<Seq<char>, i128>, account: Seq<char>, amount: i128)
    requires
        transfer_step(m, account, account, amount) is Some,
    ensures
        balance_of(transfer_step(m, account, account, amount)->Some_0, account) == balance_of(
            m,
            account,
        ) + amount,
{
}

} // verus!
