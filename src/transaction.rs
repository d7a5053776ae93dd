//! Transactions: validation, the up-front payment, running the frames, and
//! the settlement of gas between sender, miner and burn.
use vstd::prelude::*;
use crate::backend::Backend;
use crate::errors::{ExitError, ExitFatal, ExitReason, ExitSucceed};
use crate::gas::{capped_refund, intrinsic_total, settle_gas};
use crate::lifecycle::{basic_of, transfer};
use crate::machine::{Context, Machine, MachineStatus, MAX_CODE_LEN, MAX_FRAME_GAS};
use crate::patch::Patch;
use crate::precompiled::{gas_and_step, precompile_at, MAX_PRECOMPILE_INPUT};
use crate::substate::{Address, Basic, MemoryStackSubstate, Metadata, AccountRecord, LayerView, with_top, known_account_of, committed};
use crate::u256::{U256, word_modulus};

verus! {

/// What a transaction does: call an account, or create one from its input as init code.
#[derive(Clone, Copy, PartialEq, Eq, Debug, Structural)]
pub enum TransactionAction {
    Call(Address),
    Create,
}

/// A transaction.
pub struct Transaction {
    pub caller: Address,
    pub action: TransactionAction,
    pub value: U256,
    pub gas_price: U256,
    pub gas_limit: u64,
    pub input: Vec<u8>,
    pub nonce: U256,
}

/// Why a transaction is refused before it runs.
#[derive(Clone, Copy, PartialEq, Eq, Debug, Structural)]
pub enum PreExecutionError {
    InvalidNonce,
    InsufficientBalance,
    InsufficientGasLimit,
    GasLimitTooHigh,
    GasPriceBelowBaseFee,
}

/// What a transaction came to.
pub struct ExecutionResult {
    pub exit_reason: ExitReason,
    pub gas_used: u64,
    pub gas_returned: u64,
    pub gas_refunded: u64,
    pub output: Vec<u8>,
    /// How the gas was paid out.
    pub settlement: Settlement,
    /// The rounds of the frame loop that ran.
    pub rounds: u64,
    /// Whether the round cap ended the transaction before its outermost frame did.
    pub interrupted: bool,
    /// The changes to apply to the world state, in one layer.
    pub state: MemoryStackSubstate,
}

/// How the gas of a finished transaction is paid out.
#[derive(Clone, Copy, PartialEq, Eq, Debug, Structural)]
pub struct Settlement {
    pub gas_used: u64,
    pub gas_returned: u64,
    /// Paid back to the sender for the gas returned.
    pub sender_credit: U256,
    /// Paid to the block's miner for the gas used, net of the base fee.
    pub miner_credit: U256,
    /// The base fee of the gas used, which nobody receives.
    pub burned: U256,
}

/// The largest gas limit a transaction may carry.
pub const MAX_TRANSACTION_GAS: u64 = 0x1_0000_0000_0000;

/// Why a transaction is refused before it runs, if it is: checked in this
/// order, the nonce, the gas limit's machine bound, the price against the
/// base fee, the balance for the value and the whole gas limit, and the gas
/// limit against the intrinsic gas.
pub open spec fn refusal(patch: Patch, tx: Transaction, sender: Basic, base_fee: U256) -> Option<PreExecutionError> {
    if tx.nonce != sender.nonce {
        Some(PreExecutionError::InvalidNonce)
    } else if tx.gas_limit > MAX_TRANSACTION_GAS {
        Some(PreExecutionError::GasLimitTooHigh)
    } else if tx.gas_price.value() < base_fee.value() {
        Some(PreExecutionError::GasPriceBelowBaseFee)
    } else if tx.gas_limit * tx.gas_price.value() + tx.value.value() > sender.balance.value() {
        Some(PreExecutionError::InsufficientBalance)
    } else if tx.gas_limit < intrinsic_total(patch, tx.action is Create, tx.input@) {
        Some(PreExecutionError::InsufficientGasLimit)
    } else {
        None
    }
}

/// Checks a transaction against its sender before it runs: the nonce, a
/// balance for the value and the whole gas limit at its price, a gas limit
/// that covers the intrinsic gas, and a price not below the base fee.
/// Gives the intrinsic gas.
pub fn validate(patch: &Patch, tx: &Transaction, sender: Basic, base_fee: U256) -> (r: Result<u64, PreExecutionError>)
    requires
        patch.wf(),
        tx.input@.len() <= 0xffff_ffff,
    ensures
        tx.nonce != sender.nonce ==> r == Err::<u64, PreExecutionError>(PreExecutionError::InvalidNonce),
        tx.nonce == sender.nonce && tx.gas_limit > MAX_TRANSACTION_GAS ==> r == Err::<u64, PreExecutionError>(
            PreExecutionError::GasLimitTooHigh,
        ),
        tx.nonce == sender.nonce && tx.gas_limit <= MAX_TRANSACTION_GAS && tx.gas_price.value() < base_fee.value()
            ==> r == Err::<u64, PreExecutionError>(PreExecutionError::GasPriceBelowBaseFee),
        tx.nonce == sender.nonce && tx.gas_limit <= MAX_TRANSACTION_GAS && tx.gas_price.value() >= base_fee.value()
            && tx.gas_limit * tx.gas_price.value() + tx.value.value() > sender.balance.value() ==> r
            == Err::<u64, PreExecutionError>(PreExecutionError::InsufficientBalance),
        tx.nonce == sender.nonce && tx.gas_limit <= MAX_TRANSACTION_GAS && tx.gas_price.value() >= base_fee.value()
            && tx.gas_limit * tx.gas_price.value() + tx.value.value() <= sender.balance.value()
            && tx.gas_limit < intrinsic_total(*patch, tx.action is Create, tx.input@) ==> r == Err::<u64, PreExecutionError>(
            PreExecutionError::InsufficientGasLimit,
        ),
        r matches Err(e) ==> refusal(*patch, *tx, sender, base_fee) == Some(e),
        r is Ok ==> refusal(*patch, *tx, sender, base_fee) is None,
        r matches Ok(g) ==> g == intrinsic_total(*patch, tx.action is Create, tx.input@) && g <= tx.gas_limit
            && tx.gas_limit * tx.gas_price.value() + tx.value.value() <= sender.balance.value()
            && tx.gas_limit <= MAX_TRANSACTION_GAS && tx.gas_price.value() >= base_fee.value(),
{
    proof {
        U256::lemma_value_injective(tx.nonce, sender.nonce);
    }
    if !tx.nonce.eq_word(&sender.nonce) {
        return Err(PreExecutionError::InvalidNonce);
    }
    if tx.gas_limit > MAX_TRANSACTION_GAS {
        return Err(PreExecutionError::GasLimitTooHigh);
    }
    if tx.gas_price.lt(&base_fee) {
        return Err(PreExecutionError::GasPriceBelowBaseFee);
    }
    let (upfront, over) = U256::from_u64(tx.gas_limit).overflowing_mul(tx.gas_price);
    if over {
        proof {
            tx.value.lemma_value_bound();
            sender.balance.lemma_value_bound();
        }
        return Err(PreExecutionError::InsufficientBalance);
    }
    proof {
        vstd::arithmetic::div_mod::lemma_small_mod((tx.gas_limit * tx.gas_price.value()) as nat, word_modulus());
    }
    let (total, over2) = upfront.overflowing_add(tx.value);
    if over2 || sender.balance.lt(&total) {
        proof {
            sender.balance.lemma_value_bound();
        }
        return Err(PreExecutionError::InsufficientBalance);
    }
    let is_create = match tx.action {
        TransactionAction::Create => true,
        _ => false,
    };
    let intrinsic = crate::gas::intrinsic_gas(patch, is_create, tx.input.as_slice());
    if tx.gas_limit < intrinsic {
        return Err(PreExecutionError::InsufficientGasLimit);
    }
    Ok(intrinsic)
}

/// Pays out the gas of a finished transaction: of the gas limit, the part not
/// used, plus the capped refund, goes back to the sender at the gas price; the
/// part used goes to the miner at the price less the base fee, and the base
/// fee of it is burned.
pub fn settle(patch: &Patch, gas_limit: u64, used: u64, refund_counter: u64, gas_price: U256, base_fee: U256) -> (r: Settlement)
    requires
        patch.wf(),
        used <= gas_limit,
        base_fee.value() <= gas_price.value(),
        gas_limit * gas_price.value() < word_modulus(),
    ensures
        r.gas_used + r.gas_returned == gas_limit,
        r.gas_returned == gas_limit - used + capped_refund(*patch, used as nat, refund_counter as nat),
        r.sender_credit.value() == r.gas_returned * gas_price.value(),
        r.miner_credit.value() == r.gas_used * (gas_price.value() - base_fee.value()),
        r.burned.value() == r.gas_used * base_fee.value(),
        r.sender_credit.value() + r.miner_credit.value() + r.burned.value() == gas_limit * gas_price.value(),
{
    let (gas_used, gas_returned) = settle_gas(patch, gas_limit, used, refund_counter);
    let price = gas_price;
    let (net_price, _) = gas_price.underflowing_sub(base_fee);
    proof {
        let p = gas_price.value() as int;
        let b = base_fee.value() as int;
        let l = gas_limit as int;
        assert(gas_returned * p <= l * p && gas_used * p <= l * p) by (nonlinear_arith)
            requires
                gas_returned <= l,
                gas_used <= l,
                p >= 0,
        ;
        assert(gas_used * (p - b) <= gas_used * p && gas_used * b <= gas_used * p) by (nonlinear_arith)
            requires
                0 <= b <= p,
                gas_used >= 0,
        ;
        vstd::arithmetic::div_mod::lemma_small_mod((gas_returned * gas_price.value()) as nat, word_modulus());
        vstd::arithmetic::div_mod::lemma_small_mod((gas_used * (gas_price.value() - base_fee.value())) as nat, word_modulus());
        vstd::arithmetic::div_mod::lemma_small_mod((gas_used * base_fee.value()) as nat, word_modulus());
    }
    let (sender_credit, _) = U256::from_u64(gas_returned).overflowing_mul(price);
    let (miner_credit, _) = U256::from_u64(gas_used).overflowing_mul(net_price);
    let (burned, _) = U256::from_u64(gas_used).overflowing_mul(base_fee);
    proof {
        lemma_fee_conservation(gas_limit as nat, gas_used as nat, gas_returned as nat, gas_price.value(), base_fee.value());
    }
    Settlement { gas_used, gas_returned, sender_credit, miner_credit, burned }
}

/// The up-front payment for the gas limit is paid out exactly: what goes back
/// to the sender, what goes to the miner and what is burned add up to it, so
/// the balances together lose the burned part and nothing else.
pub proof fn lemma_fee_conservation(gas_limit: nat, gas_used: nat, gas_returned: nat, gas_price: nat, base_fee: nat)
    requires
        gas_used + gas_returned == gas_limit,
        base_fee <= gas_price,
    ensures
        gas_returned * gas_price + gas_used * (gas_price - base_fee) + gas_used * base_fee == gas_limit
            * gas_price,
{
    assert(gas_returned * gas_price + gas_used * (gas_price - base_fee) + gas_used * base_fee == gas_limit
        * gas_price) by (nonlinear_arith)
        requires
            gas_used + gas_returned == gas_limit,
            base_fee <= gas_price,
    ;
}

/// A frame that ended with an error before running: all its gas is used.
fn failed_frame(context: Context, patch: Patch, e: ExitError) -> (r: Machine)
    requires
        patch.wf(),
        context.gas_limit <= MAX_FRAME_GAS,
    ensures
        r.wf(),
        r.status == MachineStatus::ExitedErr(e),
        r.context == context,
{
    let mut m = Machine::new(context, Vec::new(), Vec::new(), patch);
    m.used_gas = context.gas_limit;
    m.status = MachineStatus::ExitedErr(e);
    m
}

/// Opens a frame for a call: moves its value where it carries one, then runs
/// a built-in contract at once, or prepares the callee's code to run.
fn start_frame<B: Backend>(
    context: Context,
    code_address: Address,
    input: Vec<u8>,
    transfers: bool,
    patch: Patch,
    substate: &mut MemoryStackSubstate,
    backend: &B,
) -> (r: Machine)
    requires
        old(substate).wf(),
        patch.wf(),
    ensures
        final(substate).wf(),
        final(substate)@.len() == old(substate)@.len(),
        r.wf(),
        !(r.status is InvokeCall),
        !(r.status is InvokeCreate),
{
    let ctx = if context.gas_limit > MAX_FRAME_GAS {
        Context { gas_limit: MAX_FRAME_GAS, ..context }
    } else {
        context
    };
    if transfers {
        if transfer(substate, backend, ctx.caller, ctx.address, ctx.value).is_err() {
            return failed_frame(ctx, patch, ExitError::OutOfFund);
        }
    }
    if input.len() > crate::memory::MEMORY_LIMIT {
        return failed_frame(ctx, patch, ExitError::InvalidCode);
    }
    match precompile_at(&code_address) {
        Some(p) => match gas_and_step(p, input.as_slice(), ctx.gas_limit) {
            Ok((g, out)) => {
                if out.len() > crate::memory::MEMORY_LIMIT {
                    return failed_frame(ctx, patch, ExitError::InvalidCode);
                }
                let mut m = Machine::new(ctx, Vec::new(), Vec::new(), patch);
                m.used_gas = g;
                m.out = out;
                m.status = MachineStatus::ExitedOk;
                m
            },
            Err(e) => failed_frame(ctx, patch, e),
        },
        None => {
            let code = backend.code(code_address);
            if code.len() > MAX_CODE_LEN {
                failed_frame(ctx, patch, ExitError::InvalidCode)
            } else {
                Machine::new(ctx, code, input, patch)
            }
        },
    }
}

/// Opens a frame for a creation: fails with CreateCollision where the address
/// already holds an account with a nonce, code or storage; otherwise clears its storage,
/// moves the value to it and prepares the init code to run.
pub fn start_create_frame<B: Backend>(
    context: Context,
    init: Vec<u8>,
    patch: Patch,
    substate: &mut MemoryStackSubstate,
    backend: &B,
) -> (r: Machine)
    requires
        old(substate).wf(),
        patch.wf(),
    ensures
        final(substate).wf(),
        final(substate)@.len() == old(substate)@.len(),
        r.wf(),
        !(r.status is InvokeCall),
        !(r.status is InvokeCreate),
        crate::substate::known_account_of(old(substate)@, context.address) matches Some(a) && (a.basic.nonce.value()
            != 0 || (a.code matches Some(c) && c@.len() != 0)) ==> r.status == MachineStatus::ExitedErr(
            ExitError::CreateCollision,
        ) && final(substate)@ == old(substate)@,
        r.status is Running ==> r.code@ == init@ && r.context.address == context.address,
{
    let ctx = if context.gas_limit > MAX_FRAME_GAS {
        Context { gas_limit: MAX_FRAME_GAS, ..context }
    } else {
        context
    };
    let existing = basic_of(substate, backend, ctx.address);
    let code_len = match substate.known_code(ctx.address) {
        Some(c) => c.len(),
        None => backend.code(ctx.address).len(),
    };
    if !existing.nonce.is_zero() || code_len != 0 || backend.has_storage(ctx.address) {
        return failed_frame(ctx, patch, ExitError::CreateCollision);
    }
    if init.len() > MAX_CODE_LEN {
        return failed_frame(ctx, patch, ExitError::InvalidCode);
    }
    let m = Machine::new(ctx, init, Vec::new(), patch);
    if m.invoke_create(substate, backend).is_err() {
        return failed_frame(ctx, patch, ExitError::OutOfFund);
    }
    m
}

/// Adds `amount` to an account's balance in the current layer.
/// `after` is `before` with `amount` added (modulo 2^256) to the balance of
/// `address` in a record appended to the current layer.
pub open spec fn credited(before: Seq<LayerView>, after: Seq<LayerView>, address: Address, amount: U256) -> bool {
    exists|rec: AccountRecord|
        {
            &&& after == with_top(before, #[trigger] top_with_account(before, rec))
            &&& rec.address == address
            &&& (known_account_of(before, address) matches Some(p) ==> rec.basic.nonce == p.basic.nonce
                && rec.basic.balance.value() == (p.basic.balance.value() + amount.value()) % word_modulus())
        }
}

/// The current layer with one more account record.
pub open spec fn top_with_account(layers: Seq<LayerView>, rec: AccountRecord) -> LayerView {
    LayerView { accounts: layers.last().accounts.push(rec), ..layers.last() }
}

/// Adds `amount` to an account's balance in the current layer.
pub fn credit<B: Backend>(substate: &mut MemoryStackSubstate, backend: &B, address: Address, amount: U256)
    requires
        old(substate).wf(),
    ensures
        final(substate).wf(),
        final(substate)@.len() == old(substate)@.len(),
        credited(old(substate)@, final(substate)@, address, amount),
{
    let basic = basic_of(substate, backend, address);
    let code = substate.known_code(address);
    let (balance, _) = basic.balance.overflowing_add(amount);
    let ghost before = substate@;
    let ghost rec = AccountRecord { address, basic: Basic { balance, nonce: basic.nonce }, code };
    substate.set_account(address, Basic { balance, nonce: basic.nonce }, code);
    proof {
        assert(substate@ == with_top(before, top_with_account(before, rec)));
    }
}


fn is_create_action(a: &TransactionAction) -> (r: bool)
    ensures
        r == (*a is Create),
{
    match a {
        TransactionAction::Create => true,
        _ => false,
    }
}

/// The exit reason of a finished frame: Succeed (Returned with output,
/// Stopped without), Revert, or the error or fatal exit it ended with.
pub open spec fn exit_reason_spec(status: MachineStatus, out: Seq<u8>) -> ExitReason {
    match status {
        MachineStatus::ExitedOk => if out.len() == 0 {
            ExitReason::Succeed(ExitSucceed::Stopped)
        } else {
            ExitReason::Succeed(ExitSucceed::Returned)
        },
        MachineStatus::ExitedRevert => ExitReason::Revert,
        MachineStatus::ExitedErr(e) => ExitReason::Error(e),
        MachineStatus::ExitedFatal(f) => ExitReason::Fatal(f),
        _ => ExitReason::Fatal(ExitFatal::UnhandledInterrupt),
    }
}

/// The gas a finished outermost frame counts as used: what it used after a
/// return or a revert, its whole budget after an error.
pub open spec fn frame_gas_used(status: MachineStatus, used: nat, budget: nat) -> nat {
    if (status is ExitedOk || status is ExitedRevert) && used <= budget {
        used
    } else {
        budget
    }
}

/// The refund counter that counts at settlement: the frame's, on success only.
pub open spec fn counted_refund(status: MachineStatus, refunded: int) -> nat {
    if status is ExitedOk && refunded > 0 {
        refunded as nat
    } else {
        0
    }
}

/// The gas a finished transaction counts as used before refunds.
pub open spec fn settled_used(gas_limit: u64, intrinsic: u64, status: MachineStatus, used: u64) -> nat {
    (intrinsic + frame_gas_used(status, used as nat, (gas_limit - intrinsic) as nat)) as nat
}

/// The refund a finished transaction is granted.
pub open spec fn settled_refund(
    patch: Patch,
    gas_limit: u64,
    intrinsic: u64,
    status: MachineStatus,
    used: u64,
    refunded: i64,
) -> nat {
    capped_refund(patch, settled_used(gas_limit, intrinsic, status, used), counted_refund(status, refunded as int))
}

/// The transaction's layer once the outermost frame's layer is closed:
/// committed into it after a return, discarded otherwise.
pub open spec fn closed_layers(layers: Seq<LayerView>, status: MachineStatus) -> Seq<LayerView> {
    if status is ExitedOk {
        seq![committed(layers[0], layers[1])]
    } else {
        seq![layers[0]]
    }
}

/// Ends a transaction whose outermost frame `root` has finished, over the
/// transaction's layer and the frame's layer in `substate`: the frame's layer
/// is committed if it returned and discarded otherwise, the gas is settled,
/// and the sender and the coinbase are credited.
pub fn finalize<B: Backend>(
    patch: &Patch,
    tx: &Transaction,
    intrinsic: u64,
    base_fee: U256,
    coinbase: Address,
    root: Machine,
    substate: MemoryStackSubstate,
    backend: &B,
) -> (r: ExecutionResult)
    requires
        patch.wf(),
        substate.wf(),
        substate@.len() == 2,
        intrinsic <= tx.gas_limit,
        tx.gas_limit * tx.gas_price.value() < word_modulus(),
        base_fee.value() <= tx.gas_price.value(),
        !(root.status is Running || root.status is InvokeCall || root.status is InvokeCreate),
    ensures
        r.exit_reason == exit_reason_spec(root.status, root.out@),
        r.output@ == root.out@,
        r.gas_returned == tx.gas_limit - settled_used(tx.gas_limit, intrinsic, root.status, root.used_gas)
            + settled_refund(*patch, tx.gas_limit, intrinsic, root.status, root.used_gas, root.refunded_gas),
        r.gas_used + r.gas_returned == tx.gas_limit,
        r.gas_refunded == settled_refund(*patch, tx.gas_limit, intrinsic, root.status, root.used_gas, root.refunded_gas),
        r.settlement.gas_used == r.gas_used,
        r.settlement.gas_returned == r.gas_returned,
        r.settlement.sender_credit.value() == r.gas_returned * tx.gas_price.value(),
        r.settlement.miner_credit.value() == r.gas_used * (tx.gas_price.value() - base_fee.value()),
        r.settlement.burned.value() == r.gas_used * base_fee.value(),
        exists|mid: Seq<LayerView>|
            credited(closed_layers(substate@, root.status), mid, tx.caller, r.settlement.sender_credit)
                && #[trigger] credited(mid, r.state@, coinbase, r.settlement.miner_credit),
{
    let mut substate = substate;
    let ghost layers = substate@;
    let ok = root.status == MachineStatus::ExitedOk;
    if ok {
        substate.commit();
    } else {
        substate.discard();
    }
    proof {
        if ok {
            assert(substate@ =~= seq![committed(layers[0], layers[1])]);
        } else {
            assert(substate@ =~= seq![layers[0]]);
        }
    }
    let frame_gas = tx.gas_limit - intrinsic;
    let frame_used = match root.status {
        MachineStatus::ExitedOk | MachineStatus::ExitedRevert => if root.used_gas <= frame_gas {
            root.used_gas
        } else {
            frame_gas
        },
        _ => frame_gas,
    };
    let used = intrinsic + frame_used;
    let refund_counter: u64 = if ok && root.refunded_gas > 0 {
        root.refunded_gas as u64
    } else {
        0
    };
    let st = settle(patch, tx.gas_limit, used, refund_counter, tx.gas_price, base_fee);
    let ghost base = substate@;
    credit(&mut substate, backend, tx.caller, st.sender_credit);
    let ghost mid = substate@;
    credit(&mut substate, backend, coinbase, st.miner_credit);
    let exit_reason = exit_reason_of(&root);
    proof {
        let budget = (tx.gas_limit - intrinsic) as nat;
        assert(frame_used == frame_gas_used(root.status, root.used_gas as nat, budget));
        assert(refund_counter == counted_refund(root.status, root.refunded_gas as int));
        assert(base == closed_layers(layers, root.status));
        assert(credited(base, mid, tx.caller, st.sender_credit));
        assert(credited(mid, substate@, coinbase, st.miner_credit));
        assert(exists|m: Seq<LayerView>|
            credited(closed_layers(layers, root.status), m, tx.caller, st.sender_credit) && #[trigger] credited(
                m,
                substate@,
                coinbase,
                st.miner_credit,
            ));
        assert(exit_reason == exit_reason_spec(root.status, root.out@));
    }
    let r = ExecutionResult {
        exit_reason,
        gas_used: st.gas_used,
        gas_returned: st.gas_returned,
        gas_refunded: st.gas_returned - (tx.gas_limit - used),
        output: root.out,
        settlement: st,
        rounds: 0,
        interrupted: false,
        state: substate,
    };
    proof {
        assert(credited(mid, r.state@, coinbase, r.settlement.miner_credit));
    }
    r
}

/// Runs a message call; see `transact`.
pub fn transact_call<B: Backend>(patch: &Patch, tx: &Transaction, backend: &B, step_limit: u64) -> (r: Result<
    ExecutionResult,
    PreExecutionError,
>)
    requires
        patch.wf(),
        tx.input@.len() <= 0xffff_ffff,
        tx.action is Call,
    ensures
        r matches Ok(res) ==> res.gas_used + res.gas_returned == tx.gas_limit,
        r matches Ok(res) ==> res.settlement.gas_used == res.gas_used && res.settlement.gas_returned
            == res.gas_returned && res.settlement.sender_credit.value() == res.gas_returned
            * tx.gas_price.value() && res.settlement.miner_credit.value() + res.settlement.burned.value()
            == res.gas_used * tx.gas_price.value(),
        r matches Ok(res) ==> res.rounds <= step_limit,
        r matches Ok(res) ==> (res.interrupted ==> res.rounds == step_limit && res.exit_reason
            == ExitReason::Fatal(ExitFatal::UnhandledInterrupt) && res.gas_returned == 0),
        r matches Err(e) ==> exists|sender: Basic, base_fee: U256| #[trigger] refusal(*patch, *tx, sender, base_fee)
            == Some(e),
{
    transact(patch, tx, backend, step_limit)
}

/// Runs a creation with the input as init code; see `transact`.
pub fn transact_create<B: Backend>(patch: &Patch, tx: &Transaction, backend: &B, step_limit: u64) -> (r: Result<
    ExecutionResult,
    PreExecutionError,
>)
    requires
        patch.wf(),
        tx.input@.len() <= 0xffff_ffff,
        tx.action is Create,
    ensures
        r matches Ok(res) ==> res.gas_used + res.gas_returned == tx.gas_limit,
        r matches Ok(res) ==> res.settlement.gas_used == res.gas_used && res.settlement.gas_returned
            == res.gas_returned && res.settlement.sender_credit.value() == res.gas_returned
            * tx.gas_price.value() && res.settlement.miner_credit.value() + res.settlement.burned.value()
            == res.gas_used * tx.gas_price.value(),
        r matches Ok(res) ==> res.rounds <= step_limit,
        r matches Ok(res) ==> (res.interrupted ==> res.rounds == step_limit && res.exit_reason
            == ExitReason::Fatal(ExitFatal::UnhandledInterrupt) && res.gas_returned == 0),
        r matches Err(e) ==> exists|sender: Basic, base_fee: U256| #[trigger] refusal(*patch, *tx, sender, base_fee)
            == Some(e),
{
    transact(patch, tx, backend, step_limit)
}

/// The exit reason of a finished frame.
fn exit_reason_of(m: &Machine) -> (r: ExitReason)
    ensures
        r == exit_reason_spec(m.status, m.out@),
{
    match m.status {
        MachineStatus::ExitedOk => if m.out.len() == 0 {
            ExitReason::Succeed(ExitSucceed::Stopped)
        } else {
            ExitReason::Succeed(ExitSucceed::Returned)
        },
        MachineStatus::ExitedRevert => ExitReason::Revert,
        MachineStatus::ExitedErr(e) => ExitReason::Error(e),
        MachineStatus::ExitedFatal(f) => ExitReason::Fatal(f),
        _ => ExitReason::Fatal(ExitFatal::UnhandledInterrupt),
    }
}

/// Runs a transaction: validates it, takes the up-front payment and bumps
/// the sender's nonce, runs the frames it leads to, and settles the gas. The
/// changes of the transaction are kept only if its outermost frame succeeds;
/// a creation that succeeds stores the returned code at the created address.
/// At most `step_limit` rounds run; a transaction that needs more ends with a
/// fatal exit and no changes at all.
pub fn transact<B: Backend>(patch: &Patch, tx: &Transaction, backend: &B, step_limit: u64) -> (r: Result<
    ExecutionResult,
    PreExecutionError,
>)
    requires
        patch.wf(),
        tx.input@.len() <= 0xffff_ffff,
    ensures
        r matches Ok(res) ==> res.gas_used + res.gas_returned == tx.gas_limit,
        r matches Ok(res) ==> res.settlement.gas_used == res.gas_used && res.settlement.gas_returned
            == res.gas_returned && res.settlement.sender_credit.value() == res.gas_returned
            * tx.gas_price.value() && res.settlement.miner_credit.value() + res.settlement.burned.value()
            == res.gas_used * tx.gas_price.value(),
        r matches Ok(res) ==> res.rounds <= step_limit,
        r matches Ok(res) ==> (res.interrupted ==> res.rounds == step_limit && res.exit_reason
            == ExitReason::Fatal(ExitFatal::UnhandledInterrupt) && res.gas_returned == 0),
        r matches Err(e) ==> exists|sender: Basic, base_fee: U256| #[trigger] refusal(*patch, *tx, sender, base_fee)
            == Some(e),
{
    let base_fee = if patch.has_base_fee {
        backend.block_base_fee()
    } else {
        U256::zero()
    };
    let sender = backend.basic(tx.caller);
    let intrinsic = match validate(patch, tx, sender, base_fee) {
        Ok(g) => g,
        Err(e) => {
            proof {
                assert(refusal(*patch, *tx, sender, base_fee) == Some(e));
            }
            return Err(e);
        },
    };
    let mut substate = MemoryStackSubstate::new(Metadata { gas_limit: tx.gas_limit, depth: 0 });
    proof {
        sender.balance.lemma_value_bound();
        vstd::arithmetic::div_mod::lemma_small_mod((tx.gas_limit * tx.gas_price.value()) as nat, word_modulus());
    }
    let (upfront, _) = U256::from_u64(tx.gas_limit).overflowing_mul(tx.gas_price);
    let (balance, _) = sender.balance.underflowing_sub(upfront);
    let (nonce, _) = sender.nonce.overflowing_add(U256::one());
    let sender_code = substate.known_code(tx.caller);
    substate.set_account(tx.caller, Basic { balance, nonce }, sender_code);
    let frame_gas = tx.gas_limit - intrinsic;
    substate.enter(Metadata { gas_limit: frame_gas, depth: 0 });
    let address = match tx.action {
        TransactionAction::Call(to) => to,
        TransactionAction::Create => crate::lifecycle::create_address(&tx.caller, &sender.nonce),
    };
    let context = Context {
        address,
        caller: tx.caller,
        origin: tx.caller,
        value: tx.value,
        gas_price: tx.gas_price,
        gas_limit: frame_gas,
        depth: 0,
        is_static: false,
    };
    let input = crate::memory::copy_bytes(tx.input.as_slice());
    let root = match tx.action {
        TransactionAction::Call(to) => start_frame(context, to, input, true, *patch, &mut substate, backend),
        TransactionAction::Create => start_create_frame(context, input, *patch, &mut substate, backend),
    };
    let mut frames: Vec<Machine> = Vec::new();
    frames.push(root);
    let mut finished: Option<Machine> = None;
    let mut steps: u64 = 0;
    while finished.is_none() && steps < step_limit
        invariant
            patch.wf(),
            substate.wf(),
            steps <= step_limit,
            finished is None ==> frames@.len() >= 1 && substate@.len() == frames@.len() + 1,
            finished is Some ==> frames@.len() == 0 && substate@.len() == 2,
            finished matches Some(m) ==> m.wf() && !(m.status is Running) && !(m.status is InvokeCall)
                && !(m.status is InvokeCreate),
            forall|k: int| 0 <= k < frames@.len() ==> (#[trigger] frames@[k]).wf(),
            forall|k: int|
                0 <= k < frames@.len() ==> ((#[trigger] frames@[k]).status is InvokeCall ==> frames@[k].stack@.len()
                    >= 1),
            forall|k: int|
                0 <= k < frames@.len() ==> ((#[trigger] frames@[k]).status is InvokeCreate ==> frames@[k].stack@.len()
                    >= 1),
            forall|k: int|
                0 <= k < frames@.len() - 1 ==> (#[trigger] frames@[k]).status is InvokeCall || frames@[k].status
                    is InvokeCreate,
        decreases step_limit - steps,
    {
        steps = steps + 1;
        let mut top = frames.pop().unwrap();
        proof {
            assert(top.wf());
        }
        match top.status {
            MachineStatus::Running => {
                let _ = top.step(&mut substate, backend);
                frames.push(top);
            },
            MachineStatus::InvokeCall(ctx, _, _) => {
                let input = crate::memory::copy_bytes(top.invoke_input.as_slice());
                let code_address = top.invoke_code_address;
                let transfers = top.invoke_transfers;
                frames.push(top);
                substate.enter(Metadata { gas_limit: ctx.gas_limit, depth: ctx.depth });
                let child = start_frame(ctx, code_address, input, transfers, *patch, &mut substate, backend);
                frames.push(child);
            },
            MachineStatus::InvokeCreate(ctx) => {
                let init = crate::memory::copy_bytes(top.invoke_input.as_slice());
                frames.push(top);
                substate.enter(Metadata { gas_limit: ctx.gas_limit, depth: ctx.depth });
                let child = start_create_frame(ctx, init, *patch, &mut substate, backend);
                frames.push(child);
            },
            _ => {
                if frames.len() == 0 {
                    finished = Some(top);
                } else {
                    let mut parent = frames.pop().unwrap();
                    proof {
                        assert(parent.wf());
                    }
                    let creating = match parent.status {
                        MachineStatus::InvokeCreate(_) => true,
                        _ => false,
                    };
                    if creating && top.status == MachineStatus::ExitedOk {
                        top.code_deposit(&mut substate, backend);
                    }
                    parent.apply_sub(&top, &mut substate);
                    frames.push(parent);
                }
            },
        }

    }
    let interrupted = finished.is_none();
    let mut root = match finished {
        Some(m) => m,
        None => {
            while frames.len() > 1
                invariant
                    substate.wf(),
                    frames@.len() >= 1,
                    substate@.len() == frames@.len() + 1,
                    forall|k: int| 0 <= k < frames@.len() ==> (#[trigger] frames@[k]).wf(),
                decreases frames@.len(),
            {
                let _ = frames.pop();
                substate.discard();
            }
            let mut m = frames.pop().unwrap();
            proof {
                assert(m.wf());
            }
            m.status = MachineStatus::ExitedFatal(ExitFatal::UnhandledInterrupt);
            m
        },
    };
    if is_create_action(&tx.action) && root.status == MachineStatus::ExitedOk {
        root.code_deposit(&mut substate, backend);
    }
    let coinbase = backend.block_coinbase();
    let mut res = finalize(patch, tx, intrinsic, base_fee, coinbase, root, substate, backend);
    proof {
        let u = res.gas_used as int;
        let p = tx.gas_price.value() as int;
        let b = base_fee.value() as int;
        assert(u * (p - b) + u * b == u * p) by (nonlinear_arith);
    }
    proof {
        if interrupted {
            assert(steps == step_limit);
            assert(intrinsic + frame_gas_used(MachineStatus::ExitedFatal(ExitFatal::UnhandledInterrupt), 0, (tx.gas_limit - intrinsic) as nat) == tx.gas_limit);
        }
    }
    res.rounds = steps;
    res.interrupted = interrupted;
    Ok(res)
}

} // verus!
