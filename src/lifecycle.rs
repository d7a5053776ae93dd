//! The lifecycle of a frame around its steps: moving value in, depositing
//! created code, and applying a finished sub-frame back into its caller.
use vstd::prelude::*;
use crate::backend::Backend;
use crate::errors::ExitError;
use crate::machine::{Machine, MachineStatus, MAX_FRAME_GAS};
use crate::memory::{written, MEMORY_LIMIT};
use crate::precompiled::zeros;
use crate::stack::STACK_LIMIT;
use crate::substate::{AccountRecord, Address, Basic, MemoryStackSubstate, LayerView, with_top, committed};
use crate::u256::{U256, be_value, pow256};
use crate::hashing::{keccak256, keccak256_of};

verus! {

/// An account's nonce and balance as the frame sees them: the substate's, else the backend's.
pub fn basic_of<B: Backend>(substate: &MemoryStackSubstate, backend: &B, address: Address) -> (r: Basic)
    ensures
        crate::substate::known_account_of(substate@, address) matches Some(rec) ==> r == rec.basic,
{
    match substate.known_basic(address) {
        Some(b) => b,
        None => backend.basic(address),
    }
}

/// The current layer with two more account records.
pub open spec fn top_with_accounts(layers: Seq<LayerView>, a: AccountRecord, b: AccountRecord) -> LayerView {
    LayerView { accounts: layers.last().accounts.push(a).push(b), ..layers.last() }
}

/// The `len` bytes written back into the caller's memory from a callee's
/// output: the output, cut at `len` or padded with zeros to it.
pub open spec fn window(out: Seq<u8>, len: nat) -> Seq<u8> {
    Seq::new(len, |i: int| if i < out.len() { out[i] } else { 0u8 })
}

/// The payer's balance, as the layers know it, covers the value, and the
/// payee's known balance can take it: then a transfer is owed to succeed.
pub open spec fn transfer_covered(layers: Seq<LayerView>, from: Address, to: Address, value: U256) -> bool {
    &&& crate::substate::known_account_of(layers, from) matches Some(p) && p.basic.balance.value()
        >= value.value()
    &&& (from == to || (crate::substate::known_account_of(layers, to) matches Some(q)
        && q.basic.balance.value() + value.value() < crate::u256::word_modulus()))
}

/// The payer's balance, as the layers know it, falls short of the value.
pub open spec fn transfer_short(layers: Seq<LayerView>, from: Address, value: U256) -> bool {
    crate::substate::known_account_of(layers, from) matches Some(p) && p.basic.balance.value() < value.value()
}

/// `after` is `before` with `value` moved from `from` to `to` in the current
/// layer; the two balances add up to what they did.
pub open spec fn transferred(before: Seq<LayerView>, after: Seq<LayerView>, from: Address, to: Address, value: U256) -> bool {
    if from == to {
        after == before
    } else {
        exists|a: AccountRecord, b: AccountRecord|
            {
                &&& after == with_top(before, #[trigger] top_with_accounts(before, a, b))
                &&& a.address == from
                &&& b.address == to
                &&& b.basic.balance.value() >= value.value()
                &&& (crate::substate::known_account_of(before, from) matches Some(rec) ==> a.basic.balance.value()
                    + value.value() == rec.basic.balance.value())
                &&& (crate::substate::known_account_of(before, to) matches Some(rec) ==> b.basic.balance.value()
                    == rec.basic.balance.value() + value.value())
            }
    }
}

/// Moves `value` from one account to another in the current layer: OutOfFund
/// where the payer holds less, or the payee's balance would pass 2^256.
/// What the two hold together does not change.
pub fn transfer<B: Backend>(
    substate: &mut MemoryStackSubstate,
    backend: &B,
    from: Address,
    to: Address,
    value: U256,
) -> (r: Result<(), ExitError>)
    requires
        old(substate).wf(),
    ensures
        final(substate).wf(),
        r is Err ==> r == Err::<(), ExitError>(ExitError::OutOfFund) && final(substate)@ == old(substate)@,
        r is Ok ==> transferred(old(substate)@, final(substate)@, from, to, value),
        transfer_covered(old(substate)@, from, to, value) ==> r is Ok,
        transfer_short(old(substate)@, from, value) ==> r is Err,
{
    let payer = basic_of(substate, backend, from);
    if payer.balance.lt(&value) {
        return Err(ExitError::OutOfFund);
    }
    if from == to {
        return Ok(());
    }
    let payee = basic_of(substate, backend, to);
    let (credited, overflow) = payee.balance.overflowing_add(value);
    if overflow {
        return Err(ExitError::OutOfFund);
    }
    let (debited, _) = payer.balance.underflowing_sub(value);
    let payer_code = substate.known_code(from);
    let payee_code = substate.known_code(to);
    let ghost before = substate@;
    let ghost a = AccountRecord { address: from, basic: Basic { balance: debited, nonce: payer.nonce }, code: payer_code };
    let ghost b = AccountRecord { address: to, basic: Basic { balance: credited, nonce: payee.nonce }, code: payee_code };
    substate.set_account(from, Basic { balance: debited, nonce: payer.nonce }, payer_code);
    substate.set_account(to, Basic { balance: credited, nonce: payee.nonce }, payee_code);
    proof {
        assert(substate@ == with_top(before, top_with_accounts(before, a, b)));
        assert(a.basic.balance.value() + value.value() == payer.balance.value());
        assert(transferred(before, substate@, from, to, value));
    }
    Ok(())
}


fn window_bytes(out: &Vec<u8>, len: usize) -> (r: Vec<u8>)
    ensures
        r@ == window(out@, len as nat),
{
    let mut r: Vec<u8> = Vec::new();
    let mut i: usize = 0;
    while i < len
        invariant
            i <= len,
            r@ == window(out@, i as nat),
        decreases len - i,
    {
        let b = if i < out.len() {
            out[i]
        } else {
            0
        };
        r.push(b);
        i = i + 1;
        proof {
            assert(r@ =~= window(out@, i as nat));
        }
    }
    r
}

/// A string of bytes without its leading zeros.
pub open spec fn without_leading_zeros(s: Seq<u8>) -> Seq<u8>
    decreases s.len(),
{
    if s.len() > 0 && s[0] == 0 {
        without_leading_zeros(s.drop_first())
    } else {
        s
    }
}

/// The RLP encoding of a byte string shorter than 56 bytes.
pub open spec fn rlp_short_string(s: Seq<u8>) -> Seq<u8> {
    if s.len() == 1 && s[0] < 0x80 {
        s
    } else {
        seq![(0x80 + s.len()) as u8] + s
    }
}

/// The RLP encoding of the list [sender, nonce] that names a created account:
/// the sender as its 20 bytes, the nonce as its big-endian bytes without leading zeros.
pub open spec fn rlp_sender_nonce(sender: Seq<u8>, nonce: Seq<u8>) -> Seq<u8> {
    let payload = rlp_short_string(sender) + rlp_short_string(without_leading_zeros(nonce));
    seq![(0xc0 + payload.len()) as u8] + payload
}

/// The address of the account that `sender` creates with nonce `nonce`: the
/// low 20 bytes of the Keccak-256 digest of the RLP list [sender, nonce].
pub open spec fn created_address(sender: Seq<u8>, nonce: Seq<u8>) -> nat {
    be_value(keccak256_of(rlp_sender_nonce(sender, nonce)).subrange(12, 32))
}

fn strip_leading_zeros(s: &Vec<u8>) -> (r: Vec<u8>)
    ensures
        r@ == without_leading_zeros(s@),
{
    let mut i: usize = 0;
    proof {
        assert(s@.subrange(0, s@.len() as int) == s@);
    }
    while i < s.len() && s[i] == 0
        invariant
            i <= s@.len(),
            without_leading_zeros(s@) == without_leading_zeros(s@.subrange(i as int, s@.len() as int)),
        decreases s@.len() - i,
    {
        proof {
            let t = s@.subrange(i as int, s@.len() as int);
            assert(t.drop_first() == s@.subrange(i + 1, s@.len() as int));
        }
        i = i + 1;
    }
    let mut r: Vec<u8> = Vec::new();
    let mut j: usize = i;
    while j < s.len()
        invariant
            i <= j <= s@.len(),
            r@ == s@.subrange(i as int, j as int),
        decreases s@.len() - j,
    {
        r.push(s[j]);
        j = j + 1;
        proof {
            assert(r@ =~= s@.subrange(i as int, j as int));
        }
    }
    proof {
        let t = s@.subrange(i as int, s@.len() as int);
        assert(!(t.len() > 0 && t[0] == 0));
    }
    r
}

fn rlp_string(s: &Vec<u8>) -> (r: Vec<u8>)
    requires
        s@.len() < 56,
    ensures
        r@ == rlp_short_string(s@),
{
    if s.len() == 1 && s[0] < 0x80 {
        let mut r = Vec::new();
        r.push(s[0]);
        proof {
            assert(r@ =~= s@);
        }
        r
    } else {
        let mut r = Vec::new();
        r.push((0x80 + s.len()) as u8);
        let mut rest = crate::memory::copy_bytes(s.as_slice());
        r.append(&mut rest);
        proof {
            assert(r@ =~= seq![(0x80 + s@.len()) as u8] + s@);
        }
        r
    }
}

/// The address of the account `sender` creates with `nonce`.
pub fn create_address(sender: &U256, nonce: &U256) -> (r: U256)
    ensures
        exists|sb: Seq<u8>, nb: Seq<u8>|
            be_value(nb) == nonce.value() && nb.len() == 32 && be_value(sb) == sender.value() % pow256(20)
                && sb.len() == 20 && r.value() == #[trigger] created_address(sb, nb),
{
    let word = sender.to_be_bytes();
    let mut sb: Vec<u8> = Vec::new();
    let mut k: usize = 12;
    while k < 32
        invariant
            12 <= k <= 32,
            word@.len() == 32,
            sb@ == word@.subrange(12, k as int),
        decreases 32 - k,
    {
        sb.push(word[k]);
        k = k + 1;
        proof {
            assert(sb@ =~= word@.subrange(12, k as int));
        }
    }
    let nb = nonce.to_be_bytes();
    let stripped = strip_leading_zeros(&nb);
    proof {
        lemma_without_leading_zeros_len(nb@);
    }
    let a = rlp_string(&sb);
    let n = rlp_string(&stripped);
    let mut payload = a;
    let mut nn = n;
    payload.append(&mut nn);
    let mut list: Vec<u8> = Vec::new();
    list.push((0xc0 + payload.len()) as u8);
    list.append(&mut payload);
    let digest = keccak256(list.as_slice());
    let mut low: Vec<u8> = Vec::new();
    let mut j: usize = 12;
    while j < 32
        invariant
            12 <= j <= 32,
            digest@.len() == 32,
            low@ == digest@.subrange(12, j as int),
        decreases 32 - j,
    {
        low.push(digest[j]);
        j = j + 1;
        proof {
            assert(low@ =~= digest@.subrange(12, j as int));
        }
    }
    proof {
        assert(list@ =~= rlp_sender_nonce(sb@, nb@));
        crate::u256::lemma_be_concat(word@.subrange(0, 12), sb@);
        assert(word@ =~= word@.subrange(0, 12) + sb@);
        crate::u256::lemma_be_bound(sb@);
        vstd::arithmetic::div_mod::lemma_fundamental_div_mod_converse_mod(
            sender.value() as int,
            pow256(20) as int,
            be_value(word@.subrange(0, 12)) as int,
            be_value(sb@) as int,
        );
        assert(created_address(sb@, nb@) == be_value(low@));
    }
    U256::from_be_bytes(low.as_slice())
}

proof fn lemma_without_leading_zeros_len(s: Seq<u8>)
    ensures
        without_leading_zeros(s).len() <= s.len(),
    decreases s.len(),
{
    if s.len() > 0 && s[0] == 0 {
        lemma_without_leading_zeros_len(s.drop_first());
    }
}

impl Machine {
    /// Moves the frame's value from its caller to its account, as a call begins.
    pub fn invoke_call<B: Backend>(&self, substate: &mut MemoryStackSubstate, backend: &B) -> (r: Result<(), ExitError>)
        requires
            old(substate).wf(),
        ensures
            final(substate).wf(),
            r is Err ==> r == Err::<(), ExitError>(ExitError::OutOfFund) && final(substate)@ == old(substate)@,
            r is Ok ==> transferred(old(substate)@, final(substate)@, self.context.caller, self.context.address, self.context.value),
            transfer_covered(old(substate)@, self.context.caller, self.context.address, self.context.value) ==> r is Ok,
            transfer_short(old(substate)@, self.context.caller, self.context.value) ==> r is Err,
    {
        transfer(substate, backend, self.context.caller, self.context.address, self.context.value)
    }

    /// Brings the created account into being with cleared storage, then moves
    /// the frame's value to it, as a creation begins.
    pub fn invoke_create<B: Backend>(&self, substate: &mut MemoryStackSubstate, backend: &B) -> (r: Result<(), ExitError>)
        requires
            old(substate).wf(),
        ensures
            final(substate).wf(),
            final(substate)@.len() == old(substate)@.len(),
            r is Err ==> r == Err::<(), ExitError>(ExitError::OutOfFund),
            r is Ok ==> exists|mid: Seq<LayerView>|
                mid == with_top(old(substate)@, crate::substate::top_with_storage(
                    old(substate)@,
                    crate::substate::StorageEvent::Reset { address: self.context.address },
                )) && transferred(mid, final(substate)@, self.context.caller, self.context.address, self.context.value),
            transfer_covered(old(substate)@, self.context.caller, self.context.address, self.context.value) ==> r is Ok,
            transfer_short(old(substate)@, self.context.caller, self.context.value) ==> r is Err,
    {
        let ghost before = substate@;
        substate.reset_storage(self.context.address);
        let ghost mid = substate@;
        proof {
            assert(mid.drop_last() == before.drop_last());
            assert(mid.last().accounts == before.last().accounts);
            assert(crate::substate::known_account_of(mid, self.context.caller)
                == crate::substate::known_account_of(before, self.context.caller));
            assert(crate::substate::known_account_of(mid, self.context.address)
                == crate::substate::known_account_of(before, self.context.address));
        }
        let r = transfer(substate, backend, self.context.caller, self.context.address, self.context.value);
        proof {
            if r is Ok {
                assert(transferred(mid, substate@, self.context.caller, self.context.address, self.context.value));
            }
        }
        r
    }

    /// Applies a finished sub-frame to the frame that waited on it. A callee
    /// that returned or reverted gives back the gas it did not use and has its
    /// output copied into the caller's output window; one that returned has its
    /// layer committed, the others have theirs discarded and leave 0 on the
    /// caller's stack in place of 1. After a hard error nothing comes back.
    pub fn apply_sub(&mut self, sub: &Machine, substate: &mut MemoryStackSubstate)
        requires
            old(self).wf(),
            sub.wf(),
            old(self).status is InvokeCall || old(self).status is InvokeCreate,
            sub.status is ExitedOk || sub.status is ExitedRevert || sub.status is ExitedErr
                || sub.status is ExitedFatal,
            old(substate)@.len() >= 2,
            old(self).stack@.len() >= 1,
            sub.out@.len() <= MEMORY_LIMIT,
        ensures
            final(self).wf(),
            final(self).status == MachineStatus::Running,
            final(self).context == old(self).context,
            final(self).code@ == old(self).code@,
            final(self).pc == old(self).pc,
            final(self).patch == old(self).patch,
            final(self).data@ == old(self).data@,
            final(self).stack@.len() == old(self).stack@.len(),
            sub.status is ExitedOk && i64::MIN <= old(self).refunded_gas + sub.refunded_gas <= i64::MAX
                ==> final(self).refunded_gas == old(self).refunded_gas + sub.refunded_gas,
            !(sub.status is ExitedOk) ==> final(self).refunded_gas == old(self).refunded_gas,
            !((sub.status is ExitedOk || sub.status is ExitedRevert) && (old(self).status matches MachineStatus::InvokeCall(
                _,
                out_offset,
                out_len,
            ) && crate::check::range_ok(out_offset.value(), out_len.value()) && out_len.value() > 0))
                ==> final(self).memory@ == old(self).memory@,
            sub.status is ExitedOk ==> final(substate)@ == old(substate)@.drop_last().drop_last().push(
                committed(old(substate)@[old(substate)@.len() - 2], old(substate)@.last()),
            ) && final(self).stack@ == old(self).stack@,
            !(sub.status is ExitedOk) ==> final(substate)@ == old(substate)@.drop_last()
                && final(self).stack@.drop_last() == old(self).stack@.drop_last()
                && final(self).stack@.last().value() == 0,
            sub.status is ExitedOk || sub.status is ExitedRevert ==> final(self).used_gas == (if old(self).used_gas >= sub.context.gas_limit - sub.used_gas {
                old(self).used_gas - (sub.context.gas_limit - sub.used_gas)
            } else {
                0
            }) && final(self).return_data@ == sub.out@,
            sub.status is ExitedErr || sub.status is ExitedFatal ==> final(self).used_gas
                == old(self).used_gas && final(self).return_data@.len() == 0,
            (sub.status is ExitedOk || sub.status is ExitedRevert) ==> (old(self).status matches MachineStatus::InvokeCall(
                _,
                out_offset,
                out_len,
            ) ==> (crate::check::range_ok(out_offset.value(), out_len.value()) && out_len.value() > 0
                ==> final(self).memory@ == written(
                old(self).memory@,
                out_offset.value(),
                window(sub.out@, out_len.value()),
            ))),
    {
        let status = self.status;
        self.status = MachineStatus::Running;
        let succeeded = sub.status == MachineStatus::ExitedOk;
        let reverted = sub.status == MachineStatus::ExitedRevert;
        if succeeded {
            substate.commit();
        } else {
            substate.discard();
            let _ = self.stack.take();
            self.stack.put(U256::zero());
        }
        if succeeded || reverted {
            let unused = sub.context.gas_limit - sub.used_gas;
            self.used_gas = if self.used_gas >= unused {
                self.used_gas - unused
            } else {
                0
            };
            self.return_data = crate::memory::copy_bytes(sub.out.as_slice());
            if succeeded {
                self.refunded_gas = crate::machine::add_refund(self.refunded_gas, sub.refunded_gas);
            }
            match status {
                MachineStatus::InvokeCall(_, out_offset, out_len) => {
                    if !out_len.is_zero() && crate::check::check_range(&out_offset, &out_len).is_ok() {
                        proof {
                            vstd::arithmetic::div_mod::lemma_small_mod(out_offset.value(), crate::u256::limb_base());
                            vstd::arithmetic::div_mod::lemma_small_mod(out_len.value(), crate::u256::limb_base());
                        }
                        let o = out_offset.low_u64() as usize;
                        let l = out_len.low_u64() as usize;
                        let bytes = window_bytes(&sub.out, l);
                        self.memory.write(o, bytes.as_slice());
                    }
                },
                _ => {},
            }
        } else {
            self.return_data = Vec::new();
        }
    }

    /// Stores a finished creation's output as the new account's code, paying
    /// for each byte: where the gas left does not cover it, the creation fails
    /// with OutOfGas, or under `force_code_deposit` keeps empty code.
    pub fn code_deposit<B: Backend>(&mut self, substate: &mut MemoryStackSubstate, backend: &B)
        requires
            old(self).wf(),
            old(substate).wf(),
            old(self).status == MachineStatus::ExitedOk,
            old(self).out@.len() <= MEMORY_LIMIT,
        ensures
            final(self).wf(),
            final(substate).wf(),
            final(substate)@.len() == old(substate)@.len(),
            old(self).out@.len() > old(self).patch.max_code_size ==> final(self).status == MachineStatus::ExitedErr(
                ExitError::CreateContractLimit,
            ) && final(substate)@ == old(substate)@ && final(self).used_gas == old(self).used_gas,
            old(self).out@.len() <= old(self).patch.max_code_size ==> ({
                let cost = old(self).patch.gas_code_deposit_byte * old(self).out@.len();
                let left = old(self).context.gas_limit - old(self).used_gas;
                &&& cost <= left ==> final(self).used_gas == old(self).used_gas + cost && final(self).status
                    == MachineStatus::ExitedOk && final(substate)@.drop_last() == old(substate)@.drop_last()
                    && final(substate)@.last().accounts.drop_last() == old(substate)@.last().accounts
                    && final(substate)@.last().accounts.last().address == old(self).context.address
                    && crate::substate::opt_bytes(final(substate)@.last().accounts.last().code) == Some(
                    old(self).out@,
                )
                &&& cost > left && !old(self).patch.force_code_deposit ==> final(self).status
                    == MachineStatus::ExitedErr(ExitError::OutOfGas) && final(substate)@ == old(substate)@
                    && final(self).used_gas == old(self).used_gas
                &&& cost > left && old(self).patch.force_code_deposit ==> final(self).status
                    == MachineStatus::ExitedOk && final(self).used_gas == old(self).used_gas
                    && final(substate)@.drop_last() == old(substate)@.drop_last()
                    && final(substate)@.last().accounts.drop_last() == old(substate)@.last().accounts
                    && final(substate)@.last().accounts.last().address == old(self).context.address
                    && crate::substate::opt_bytes(final(substate)@.last().accounts.last().code) == Some(
                    Seq::<u8>::empty(),
                )
            }),
    {
        if self.out.len() > self.patch.max_code_size {
            self.status = MachineStatus::ExitedErr(ExitError::CreateContractLimit);
            return;
        }
        let cost = crate::gas::code_deposit_gas(&self.patch, self.out.len());
        let address = self.context.address;
        let basic = basic_of(substate, backend, address);
        if cost > self.context.gas_limit - self.used_gas {
            if self.patch.force_code_deposit {
                substate.set_account(address, basic, Some(Vec::new()));
            } else {
                self.status = MachineStatus::ExitedErr(ExitError::OutOfGas);
            }
        } else {
            self.used_gas = self.used_gas + cost;
            let code = self.out.clone();
            substate.set_account(address, basic, Some(code));
        }
    }
}

} // verus!
