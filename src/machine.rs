//! One frame of execution: its context, code, stack, memory, program counter
//! and gas, stepped one instruction at a time.
use vstd::prelude::*;
use crate::check::{check_opcode, ControlCheck};
use crate::errors::ExitError;
use crate::memory::{Memory, MEMORY_LIMIT};
use crate::opcode::{Instruction, is_valid, opcode_byte, static_cost};
use crate::patch::Patch;
use crate::stack::{Stack, from_top};
use crate::backend::Backend;
use crate::errors::ExitReason;
use crate::gas::memory_expansion_gas;
use crate::stack::{dup_of, swap_of};
use crate::substate::{Address, MemoryStackSubstate};
use crate::u256::wrap;
use crate::u256::{U256, be_value, word_modulus};
use vstd::arithmetic::power::pow;
use crate::memory::{byte_at, region};

verus! {

/// What a frame runs with.
#[derive(Clone, Copy, PartialEq, Eq, Debug, Structural)]
pub struct Context {
    /// The account whose code runs and whose storage is used.
    pub address: Address,
    pub caller: Address,
    pub origin: Address,
    /// The value the frame was called with.
    pub value: U256,
    pub gas_price: U256,
    pub gas_limit: u64,
    /// The number of frames below this one.
    pub depth: usize,
    /// A static frame may change no state.
    pub is_static: bool,
}

/// Where a frame stands.
#[derive(Clone, Copy, PartialEq, Eq, Debug, Structural)]
pub enum MachineStatus {
    Running,
    ExitedOk,
    ExitedRevert,
    ExitedErr(ExitError),
    /// Waiting for a sub-call; its output goes to memory at this offset and length.
    InvokeCall(Context, U256, U256),
    InvokeCreate(Context),
    /// Stopped on an instruction this machine does not carry out.
    ExitedFatal(crate::errors::ExitFatal),
}

/// The number of immediate bytes of an opcode byte: 1 to 32 for a PUSH, else 0.
pub open spec fn immediate_len(op: u8) -> nat {
    if 0x60 <= op <= 0x7f {
        (op - 0x5f) as nat
    } else {
        0
    }
}

/// Whether decoding from `j` onward reaches an instruction at `i`.
pub open spec fn starts_at(code: Seq<u8>, j: nat, i: nat) -> bool
    decreases code.len() + 33 - j,
{
    if j >= code.len() || j > i {
        false
    } else if j == i {
        true
    } else {
        starts_at(code, j + 1 + immediate_len(code[j as int]), i)
    }
}

/// Whether `i` is a legal jump target: a JUMPDEST byte that is an instruction, not data.
pub open spec fn is_jumpdest(code: Seq<u8>, i: nat) -> bool {
    i < code.len() && code[i as int] == 0x5b && starts_at(code, 0, i)
}

/// Marks each legal jump target of `code`.
pub fn jumpdest_map(code: &Vec<u8>) -> (r: Vec<bool>)
    ensures
        r@.len() == code@.len(),
        forall|i: int| 0 <= i < code@.len() ==> r@[i] == is_jumpdest(code@, i as nat),
{
    let mut valids: Vec<bool> = Vec::new();
    let mut j: usize = 0;
    while valids.len() < code.len()
        invariant
            valids@.len() <= code@.len(),
            j == valids@.len(),
            forall|i: int| 0 <= i < j ==> valids@[i] == is_jumpdest(code@, i as nat),
            forall|i: nat| i >= j ==> starts_at(code@, 0, i) == starts_at(code@, j as nat, i),
        decreases code@.len() - valids@.len(),
    {
        let op = code[j];
        let skip: usize = if 0x60 <= op && op <= 0x7f {
            (op - 0x5f) as usize
        } else {
            0
        };
        proof {
            assert forall|i: nat| i > j implies starts_at(code@, j as nat, i) == starts_at(
                code@,
                j as nat + 1 + immediate_len(op),
                i,
            ) by {}
        }
        valids.push(op == 0x5b);
        let mut k: usize = 0;
        while k < skip && valids.len() < code.len()
            invariant
                valids@.len() <= code@.len(),
                valids@.len() == j + 1 + k,
                k <= skip,
                skip == immediate_len(op),
                forall|i: int| 0 <= i <= j ==> valids@[i] == is_jumpdest(code@, i as nat),
                forall|i: int| j < i < valids@.len() ==> !valids@[i],
                forall|i: nat| j < i < j + 1 + skip ==> !starts_at(code@, 0, i),
            decreases skip - k,
        {
            valids.push(false);
            k = k + 1;
        }
        proof {
            assert forall|i: int| 0 <= i < valids@.len() implies valids@[i] == is_jumpdest(code@, i as nat) by {
                if i > j {
                    assert(!starts_at(code@, 0, i as nat));
                }
            }
        }
        j = valids.len();
    }
    valids
}

/// Whether an instruction changes state, which a static frame may not.
pub open spec fn mutates(i: Instruction, s: Seq<U256>) -> bool {
    match i {
        Instruction::SSTORE | Instruction::LOG(_) | Instruction::CREATE | Instruction::SUICIDE => true,
        Instruction::CALL => s.len() > 2 && from_top(s, 2).value() != 0,
        _ => false,
    }
}

/// The active words a region named on stack `s` needs: none when it is empty.
pub open spec fn region_words(s: Seq<U256>, r: crate::check::Region) -> nat {
    let (o, l) = match r {
        crate::check::Region::Operands(o, l) => (from_top(s, o as int).value(), from_top(s, l as int).value()),
        crate::check::Region::Fixed(o, l) => (from_top(s, o as int).value(), l as nat),
    };
    if l == 0 {
        0
    } else {
        (o + l + 31) / 32
    }
}

/// The active words after the first `n` regions of `rs` are touched, from `init`.
pub open spec fn words_upto(s: Seq<U256>, rs: Seq<crate::check::Region>, n: nat, init: nat) -> nat
    decreases n,
{
    if n == 0 {
        init
    } else {
        let w = words_upto(s, rs, (n - 1) as nat, init);
        let x = region_words(s, rs[n - 1]);
        if x > w {
            x
        } else {
            w
        }
    }
}

/// The active words after an instruction touches its regions.
pub open spec fn words_after(i: Instruction, s: Seq<U256>, mem_len: nat) -> nat {
    words_upto(s, crate::check::regions(i), crate::check::regions(i).len(), mem_len / 32)
}

/// The cost of growing memory from `cur` to `next` words.
pub open spec fn expansion_cost(cur: nat, next: nat) -> nat {
    if next <= cur {
        0
    } else {
        (crate::gas::memory_cost(next) - crate::gas::memory_cost(cur)) as nat
    }
}

/// A bound on the cost of an instruction beyond its static cost and memory
/// growth, exact for SHA3, LOG and the copies.
pub open spec fn dynamic_bound(patch: Patch, i: Instruction, s: Seq<U256>) -> nat {
    match i {
        Instruction::SHA3 => 6 * crate::gas::div_ceil(from_top(s, 1).value(), 32),
        Instruction::LOG(n) => (375 + 375 * n + 8 * from_top(s, 1).value()) as nat,
        Instruction::CALLDATACOPY | Instruction::CODECOPY => 3 * crate::gas::div_ceil(from_top(s, 2).value(), 32),
        Instruction::EXP => (32 * patch.gas_expbyte) as nat,
        Instruction::SLOAD => patch.gas_sload as nat,
        _ => 0,
    }
}

/// Instructions whose cost depends on what the backend holds (SSTORE, on the
/// stored value; the calls, on the callee's account and on the gas asked for).
pub open spec fn cost_reads_backend(i: Instruction) -> bool {
    i is SSTORE || i is CALL || i is CALLCODE || i is DELEGATECALL
}

/// Instructions that end the frame or hand over to a sub-frame.
pub open spec fn halts_or_traps(i: Instruction) -> bool {
    i is STOP || i is RETURN || i is REVERT || i is SUICIDE || i is CALL || i is CALLCODE
        || i is DELEGATECALL || i is CREATE
}

/// The first of an instruction's checks before pricing that fails, if any:
/// the designated invalid opcode (and REVERT where the patch lacks it), a state change in a static frame, the
/// pre-check, and the jump destination.
pub open spec fn check_failure(m: Machine, i: Instruction) -> Option<ExitError> {
    if i == Instruction::INVALID || (i == Instruction::REVERT && !m.patch.has_revert) {
        Some(ExitError::DesignatedInvalid)
    } else if m.context.is_static && mutates(i, m.stack@) {
        Some(ExitError::StaticCallViolation)
    } else {
        match crate::check::precheck(i, m.stack@) {
            Err(e) => Some(e),
            Ok(Some(ControlCheck::Jump(d))) => if d.value() < m.code@.len() && is_jumpdest(m.code@, d.value()) {
                None
            } else {
                Some(ExitError::InvalidJump)
            },
            Ok(None) => None,
        }
    }
}

/// The input a sub-call reads: the `len` bytes of memory at `offset`, none when `len` is zero.
pub open spec fn call_input(mem: Seq<u8>, offset: U256, len: U256) -> Seq<u8> {
    if len.value() == 0 {
        Seq::empty()
    } else {
        region(mem, offset.value(), len.value())
    }
}

/// What CALL, CALLCODE or DELEGATECALL on stack `s`, in context `c`, with
/// memory `mem`, leaves in `after`: its operands popped (gas, address,
/// value except for DELEGATECALL, input and output windows), the program
/// counter moved on, and either a requested sub-call with 1 pushed, or a
/// refusal with 0 pushed.
pub open spec fn call_effect(i: Instruction, s: Seq<U256>, c: Context, patch: Patch, mem: Seq<u8>, after: Machine) -> bool {
    let delegate = i is DELEGATECALL;
    let pops: int = if delegate { 6 } else { 7 };
    let value = if delegate { c.value } else { from_top(s, 2) };
    let transfers = !delegate && value.value() != 0;
    &&& after.stack@.len() == s.len() - pops + 1
    &&& after.stack@.subrange(0, s.len() - pops) == s.subrange(0, s.len() - pops)
    &&& (after.status is Running ==> after.stack@.last().value() == 0)
    &&& (c.depth >= patch.callstack_limit ==> after.status is Running)
    &&& (after.status matches MachineStatus::InvokeCall(ctx, out_offset, out_len) ==> {
        &&& after.stack@.last().value() == 1
        &&& ctx.address == (if i is CALL { from_top(s, 1) } else { c.address })
        &&& ctx.caller == (if delegate { c.caller } else { c.address })
        &&& ctx.value == value
        &&& ctx.origin == c.origin
        &&& ctx.gas_price == c.gas_price
        &&& ctx.is_static == c.is_static
        &&& ctx.depth == c.depth + 1
        &&& after.invoke_code_address == from_top(s, 1)
        &&& after.invoke_transfers == !delegate
        &&& after.invoke_input@ == call_input(mem, from_top(s, pops - 4), from_top(s, pops - 3))
        &&& out_offset == from_top(s, pops - 2)
        &&& out_len == from_top(s, pops - 1)
    })
}

/// What CREATE on stack `s`, in context `c`, with memory `mem`, leaves in
/// `after`: its three operands popped, the program counter moved on, and
/// either a requested creation with the new address pushed, or a refusal
/// with 0 pushed.
pub open spec fn create_effect(s: Seq<U256>, c: Context, patch: Patch, mem: Seq<u8>, after: Machine) -> bool {
    &&& after.stack@.len() == s.len() - 2
    &&& after.stack@.subrange(0, s.len() - 3) == s.subrange(0, s.len() - 3)
    &&& (after.status is Running ==> after.stack@.last().value() == 0)
    &&& (c.depth >= patch.callstack_limit ==> after.status is Running)
    &&& (after.status matches MachineStatus::InvokeCreate(ctx) ==> {
        &&& after.stack@.last() == ctx.address
        &&& ctx.caller == c.address
        &&& ctx.value == from_top(s, 0)
        &&& ctx.origin == c.origin
        &&& ctx.gas_price == c.gas_price
        &&& ctx.is_static == c.is_static
        &&& ctx.depth == c.depth + 1
        &&& after.invoke_code_address == ctx.address
        &&& after.invoke_input@ == call_input(mem, from_top(s, 1), from_top(s, 2))
    })
}

/// The current layer with one more log entry.
pub open spec fn top_with_log(layers: Seq<crate::substate::LayerView>, l: crate::substate::Log) -> crate::substate::LayerView {
    crate::substate::LayerView { logs: layers.last().logs.push(l), ..layers.last() }
}

/// `after` is `before` with the log entry of LOG`n` appended to the current
/// layer: emitted by the frame's account, with the data named by the top two
/// words of `s` in `mem` and the next `n` words as topics.
pub open spec fn log_effect(
    n: nat,
    s: Seq<U256>,
    c: Context,
    mem: Seq<u8>,
    before: Seq<crate::substate::LayerView>,
    after: Seq<crate::substate::LayerView>,
) -> bool {
    exists|l: crate::substate::Log|
        {
            &&& after == crate::substate::with_top(before, #[trigger] top_with_log(before, l))
            &&& l.address == c.address
            &&& l.data@ == call_input(mem, from_top(s, 0), from_top(s, 1))
            &&& l.topics@.len() == n
            &&& forall|k: int| 0 <= k < n ==> #[trigger] l.topics@[k] == from_top(s, k + 2)
        }
}

/// A creation by `creator` was requested in `status`, over the layers
/// `before`, leaving `after`: the creator's nonce is bumped in a record
/// appended to the current layer, and the new address is the one that
/// `created_address` gives for the creator's address and its nonce before.
pub open spec fn created_by(
    before: Seq<crate::substate::LayerView>,
    after: Seq<crate::substate::LayerView>,
    creator: Address,
    status: MachineStatus,
) -> bool {
    &&& after.len() == before.len()
    &&& after.drop_last() == before.drop_last()
    &&& after.last().storage == before.last().storage
    &&& after.last().logs == before.last().logs
    &&& after.last().deletes == before.last().deletes
    &&& after.last().accounts.drop_last() == before.last().accounts
    &&& after.last().accounts.last().address == creator
    &&& (crate::substate::known_account_of(before, creator) matches Some(p) ==> {
        &&& after.last().accounts.last().basic.balance == p.basic.balance
        &&& after.last().accounts.last().basic.nonce.value() == (p.basic.nonce.value() + 1)
            % crate::u256::word_modulus()
        &&& status matches MachineStatus::InvokeCreate(ctx) && exists|sb: Seq<u8>, nb: Seq<u8>|
            be_value(nb) == p.basic.nonce.value() && nb.len() == 32 && be_value(sb) == creator.value()
                % crate::u256::pow256(20) && sb.len() == 20 && ctx.address.value()
                == #[trigger] crate::lifecycle::created_address(sb, nb)
    })
}

/// The gas a callee asking for `requested` receives when `after` is left to
/// the caller: the request, capped by the patch's rule.
pub open spec fn callee_gas(patch: Patch, requested: nat, after: nat) -> nat {
    if requested <= crate::gas::callee_gas_cap(patch, after) {
        requested
    } else {
        crate::gas::callee_gas_cap(patch, after)
    }
}

/// The free gas a call adds to its callee's budget: the stipend where it moves value.
pub open spec fn stipend_of(i: Instruction, s: Seq<U256>, patch: Patch) -> nat {
    if !(i is DELEGATECALL) && from_top(s, 2).value() != 0 {
        patch.call_stipend as nat
    } else {
        0
    }
}

/// A call the caller can pay for is owed: below the depth limit, and moving
/// no value, or a value its known balance covers.
pub open spec fn call_enters(i: Instruction, s: Seq<U256>, c: Context, patch: Patch, layers: Seq<crate::substate::LayerView>) -> bool {
    c.depth < patch.callstack_limit && (i is DELEGATECALL || from_top(s, 2).value() == 0 || (
    crate::substate::known_account_of(layers, c.address) matches Some(p) && p.basic.balance.value() >= from_top(
        s,
        2,
    ).value()))
}

/// A creation the creator can pay for is owed: below the depth limit, with a
/// known balance that covers the value.
pub open spec fn create_enters(s: Seq<U256>, c: Context, patch: Patch, layers: Seq<crate::substate::LayerView>) -> bool {
    c.depth < patch.callstack_limit && (crate::substate::known_account_of(layers, c.address) matches Some(p)
        && p.basic.balance.value() >= from_top(s, 0).value())
}

/// `after` is `before` once `address` has destroyed itself in favour of
/// `beneficiary` in the current layer: its balance, as the layers know it,
/// added to the beneficiary's, its own balance drained to zero, and the
/// address marked deleted.
pub open spec fn destructed(
    before: Seq<crate::substate::LayerView>,
    after: Seq<crate::substate::LayerView>,
    address: Address,
    beneficiary: Address,
) -> bool {
    let b = before.last().accounts;
    let a = after.last().accounts;
    &&& after.len() == before.len()
    &&& after.drop_last() == before.drop_last()
    &&& after.last().storage == before.last().storage
    &&& after.last().logs == before.last().logs
    &&& after.last().deletes == before.last().deletes.push(address)
    &&& a.last().address == address
    &&& a.last().basic.balance.value() == 0
    &&& (crate::substate::known_account_of(before, address) matches Some(p) ==> a.last().basic.nonce
        == p.basic.nonce)
    &&& (beneficiary == address ==> a.drop_last() == b)
    &&& (beneficiary != address ==> {
        &&& a.len() == b.len() + 2
        &&& a.subrange(0, b.len() as int) == b
        &&& a[a.len() - 2].address == beneficiary
        &&& (crate::substate::known_account_of(before, beneficiary) matches Some(q) ==> (
        crate::substate::known_account_of(before, address) matches Some(p) ==> a[a.len()
            - 2].basic.balance.value() == (q.basic.balance.value() + p.basic.balance.value())
            % crate::u256::word_modulus()))
    })
}

/// The value a two-operand arithmetic or comparison instruction pushes, for
/// top operand `a` and second operand `b`; None for other instructions.
pub open spec fn binop_value(i: Instruction, a: U256, b: U256) -> Option<nat> {
    match i {
        Instruction::ADD => Some(wrap(a.value() + b.value())),
        Instruction::SUB => Some(wrap((a.value() - b.value() + word_modulus()) as nat)),
        Instruction::MUL => Some(wrap(a.value() * b.value())),
        Instruction::DIV => Some(if b.value() == 0 { 0 } else { a.value() / b.value() }),
        Instruction::MOD => Some(if b.value() == 0 { 0 } else { a.value() % b.value() }),
        Instruction::EXP => Some((pow(a.value() as int, b.value()) % word_modulus() as int) as nat),
        Instruction::LT => Some(if a.value() < b.value() { 1 } else { 0 }),
        Instruction::GT => Some(if a.value() > b.value() { 1 } else { 0 }),
        Instruction::EQ => Some(if a.value() == b.value() { 1 } else { 0 }),
        _ => None,
    }
}

/// A frame's execution state.
pub struct Machine {
    pub context: Context,
    pub patch: Patch,
    pub code: Vec<u8>,
    pub data: Vec<u8>,
    pub valids: Vec<bool>,
    pub stack: Stack,
    pub memory: Memory,
    pub pc: usize,
    pub used_gas: u64,
    pub refunded_gas: i64,
    pub out: Vec<u8>,
    pub return_data: Vec<u8>,
    /// The input of the sub-call the frame waits on.
    pub invoke_input: Vec<u8>,
    /// The account whose code the sub-call runs.
    pub invoke_code_address: Address,
    /// Whether the sub-call moves its value (DELEGATECALL does not).
    pub invoke_transfers: bool,
    pub status: MachineStatus,
}

/// The bytes `n` immediate bytes after `pc`, zero past the end of the code.
pub open spec fn immediate(code: Seq<u8>, pc: nat, n: nat) -> Seq<u8> {
    crate::memory::region(code, pc + 1, n)
}

/// `i` is the instruction at the program counter: STOP past the end of the code.
pub open spec fn fetched(code: Seq<u8>, pc: nat, i: Instruction) -> bool {
    if pc >= code.len() {
        i == Instruction::STOP
    } else {
        is_valid(i) && opcode_byte(i) == code[pc as int]
    }
}

/// The largest code a frame runs.
pub const MAX_CODE_LEN: usize = 0x1000_0000;

/// The most gas a frame is given.
pub const MAX_FRAME_GAS: u64 = 0x1_0000_0000_0000;

impl Machine {
    /// Well-formed: stack and memory well-formed, the jump map belongs to the
    /// code, and gas used within the limit.
    pub open spec fn wf(&self) -> bool {
        &&& self.stack.wf()
        &&& self.memory.wf()
        &&& self.patch.wf()
        &&& self.code@.len() <= MAX_CODE_LEN
        &&& self.data@.len() <= MAX_CODE_LEN
        &&& self.valids@.len() == self.code@.len()
        &&& forall|i: int| 0 <= i < self.code@.len() ==> self.valids@[i] == is_jumpdest(self.code@, i as nat)
        &&& self.context.gas_limit <= MAX_FRAME_GAS
        &&& self.used_gas <= self.context.gas_limit
        &&& self.pc <= MAX_CODE_LEN + 33
        &&& self.out@.len() <= MEMORY_LIMIT
    }

    /// A frame about to run `code` on `data`.
    pub fn new(context: Context, code: Vec<u8>, data: Vec<u8>, patch: Patch) -> (r: Machine)
        requires
            patch.wf(),
            code@.len() <= MAX_CODE_LEN,
            data@.len() <= MAX_CODE_LEN,
            context.gas_limit <= MAX_FRAME_GAS,
        ensures
            r.wf(),
            r.context == context,
            r.patch == patch,
            r.code@ == code@,
            r.data@ == data@,
            r.stack@.len() == 0,
            r.memory@.len() == 0,
            r.pc == 0,
            r.used_gas == 0,
            r.refunded_gas == 0,
            r.out@.len() == 0,
            r.status == MachineStatus::Running,
    {
        let valids = jumpdest_map(&code);
        Machine {
            context,
            patch,
            code,
            data,
            valids,
            stack: Stack::new(),
            memory: Memory::new(),
            pc: 0,
            used_gas: 0,
            refunded_gas: 0,
            out: Vec::new(),
            return_data: Vec::new(),
            invoke_input: Vec::new(),
            invoke_code_address: U256::zero(),
            invoke_transfers: false,
            status: MachineStatus::Running,
        }
    }

    /// The gas still available.
    pub fn available_gas(&self) -> (r: u64)
        requires
            self.wf(),
        ensures
            r == self.context.gas_limit - self.used_gas,
    {
        self.context.gas_limit - self.used_gas
    }

    /// The instruction at the program counter; None for a byte that encodes none.
    pub fn fetch(&self) -> (r: Option<Instruction>)
        ensures
            r matches Some(i) ==> fetched(self.code@, self.pc as nat, i),
            r is None ==> forall|i: Instruction| !fetched(self.code@, self.pc as nat, i),
    {
        if self.pc >= self.code.len() {
            Some(Instruction::STOP)
        } else {
            Instruction::decode(self.code[self.pc])
        }
    }

    /// The `n` immediate bytes after the program counter, as a word.
    fn read_immediate(&self, n: usize) -> (r: U256)
        requires
            n <= 32,
            self.pc <= MAX_CODE_LEN + 33,
        ensures
            r.value() == be_value(immediate(self.code@, self.pc as nat, n as nat)),
    {
        let mut bytes: Vec<u8> = Vec::new();
        let mut k: usize = 0;
        while k < n
            invariant
                k <= n <= 32,
                self.pc <= MAX_CODE_LEN + 33,
                bytes@ == immediate(self.code@, self.pc as nat, k as nat),
            decreases n - k,
        {
            let at = self.pc + 1 + k;
            let b = if at < self.code.len() {
                self.code[at]
            } else {
                0
            };
            bytes.push(b);
            k = k + 1;
            proof {
                assert(bytes@ =~= immediate(self.code@, self.pc as nat, k as nat));
            }
        }
        U256::from_be_bytes(bytes.as_slice())
    }


    /// Whether the instruction changes state, which a static frame may not.
    fn mutates_state(&self, i: Instruction) -> (r: bool)
        requires
            self.stack.wf(),
        ensures
            r == mutates(i, self.stack@),
    {
        match i {
            Instruction::SSTORE | Instruction::LOG(_) | Instruction::CREATE | Instruction::SUICIDE => true,
            Instruction::CALL => match self.stack.peek(2) {
                Ok(v) => !v.is_zero(),
                Err(_) => false,
            },
            _ => false,
        }
    }

    /// A slot of this frame's account as the frame sees it.
    fn storage_at<B: Backend>(&self, substate: &MemoryStackSubstate, backend: &B, key: U256) -> (r: U256)
        ensures
            crate::substate::known_storage_of(substate@, self.context.address, key) matches Some(v) ==> r.value()
                == v,
    {
        match substate.known_storage(self.context.address, key) {
            Some(v) => v,
            None => backend.storage(self.context.address, key),
        }
    }

    /// The cost of an instruction beyond its static cost and memory growth.
    fn dynamic_gas<B: Backend>(
        &self,
        i: Instruction,
        substate: &MemoryStackSubstate,
        backend: &B,
    ) -> (r: u64)
        requires
            self.wf(),
            is_valid(i),
            self.stack@.len() >= crate::opcode::stack_io(i).0,
            forall|k: int|
                0 <= k < crate::check::regions(i).len() ==> crate::check::region_ok(
                    self.stack@,
                    #[trigger] crate::check::regions(i)[k],
                ),
        ensures
            r <= 0x1_0000_0000_0000,
            !cost_reads_backend(i) ==> r <= dynamic_bound(self.patch, i, self.stack@),
    {
        match i {
            Instruction::SHA3 | Instruction::CALLDATACOPY | Instruction::CODECOPY | Instruction::LOG(_) => {
                let len_slot: usize = match i {
                    Instruction::SHA3 | Instruction::LOG(_) => 1,
                    _ => 2,
                };
                let len = match self.stack.peek(len_slot) {
                    Ok(v) => v,
                    Err(_) => U256::zero(),
                };
                proof {
                    assert(crate::check::region_ok(self.stack@, crate::check::regions(i)[0]));
                }
                if !len.fits_u64() || len.low_u64() > MEMORY_LIMIT as u64 {
                    return 0;
                }
                let l = len.low_u64();
                proof {
                    assert(crate::gas::div_ceil(l as nat, 32) <= l as nat + 1);
                }
                let g = match i {
                    Instruction::SHA3 => crate::gas::sha3_gas(l) - 30,
                    Instruction::LOG(n) => crate::gas::log_gas(n as u64, l),
                    _ => crate::gas::copy_gas(l) - 3,
                };
                g
            },
            Instruction::EXP => {
                let e = match self.stack.peek(1) {
                    Ok(v) => v,
                    Err(_) => U256::zero(),
                };
                crate::gas::exp_gas(&self.patch, &e) - 10
            },
            Instruction::SLOAD => self.patch.gas_sload,
            Instruction::SSTORE => {
                let key = match self.stack.peek(0) {
                    Ok(v) => v,
                    Err(_) => U256::zero(),
                };
                let new = match self.stack.peek(1) {
                    Ok(v) => v,
                    Err(_) => U256::zero(),
                };
                let current = self.storage_at(substate, backend, key);
                let original = match substate.known_original_storage(self.context.address, key) {
                    Some(v) => v,
                    None => backend.original_storage(self.context.address, key),
                };
                let (cost, _) = crate::gas::sstore_gas(&self.patch, &original, &current, &new);
                cost
            },
            Instruction::CALL | Instruction::CALLCODE | Instruction::DELEGATECALL => {
                let transfers = match i {
                    Instruction::DELEGATECALL => false,
                    _ => match self.stack.peek(2) {
                        Ok(v) => !v.is_zero(),
                        Err(_) => false,
                    },
                };
                let mut new_account = false;
                if transfers && i == Instruction::CALL {
                    let to = match self.stack.peek(1) {
                        Ok(v) => v,
                        Err(_) => U256::zero(),
                    };
                    let basic = crate::lifecycle::basic_of(substate, backend, to);
                    let code_len = match substate.known_code(to) {
                        Some(c) => c.len(),
                        None => backend.code(to).len(),
                    };
                    new_account = basic.balance.is_zero() && basic.nonce.is_zero() && code_len == 0;
                }
                crate::gas::call_gas(&self.patch, transfers, new_account)
            },
            _ => 0,
        }
    }

    /// Ends the frame with an error, leaving everything else as it was.
    fn fail(&mut self, e: ExitReason) -> (r: Result<u64, ExitReason>)
        ensures
            r == Err::<u64, ExitReason>(e),
            final(self).stack@ == old(self).stack@,
            final(self).memory@ == old(self).memory@,
            final(self).pc == old(self).pc,
            final(self).used_gas == old(self).used_gas,
            final(self).context == old(self).context,
            final(self).patch == old(self).patch,
            final(self).code@ == old(self).code@,
            final(self).data@ == old(self).data@,
            final(self).valids@ == old(self).valids@,
            final(self).stack.wf() == old(self).stack.wf(),
            final(self).memory.wf() == old(self).memory.wf(),
            old(self).wf() ==> final(self).wf(),
            final(self).status == (match e {
                ExitReason::Error(x) => MachineStatus::ExitedErr(x),
                ExitReason::Fatal(f) => MachineStatus::ExitedFatal(f),
                _ => MachineStatus::ExitedRevert,
            }),
    {
        self.status = match e {
            ExitReason::Error(x) => MachineStatus::ExitedErr(x),
            ExitReason::Fatal(f) => MachineStatus::ExitedFatal(f),
            _ => MachineStatus::ExitedRevert,
        };
        Err(e)
    }


    /// Runs one instruction: decode, pre-check, price, then execute. An
    /// instruction that fails any check, or whose cost exceeds the gas left,
    /// ends the frame without any other change; one that runs has been charged
    /// its full cost first.
    pub fn step<B: Backend>(&mut self, substate: &mut MemoryStackSubstate, backend: &B) -> (r: Result<
        u64,
        ExitReason,
    >)
        requires
            old(self).wf(),
            old(self).status == MachineStatus::Running,
            old(substate).wf(),
        ensures
            final(self).wf(),
            final(substate).wf(),
            final(substate)@.len() == old(substate)@.len(),
            final(self).context == old(self).context,
            final(self).patch == old(self).patch,
            final(self).code@ == old(self).code@,
            final(self).data@ == old(self).data@,
            final(self).status is InvokeCall ==> final(self).stack@.len() >= 1,
            final(self).status is InvokeCreate ==> final(self).stack@.len() >= 1,
            final(self).status matches MachineStatus::InvokeCreate(ctx) ==> ctx.depth == old(self).context.depth
                + 1 && ctx.depth <= old(self).patch.callstack_limit,
            final(self).status matches MachineStatus::InvokeCall(ctx, _, _) ==> ctx.depth == old(self).context.depth + 1 && ctx.depth <= old(self).patch.callstack_limit,
            (forall|i: Instruction| !fetched(old(self).code@, old(self).pc as nat, i)) ==> r == Err::<
                u64,
                ExitReason,
            >(ExitReason::Error(ExitError::DesignatedInvalid)),
            forall|i: Instruction|
                #[trigger] fetched(old(self).code@, old(self).pc as nat, i) && check_failure(*old(self), i)
                    is Some ==> r == Err::<u64, ExitReason>(
                    ExitReason::Error(check_failure(*old(self), i).unwrap()),
                ),
            forall|i: Instruction|
                #[trigger] fetched(old(self).code@, old(self).pc as nat, i) && check_failure(*old(self), i)
                    is None && static_cost(i) + expansion_cost(
                    old(self).memory@.len() / 32,
                    words_after(i, old(self).stack@, old(self).memory@.len()),
                ) > old(self).context.gas_limit - old(self).used_gas ==> r == Err::<u64, ExitReason>(
                    ExitReason::Error(ExitError::OutOfGas),
                ),
            forall|i: Instruction|
                #[trigger] fetched(old(self).code@, old(self).pc as nat, i) && check_failure(*old(self), i)
                    is None && !cost_reads_backend(i) && static_cost(i) + expansion_cost(
                    old(self).memory@.len() / 32,
                    words_after(i, old(self).stack@, old(self).memory@.len()),
                ) + dynamic_bound(old(self).patch, i, old(self).stack@) <= old(self).context.gas_limit
                    - old(self).used_gas ==> r is Ok && (!halts_or_traps(i) ==> final(self).status
                    == MachineStatus::Running),
            forall|i: Instruction|
                #[trigger] fetched(old(self).code@, old(self).pc as nat, i) && (i is CALL || i is CALLCODE
                    || i is DELEGATECALL) && r is Ok ==> call_effect(
                    i,
                    old(self).stack@,
                    old(self).context,
                    old(self).patch,
                    old(self).memory@,
                    *final(self),
                ),
            fetched(old(self).code@, old(self).pc as nat, Instruction::CREATE) && r is Ok ==> create_effect(
                old(self).stack@,
                old(self).context,
                old(self).patch,
                old(self).memory@,
                *final(self),
            ),
            fetched(old(self).code@, old(self).pc as nat, Instruction::SLOAD) && r is Ok ==> final(self).stack@.len()
                == old(self).stack@.len() && final(self).stack@.drop_last() == old(self).stack@.drop_last()
                && final(self).pc == old(self).pc + 1 && final(substate)@ == old(substate)@ && (
            crate::substate::known_storage_of(
                old(substate)@,
                old(self).context.address,
                from_top(old(self).stack@, 0),
            ) matches Some(v) ==> final(self).stack@.last().value() == v),
            fetched(old(self).code@, old(self).pc as nat, Instruction::MSTORE8) && r is Ok ==> final(self).stack@
                == old(self).stack@.drop_last().drop_last() && final(self).pc == old(self).pc + 1 && forall|j: int|
                #[trigger] byte_at(final(self).memory@, j) == if j == from_top(old(self).stack@, 0).value() {
                    (from_top(old(self).stack@, 1).value() % 256) as u8
                } else {
                    byte_at(old(self).memory@, j)
                },
            forall|n: usize|
                #[trigger] fetched(old(self).code@, old(self).pc as nat, Instruction::LOG(n)) && r is Ok ==> final(self).stack@ == old(self).stack@.subrange(0, old(self).stack@.len() - n - 2) && final(self).pc == old(self).pc + 1 && log_effect(
                    n as nat,
                    old(self).stack@,
                    old(self).context,
                    old(self).memory@,
                    old(substate)@,
                    final(substate)@,
                ),
            fetched(old(self).code@, old(self).pc as nat, Instruction::SUICIDE) && r is Ok ==> final(self).status
                == MachineStatus::ExitedOk && final(substate)@.last().deletes == old(substate)@.last().deletes.push(
                old(self).context.address,
            ),
            forall|i: Instruction|
                #[trigger] fetched(old(self).code@, old(self).pc as nat, i) && (i is CALL || i is CALLCODE) && r is Ok
                    && (crate::substate::known_account_of(old(substate)@, old(self).context.address) matches Some(
                    p,
                ) && p.basic.balance.value() < from_top(old(self).stack@, 2).value()) ==> final(self).status
                    is Running,
            forall|i: Instruction|
                #[trigger] fetched(old(self).code@, old(self).pc as nat, i) && (i is CALL || i is CALLCODE
                    || i is DELEGATECALL) && r is Ok ==> {
                    &&& (call_enters(i, old(self).stack@, old(self).context, old(self).patch, old(substate)@)
                        ==> final(self).status is InvokeCall)
                    &&& (r matches Ok(c) && final(self).status matches MachineStatus::InvokeCall(ctx, _, _) ==> {
                        let child = ctx.gas_limit - stipend_of(i, old(self).stack@, old(self).patch);
                        &&& c - child >= static_cost(i)
                        &&& child == callee_gas(
                            old(self).patch,
                            from_top(old(self).stack@, 0).value(),
                            (old(self).context.gas_limit - old(self).used_gas - (c - child)) as nat,
                        )
                    })
                    &&& (final(self).status is Running ==> final(substate)@ == old(substate)@)
                },
            fetched(old(self).code@, old(self).pc as nat, Instruction::CREATE) && r is Ok ==> {
                &&& (create_enters(old(self).stack@, old(self).context, old(self).patch, old(substate)@)
                    ==> final(self).status is InvokeCreate)
                &&& (r matches Ok(c) && final(self).status matches MachineStatus::InvokeCreate(ctx) ==> {
                    &&& c - ctx.gas_limit >= static_cost(Instruction::CREATE)
                    &&& ctx.gas_limit == crate::gas::callee_gas_cap(
                        old(self).patch,
                        (old(self).context.gas_limit - old(self).used_gas - (c - ctx.gas_limit)) as nat,
                    )
                })
                &&& (final(self).status is InvokeCreate ==> created_by(
                    old(substate)@,
                    final(substate)@,
                    old(self).context.address,
                    final(self).status,
                ))
                &&& (final(self).status is Running ==> final(substate)@ == old(substate)@)
            },
            fetched(old(self).code@, old(self).pc as nat, Instruction::SUICIDE) && r is Ok ==> destructed(
                old(substate)@,
                final(substate)@,
                old(self).context.address,
                from_top(old(self).stack@, 0),
            ),
            fetched(old(self).code@, old(self).pc as nat, Instruction::SLOAD) && r is Ok ==> final(self).memory@
                == old(self).memory@,
            forall|i: Instruction|
                #[trigger] fetched(old(self).code@, old(self).pc as nat, i) && r is Ok && binop_value(
                    i,
                    from_top(old(self).stack@, 0),
                    from_top(old(self).stack@, 1),
                ) is Some ==> {
                    &&& final(self).stack@.len() > 0
                    &&& final(self).stack@.drop_last() == old(self).stack@.drop_last().drop_last()
                    &&& final(self).stack@.last().value() == binop_value(
                        i,
                        from_top(old(self).stack@, 0),
                        from_top(old(self).stack@, 1),
                    ).unwrap()
                    &&& final(self).pc == old(self).pc + 1
                },
            fetched(old(self).code@, old(self).pc as nat, Instruction::JUMP) && r is Ok ==> final(self).stack@
                == old(self).stack@.drop_last() && final(self).pc == from_top(old(self).stack@, 0).value(),
            fetched(old(self).code@, old(self).pc as nat, Instruction::JUMPI) && r is Ok ==> final(self).stack@
                == old(self).stack@.drop_last().drop_last() && final(self).pc == if from_top(old(self).stack@, 1).value()
                != 0 {
                from_top(old(self).stack@, 0).value() as int
            } else {
                old(self).pc + 1
            },
            forall|i: Instruction|
                #[trigger] fetched(old(self).code@, old(self).pc as nat, i) && (i is RETURN || i is REVERT)
                    && r is Ok ==> final(self).out@ == call_input(
                    old(self).memory@,
                    from_top(old(self).stack@, 0),
                    from_top(old(self).stack@, 1),
                ) && final(self).status == (if i is RETURN {
                    MachineStatus::ExitedOk
                } else {
                    MachineStatus::ExitedRevert
                }),
            fetched(old(self).code@, old(self).pc as nat, Instruction::SHA3) && r is Ok ==> {
                &&& final(self).stack@.len() > 0
                &&& final(self).stack@.drop_last() == old(self).stack@.drop_last().drop_last()
                &&& final(self).stack@.last().value() == be_value(
                    crate::hashing::keccak256_of(
                        call_input(old(self).memory@, from_top(old(self).stack@, 0), from_top(old(self).stack@, 1)),
                    ),
                )
                &&& final(self).pc == old(self).pc + 1
            },
            fetched(old(self).code@, old(self).pc as nat, Instruction::SSTORE) && r is Ok ==> final(self).stack@
                == old(self).stack@.drop_last().drop_last() && final(self).pc == old(self).pc + 1 && final(substate)@
                == crate::substate::with_top(
                old(substate)@,
                crate::substate::top_with_storage(
                    old(substate)@,
                    crate::substate::StorageEvent::Write {
                        address: old(self).context.address,
                        key: from_top(old(self).stack@, 0),
                        value: from_top(old(self).stack@, 1),
                    },
                ),
            ),
            r is Err ==> final(self).stack@ == old(self).stack@ && final(self).memory@ == old(self).memory@
                && final(self).pc == old(self).pc && final(self).used_gas == old(self).used_gas
                && final(substate)@ == old(substate)@ && final(self).status != MachineStatus::Running,
            r matches Ok(c) ==> final(self).used_gas == old(self).used_gas + c && exists|i: Instruction|
                fetched(old(self).code@, old(self).pc as nat, i) && c >= static_cost(i),
            forall|n: usize|
                fetched(old(self).code@, old(self).pc as nat, Instruction::PUSH(n)) && r is Ok ==> {
                    &&& final(self).stack@.len() > 0
                    &&& final(self).stack@.drop_last() == old(self).stack@
                    &&& final(self).stack@.last().value() == be_value(
                        immediate(old(self).code@, old(self).pc as nat, n as nat),
                    )
                    &&& final(self).pc == old(self).pc + 1 + n
                },
            fetched(old(self).code@, old(self).pc as nat, Instruction::POP) && r is Ok ==> final(self).stack@ == old(self).stack@.drop_last() && final(self).pc == old(self).pc + 1,
            forall|n: usize|
                fetched(old(self).code@, old(self).pc as nat, Instruction::DUP(n)) && r is Ok ==> final(self).stack@ == dup_of(old(self).stack@, n as int) && final(self).pc == old(self).pc + 1,
            forall|n: usize|
                fetched(old(self).code@, old(self).pc as nat, Instruction::SWAP(n)) && r is Ok ==> final(self).stack@ == swap_of(old(self).stack@, n as int) && final(self).pc == old(self).pc + 1,
            fetched(old(self).code@, old(self).pc as nat, Instruction::ADD) && r is Ok ==> {
                &&& final(self).stack@.len() > 0
                &&& final(self).stack@.drop_last() == old(self).stack@.drop_last().drop_last()
                &&& final(self).stack@.last().value() == wrap(
                    from_top(old(self).stack@, 0).value() + from_top(old(self).stack@, 1).value(),
                )
                &&& final(self).pc == old(self).pc + 1
            },
            fetched(old(self).code@, old(self).pc as nat, Instruction::MSTORE) && r is Ok ==> {
                &&& final(self).stack@ == old(self).stack@.drop_last().drop_last()
                &&& final(self).pc == old(self).pc + 1
                &&& exists|b: Seq<u8>|
                    b.len() == 32 && be_value(b) == from_top(old(self).stack@, 1).value() && forall|j: int|
                        #[trigger] byte_at(final(self).memory@, j) == if from_top(old(self).stack@, 0).value()
                            <= j < from_top(old(self).stack@, 0).value() + 32 {
                            b[j - from_top(old(self).stack@, 0).value()]
                        } else {
                            byte_at(old(self).memory@, j)
                        }
            },
            fetched(old(self).code@, old(self).pc as nat, Instruction::MLOAD) && r is Ok ==> {
                &&& final(self).stack@.len() > 0
                &&& final(self).stack@.drop_last() == old(self).stack@.drop_last()
                &&& final(self).stack@.last().value() == be_value(
                    region(old(self).memory@, from_top(old(self).stack@, 0).value(), 32),
                )
                &&& final(self).pc == old(self).pc + 1
            },
    {
        let i = match self.fetch() {
            Some(i) => i,
            None => {
                return self.fail(ExitReason::Error(ExitError::DesignatedInvalid));
            },
        };
        proof {
            assert forall|j: Instruction| fetched(old(self).code@, old(self).pc as nat, j) implies j == i by {
                if old(self).pc < old(self).code@.len() {
                    crate::opcode::lemma_opcode_byte_injective(i, j);
                }
            }
        }
        if i == Instruction::INVALID || (i == Instruction::REVERT && !self.patch.has_revert) {
            return self.fail(ExitReason::Error(ExitError::DesignatedInvalid));
        }
        if self.context.is_static && self.mutates_state(i) {
            return self.fail(ExitReason::Error(ExitError::StaticCallViolation));
        }
        let control = match check_opcode(i, &self.stack) {
            Ok(c) => c,
            Err(e) => {
                return self.fail(ExitReason::Error(e));
            },
        };
        let mut target: usize = 0;
        match control {
            Some(ControlCheck::Jump(dest)) => {
                if !dest.fits_u64() {
                    return self.fail(ExitReason::Error(ExitError::InvalidJump));
                }
                proof {
                    vstd::arithmetic::div_mod::lemma_small_mod(dest.value(), crate::u256::limb_base());
                }
                let d = dest.low_u64();
                if d >= self.code.len() as u64 || !self.valids[d as usize] {
                    return self.fail(ExitReason::Error(ExitError::InvalidJump));
                }
                target = d as usize;
            },
            None => {},
        }
        let words = self.memory_words_after(i);
        let current_words = (self.memory.len() / 32) as u64;
        let cost = i.static_gas() + memory_expansion_gas(current_words, words) + self.dynamic_gas(
            i,
            substate,
            backend,
        );
        if cost > self.context.gas_limit - self.used_gas {
            return self.fail(ExitReason::Error(ExitError::OutOfGas));
        }
        let mut child_gas: u64 = 0;
        if i == Instruction::CALL || i == Instruction::CALLCODE || i == Instruction::DELEGATECALL {
            let requested = match self.stack.peek(0) {
                Ok(v) => v,
                Err(_) => U256::zero(),
            };
            let after_gas = self.context.gas_limit - self.used_gas - cost;
            child_gas = match crate::gas::callee_gas_limit(&self.patch, &requested, after_gas) {
                Ok(g) => g,
                Err(e) => {
                    return self.fail(ExitReason::Error(e));
                },
            };
        }
        if i == Instruction::CREATE {
            let after_gas = self.context.gas_limit - self.used_gas - cost;
            child_gas = if self.patch.call_l64_after_gas {
                after_gas - after_gas / 64
            } else {
                after_gas
            };
        }
        let total = cost + child_gas;
        let before = self.used_gas;
        self.used_gas = self.used_gas + total;
        self.memory.expand(0, (words * 32) as usize);
        let ghost mid = self.memory@;
        self.execute(i, target, child_gas, substate, backend);
        proof {
            if i == Instruction::MSTORE {
                let o = from_top(old(self).stack@, 0).value();
                let b = choose|b: Seq<u8>|
                    b.len() == 32 && be_value(b) == from_top(old(self).stack@, 1).value() && self.memory@
                        == crate::memory::written(mid, o, b);
                assert forall|j: int| #[trigger] byte_at(self.memory@, j) == if o <= j < o + 32 {
                    b[j - o]
                } else {
                    byte_at(old(self).memory@, j)
                } by {
                    crate::memory::lemma_written_bytes(mid, o, b, j);
                }
            }
            if i == Instruction::MLOAD {
                let o = from_top(old(self).stack@, 0).value();
                assert(region(mid, o, 32) =~= region(old(self).memory@, o, 32));
            }
            if i == Instruction::SLOAD {
                assert(words_after(i, old(self).stack@, old(self).memory@.len()) == old(self).memory@.len() / 32);
                assert forall|j: int| 0 <= j < mid.len() implies mid[j] == old(self).memory@[j] by {
                    assert(byte_at(mid, j) == byte_at(old(self).memory@, j));
                }
                assert(mid =~= old(self).memory@);
            }
            if i == Instruction::MSTORE8 {
                let o = from_top(old(self).stack@, 0).value();
                let b = seq![(from_top(old(self).stack@, 1).value() % 256) as u8];
                assert forall|j: int| #[trigger] byte_at(self.memory@, j) == if j == o {
                    (from_top(old(self).stack@, 1).value() % 256) as u8
                } else {
                    byte_at(old(self).memory@, j)
                } by {
                    crate::memory::lemma_written_bytes(mid, o, b, j);
                }
            }
            if i is LOG || i is RETURN || i is REVERT || i is SHA3 {
                let o = from_top(old(self).stack@, 0);
                let l = from_top(old(self).stack@, 1);
                assert(call_input(mid, o, l) =~= call_input(old(self).memory@, o, l));
            }
            if i is CREATE {
                let o = from_top(old(self).stack@, 1);
                let l = from_top(old(self).stack@, 2);
                assert(call_input(mid, o, l) =~= call_input(old(self).memory@, o, l));
            }
            if fetched(old(self).code@, old(self).pc as nat, Instruction::CREATE) {
                assert(i == Instruction::CREATE);
            }
            if i is CALL || i is CALLCODE || i is DELEGATECALL {
                let pops: int = if i is DELEGATECALL { 6 } else { 7 };
                let o = from_top(old(self).stack@, pops - 4);
                let l = from_top(old(self).stack@, pops - 3);
                assert(call_input(mid, o, l) =~= call_input(old(self).memory@, o, l));
            }
            if fetched(old(self).code@, old(self).pc as nat, Instruction::MSTORE) && old(self).pc < old(self).code@.len() {
                crate::opcode::lemma_opcode_byte_injective(i, Instruction::MSTORE);
            }
            if fetched(old(self).code@, old(self).pc as nat, Instruction::MLOAD) && old(self).pc < old(self).code@.len() {
                crate::opcode::lemma_opcode_byte_injective(i, Instruction::MLOAD);
            }
        }
        proof {
            assert(fetched(old(self).code@, old(self).pc as nat, i) && self.used_gas - before >= static_cost(i));
            assert forall|n: usize| fetched(old(self).code@, old(self).pc as nat, Instruction::PUSH(n))
                implies i == Instruction::PUSH(n) by {
                if old(self).pc < old(self).code@.len() {
                    crate::opcode::lemma_opcode_byte_injective(i, Instruction::PUSH(n));
                }
            }
            assert forall|n: usize| fetched(old(self).code@, old(self).pc as nat, Instruction::DUP(n))
                implies i == Instruction::DUP(n) by {
                if old(self).pc < old(self).code@.len() {
                    crate::opcode::lemma_opcode_byte_injective(i, Instruction::DUP(n));
                }
            }
            assert forall|n: usize| fetched(old(self).code@, old(self).pc as nat, Instruction::SWAP(n))
                implies i == Instruction::SWAP(n) by {
                if old(self).pc < old(self).code@.len() {
                    crate::opcode::lemma_opcode_byte_injective(i, Instruction::SWAP(n));
                }
            }
            if fetched(old(self).code@, old(self).pc as nat, Instruction::POP) && old(self).pc < old(self).code@.len() {
                crate::opcode::lemma_opcode_byte_injective(i, Instruction::POP);
            }
            if fetched(old(self).code@, old(self).pc as nat, Instruction::ADD) && old(self).pc < old(self).code@.len() {
                crate::opcode::lemma_opcode_byte_injective(i, Instruction::ADD);
            }
        }
        Ok(self.used_gas - before)
    }


    /// Carries out an instruction that passed its checks and was paid for.
    fn execute<B: Backend>(
        &mut self,
        i: Instruction,
        target: usize,
        child_gas: u64,
        substate: &mut MemoryStackSubstate,
        backend: &B,
    )
        requires
            old(self).wf(),
            old(self).status == MachineStatus::Running,
            old(substate).wf(),
            is_valid(i),
            supported(i),
            fetched(old(self).code@, old(self).pc as nat, i),
            old(self).stack@.len() >= crate::opcode::stack_io(i).0,
            old(self).stack@.len() - crate::opcode::stack_io(i).0 + crate::opcode::stack_io(i).1 <= crate::stack::STACK_LIMIT,
            forall|k: int|
                0 <= k < crate::check::regions(i).len() ==> crate::check::region_ok(
                    old(self).stack@,
                    #[trigger] crate::check::regions(i)[k],
                ),
            (i == Instruction::JUMP || (i == Instruction::JUMPI && from_top(old(self).stack@, 1).value() != 0))
                ==> target < old(self).code@.len() && target == from_top(old(self).stack@, 0).value(),
            child_gas <= old(self).used_gas,
        ensures
            final(self).wf(),
            final(substate).wf(),
            final(substate)@.len() == old(substate)@.len(),
            final(self).context == old(self).context,
            final(self).patch == old(self).patch,
            final(self).code@ == old(self).code@,
            final(self).data@ == old(self).data@,
            (i is CALL || i is CALLCODE) && (crate::substate::known_account_of(old(substate)@, old(self).context.address)
                matches Some(p) && p.basic.balance.value() < from_top(old(self).stack@, 2).value())
                ==> final(self).status is Running,
            (i is CALL || i is CALLCODE || i is DELEGATECALL) ==> call_effect(
                i,
                old(self).stack@,
                old(self).context,
                old(self).patch,
                old(self).memory@,
                *final(self),
            ),
            i is CREATE ==> create_effect(
                old(self).stack@,
                old(self).context,
                old(self).patch,
                old(self).memory@,
                *final(self),
            ),
            i matches Instruction::LOG(n) ==> final(self).stack@ == old(self).stack@.subrange(
                0,
                old(self).stack@.len() - n - 2,
            ) && final(self).pc == old(self).pc + 1 && log_effect(
                n as nat,
                old(self).stack@,
                old(self).context,
                old(self).memory@,
                old(substate)@,
                final(substate)@,
            ),
            i == Instruction::MSTORE8 ==> final(self).stack@ == old(self).stack@.drop_last().drop_last()
                && final(self).pc == old(self).pc + 1 && final(self).memory@ == crate::memory::written(
                old(self).memory@,
                from_top(old(self).stack@, 0).value(),
                seq![(from_top(old(self).stack@, 1).value() % 256) as u8],
            ),
            i == Instruction::SLOAD ==> final(self).memory@ == old(self).memory@,
            i == Instruction::SLOAD ==> final(self).stack@.len() == old(self).stack@.len() && final(self).stack@.drop_last()
                == old(self).stack@.drop_last() && final(self).pc == old(self).pc + 1 && final(substate)@
                == old(substate)@ && (crate::substate::known_storage_of(
                old(substate)@,
                old(self).context.address,
                from_top(old(self).stack@, 0),
            ) matches Some(v) ==> final(self).stack@.last().value() == v),
            i == Instruction::SUICIDE ==> final(self).status == MachineStatus::ExitedOk && final(substate)@.last().deletes
                == old(substate)@.last().deletes.push(old(self).context.address),
            (i is CALL || i is CALLCODE || i is DELEGATECALL) ==> {
                &&& (final(self).status is Running ==> final(self).used_gas == old(self).used_gas - child_gas)
                &&& (final(self).status is InvokeCall ==> final(self).used_gas == old(self).used_gas)
                &&& (final(self).status matches MachineStatus::InvokeCall(ctx, _, _) ==> ctx.gas_limit == child_gas
                    + stipend_of(i, old(self).stack@, old(self).patch))
                &&& (call_enters(i, old(self).stack@, old(self).context, old(self).patch, old(substate)@)
                    ==> final(self).status is InvokeCall)
                &&& final(substate)@ == old(substate)@
            },
            i is CREATE ==> {
                &&& (final(self).status is Running ==> final(self).used_gas == old(self).used_gas - child_gas
                    && final(substate)@ == old(substate)@)
                &&& (final(self).status matches MachineStatus::InvokeCreate(ctx) ==> final(self).used_gas
                    == old(self).used_gas && ctx.gas_limit == child_gas)
                &&& (create_enters(old(self).stack@, old(self).context, old(self).patch, old(substate)@)
                    ==> final(self).status is InvokeCreate)
                &&& (final(self).status is InvokeCreate ==> created_by(
                    old(substate)@,
                    final(substate)@,
                    old(self).context.address,
                    final(self).status,
                ))
            },
            i == Instruction::SUICIDE ==> destructed(
                old(substate)@,
                final(substate)@,
                old(self).context.address,
                from_top(old(self).stack@, 0),
            ),
            i == Instruction::SLOAD ==> final(self).memory@ == old(self).memory@,
            (i is RETURN || i is REVERT) ==> final(self).out@ == call_input(
                old(self).memory@,
                from_top(old(self).stack@, 0),
                from_top(old(self).stack@, 1),
            ) && final(self).status == (if i is RETURN {
                MachineStatus::ExitedOk
            } else {
                MachineStatus::ExitedRevert
            }),
            i == Instruction::SHA3 ==> {
                &&& final(self).stack@.len() > 0
                &&& final(self).stack@.drop_last() == old(self).stack@.drop_last().drop_last()
                &&& final(self).stack@.last().value() == be_value(
                    crate::hashing::keccak256_of(
                        call_input(old(self).memory@, from_top(old(self).stack@, 0), from_top(old(self).stack@, 1)),
                    ),
                )
                &&& final(self).pc == old(self).pc + 1
            },
            i == Instruction::SSTORE ==> final(self).stack@ == old(self).stack@.drop_last().drop_last()
                && final(self).pc == old(self).pc + 1 && final(substate)@ == crate::substate::with_top(
                old(substate)@,
                crate::substate::top_with_storage(
                    old(substate)@,
                    crate::substate::StorageEvent::Write {
                        address: old(self).context.address,
                        key: from_top(old(self).stack@, 0),
                        value: from_top(old(self).stack@, 1),
                    },
                ),
            ),
            !halts_or_traps(i) ==> final(self).status == old(self).status,
            final(self).used_gas <= old(self).used_gas,
            final(self).used_gas >= old(self).used_gas - child_gas,
            final(self).status is InvokeCall ==> final(self).stack@.len() >= 1,
            final(self).status == old(self).status || final(self).status is InvokeCall || final(self).status
                is ExitedOk || final(self).status is ExitedRevert || final(self).status is InvokeCreate,
            final(self).status is InvokeCreate ==> final(self).stack@.len() >= 1,
            final(self).status matches MachineStatus::InvokeCreate(ctx) ==> ctx.depth == old(self).context.depth
                + 1 && ctx.depth <= old(self).patch.callstack_limit,
            final(self).status matches MachineStatus::InvokeCall(ctx, _, _) ==> ctx.depth == old(self).context.depth + 1 && ctx.depth <= old(self).patch.callstack_limit,
            i matches Instruction::PUSH(n) ==> {
                &&& final(self).stack@.len() > 0
                &&& final(self).stack@.drop_last() == old(self).stack@
                &&& final(self).stack@.last().value() == be_value(
                    immediate(old(self).code@, old(self).pc as nat, n as nat),
                )
                &&& final(self).pc == old(self).pc + 1 + n
            },
            i == Instruction::POP ==> final(self).stack@ == old(self).stack@.drop_last() && final(self).pc
                == old(self).pc + 1,
            i matches Instruction::DUP(n) ==> final(self).stack@ == dup_of(old(self).stack@, n as int)
                && final(self).pc == old(self).pc + 1,
            i matches Instruction::SWAP(n) ==> final(self).stack@ == swap_of(old(self).stack@, n as int)
                && final(self).pc == old(self).pc + 1,
            binop_value(i, from_top(old(self).stack@, 0), from_top(old(self).stack@, 1)) is Some ==> {
                &&& final(self).stack@.len() > 0
                &&& final(self).stack@.drop_last() == old(self).stack@.drop_last().drop_last()
                &&& final(self).stack@.last().value() == binop_value(
                    i,
                    from_top(old(self).stack@, 0),
                    from_top(old(self).stack@, 1),
                ).unwrap()
                &&& final(self).pc == old(self).pc + 1
            },
            i == Instruction::JUMP ==> final(self).stack@ == old(self).stack@.drop_last() && final(self).pc
                == from_top(old(self).stack@, 0).value(),
            i == Instruction::JUMPI ==> final(self).stack@ == old(self).stack@.drop_last().drop_last() && final(self).pc
                == if from_top(old(self).stack@, 1).value() != 0 {
                from_top(old(self).stack@, 0).value() as int
            } else {
                old(self).pc + 1
            },
            i == Instruction::ADD ==> {
                &&& final(self).stack@.len() > 0
                &&& final(self).stack@.drop_last() == old(self).stack@.drop_last().drop_last()
                &&& final(self).stack@.last().value() == wrap(
                    from_top(old(self).stack@, 0).value() + from_top(old(self).stack@, 1).value(),
                )
                &&& final(self).pc == old(self).pc + 1
            },
            i == Instruction::MSTORE ==> final(self).stack@ == old(self).stack@.drop_last().drop_last()
                && final(self).pc == old(self).pc + 1 && exists|b: Seq<u8>|
                b.len() == 32 && be_value(b) == from_top(old(self).stack@, 1).value() && final(self).memory@
                    == crate::memory::written(old(self).memory@, from_top(old(self).stack@, 0).value(), b),
            i == Instruction::MLOAD ==> {
                &&& final(self).stack@.len() > 0
                &&& final(self).stack@.drop_last() == old(self).stack@.drop_last()
                &&& final(self).stack@.last().value() == be_value(
                    region(old(self).memory@, from_top(old(self).stack@, 0).value(), 32),
                )
                &&& final(self).memory@ == old(self).memory@
                &&& final(self).pc == old(self).pc + 1
            },
    {
        match i {
            Instruction::STOP | Instruction::RETURN | Instruction::REVERT | Instruction::MLOAD
            | Instruction::MSTORE | Instruction::MSTORE8 | Instruction::SHA3 | Instruction::LOG(_)
            | Instruction::CALLDATACOPY | Instruction::CODECOPY => {
                self.execute_memory(i, substate);
            },
            Instruction::SLOAD | Instruction::SSTORE | Instruction::BALANCE | Instruction::EXTCODESIZE
            | Instruction::SUICIDE | Instruction::EXTCODECOPY | Instruction::BLOCKHASH => {
                self.execute_storage(i, substate, backend);
            },
            Instruction::CALL | Instruction::CALLCODE | Instruction::DELEGATECALL => {
                self.trap_call(i, child_gas, substate, backend);
            },
            Instruction::CREATE => {
                proof {
                    assert(crate::check::region_ok(self.stack@, crate::check::regions(i)[0]));
                    assert(self.pc < self.code@.len());
                }
                self.trap_create(child_gas, substate, backend);
            },
            _ => {
                self.execute_stack(i, target, backend);
            },
        }
    }

    /// Instructions that work on the stack alone, or push a value of the context or the block.
    fn execute_stack<B: Backend>(&mut self, i: Instruction, target: usize, backend: &B)
        requires
            old(self).wf(),
            is_valid(i),
            supported(i),
            fetched(old(self).code@, old(self).pc as nat, i),
            old(self).stack@.len() >= crate::opcode::stack_io(i).0,
            old(self).stack@.len() - crate::opcode::stack_io(i).0 + crate::opcode::stack_io(i).1 <= crate::stack::STACK_LIMIT,
            forall|k: int|
                0 <= k < crate::check::regions(i).len() ==> crate::check::region_ok(
                    old(self).stack@,
                    #[trigger] crate::check::regions(i)[k],
                ),
            !(i is STOP || i is RETURN || i is REVERT || i is MLOAD || i is MSTORE || i is MSTORE8
                || i is SHA3 || i is LOG || i is SLOAD || i is SSTORE || i is CALL || i is CALLCODE
                || i is DELEGATECALL || i is CALLDATACOPY || i is CODECOPY || i is BALANCE
                || i is EXTCODESIZE || i is SUICIDE || i is CREATE || i is EXTCODECOPY
                || i is BLOCKHASH),
            (i == Instruction::JUMP || (i == Instruction::JUMPI && from_top(old(self).stack@, 1).value() != 0))
                ==> target < old(self).code@.len() && target == from_top(old(self).stack@, 0).value(),
        ensures
            final(self).wf(),
            final(self).context == old(self).context,
            final(self).patch == old(self).patch,
            final(self).code@ == old(self).code@,
            final(self).data@ == old(self).data@,
            final(self).used_gas == old(self).used_gas,
            final(self).status == old(self).status,
            i matches Instruction::PUSH(n) ==> {
                &&& final(self).stack@.len() > 0
                &&& final(self).stack@.drop_last() == old(self).stack@
                &&& final(self).stack@.last().value() == be_value(
                    immediate(old(self).code@, old(self).pc as nat, n as nat),
                )
                &&& final(self).pc == old(self).pc + 1 + n
            },
            i == Instruction::POP ==> final(self).stack@ == old(self).stack@.drop_last() && final(self).pc
                == old(self).pc + 1,
            i matches Instruction::DUP(n) ==> final(self).stack@ == dup_of(old(self).stack@, n as int)
                && final(self).pc == old(self).pc + 1,
            i matches Instruction::SWAP(n) ==> final(self).stack@ == swap_of(old(self).stack@, n as int)
                && final(self).pc == old(self).pc + 1,
            binop_value(i, from_top(old(self).stack@, 0), from_top(old(self).stack@, 1)) is Some ==> {
                &&& final(self).stack@.len() > 0
                &&& final(self).stack@.drop_last() == old(self).stack@.drop_last().drop_last()
                &&& final(self).stack@.last().value() == binop_value(
                    i,
                    from_top(old(self).stack@, 0),
                    from_top(old(self).stack@, 1),
                ).unwrap()
                &&& final(self).pc == old(self).pc + 1
            },
            i == Instruction::JUMP ==> final(self).stack@ == old(self).stack@.drop_last() && final(self).pc
                == from_top(old(self).stack@, 0).value(),
            i == Instruction::JUMPI ==> final(self).stack@ == old(self).stack@.drop_last().drop_last() && final(self).pc
                == if from_top(old(self).stack@, 1).value() != 0 {
                from_top(old(self).stack@, 0).value() as int
            } else {
                old(self).pc + 1
            },
            i == Instruction::ADD ==> {
                &&& final(self).stack@.len() > 0
                &&& final(self).stack@.drop_last() == old(self).stack@.drop_last().drop_last()
                &&& final(self).stack@.last().value() == wrap(
                    from_top(old(self).stack@, 0).value() + from_top(old(self).stack@, 1).value(),
                )
                &&& final(self).pc == old(self).pc + 1
            },
    {
        proof {
            assert(self.pc < self.code@.len());
        }
        let next_pc = self.pc + 1;
        match i {
            Instruction::ADD | Instruction::SUB | Instruction::MUL | Instruction::DIV | Instruction::MOD
            | Instruction::LT | Instruction::GT | Instruction::SLT | Instruction::SGT | Instruction::EQ
            | Instruction::AND | Instruction::OR | Instruction::XOR | Instruction::EXP | Instruction::BYTE
            | Instruction::SDIV | Instruction::SMOD | Instruction::SIGNEXTEND => {
                let a = self.stack.take();
                let b = self.stack.take();
                let v = match i {
                    Instruction::SIGNEXTEND => b.signextend(a),
                    Instruction::SDIV => a.sdiv(b),
                    Instruction::SMOD => a.smod(b),
                    Instruction::EXP => a.exp(b),
                    Instruction::BYTE => byte_of(&a, &b),
                    Instruction::ADD => a.overflowing_add(b).0,
                    Instruction::SUB => a.underflowing_sub(b).0,
                    Instruction::MUL => a.overflowing_mul(b).0,
                    Instruction::DIV => a.div(b),
                    Instruction::MOD => a.rem(b),
                    Instruction::LT => bool_word(a.lt(&b)),
                    Instruction::GT => bool_word(b.lt(&a)),
                    Instruction::SLT => bool_word(a.slt(&b)),
                    Instruction::SGT => bool_word(b.slt(&a)),
                    Instruction::AND => a.bitand(b),
                    Instruction::OR => a.bitor(b),
                    Instruction::XOR => a.bitxor(b),
                    _ => bool_word(a.eq_word(&b)),
                };
                self.stack.put(v);
                self.pc = next_pc;
            },
            Instruction::ISZERO => {
                let a = self.stack.take();
                self.stack.put(bool_word(a.is_zero()));
                self.pc = next_pc;
            },
            Instruction::ADDMOD | Instruction::MULMOD => {
                let a = self.stack.take();
                let b = self.stack.take();
                let n = self.stack.take();
                let v = if i == Instruction::ADDMOD {
                    a.addmod(b, n)
                } else {
                    a.mulmod(b, n)
                };
                self.stack.put(v);
                self.pc = next_pc;
            },
            Instruction::NOT => {
                let a = self.stack.take();
                self.stack.put(a.not());
                self.pc = next_pc;
            },
            Instruction::CALLDATALOAD => {
                let offset = self.stack.take();
                let bytes = input_window(&self.data, &offset, 32);
                self.stack.put(U256::from_be_bytes(bytes.as_slice()));
                self.pc = next_pc;
            },
            Instruction::POP => {
                let _ = self.stack.take();
                self.pc = next_pc;
            },
            Instruction::PUSH(n) => {
                let w = self.read_immediate(n);
                self.stack.put(w);
                self.pc = self.pc + 1 + n;
            },
            Instruction::DUP(n) => {
                let _ = self.stack.dup(n);
                self.pc = next_pc;
            },
            Instruction::SWAP(n) => {
                let _ = self.stack.swap(n);
                self.pc = next_pc;
            },
            Instruction::JUMPDEST => {
                self.pc = next_pc;
            },
            Instruction::JUMP => {
                let _ = self.stack.take();
                self.pc = target;
            },
            Instruction::JUMPI => {
                let _ = self.stack.take();
                let cond = self.stack.take();
                if cond.is_zero() {
                    self.pc = next_pc;
                } else {
                    self.pc = target;
                }
            },
            Instruction::PC => {
                self.stack.put(U256::from_u64(self.pc as u64));
                self.pc = next_pc;
            },
            Instruction::MSIZE => {
                self.stack.put(U256::from_u64(self.memory.len() as u64));
                self.pc = next_pc;
            },
            Instruction::GAS => {
                self.stack.put(U256::from_u64(self.context.gas_limit - self.used_gas));
                self.pc = next_pc;
            },
            Instruction::ADDRESS => {
                self.stack.put(self.context.address);
                self.pc = next_pc;
            },
            Instruction::CALLER => {
                self.stack.put(self.context.caller);
                self.pc = next_pc;
            },
            Instruction::ORIGIN => {
                self.stack.put(self.context.origin);
                self.pc = next_pc;
            },
            Instruction::CALLVALUE => {
                self.stack.put(self.context.value);
                self.pc = next_pc;
            },
            Instruction::GASPRICE => {
                self.stack.put(self.context.gas_price);
                self.pc = next_pc;
            },
            Instruction::CALLDATASIZE => {
                self.stack.put(U256::from_u64(self.data.len() as u64));
                self.pc = next_pc;
            },
            Instruction::CODESIZE => {
                self.stack.put(U256::from_u64(self.code.len() as u64));
                self.pc = next_pc;
            },
            Instruction::COINBASE => {
                self.stack.put(backend.block_coinbase());
                self.pc = next_pc;
            },
            Instruction::TIMESTAMP => {
                self.stack.put(backend.block_timestamp());
                self.pc = next_pc;
            },
            Instruction::NUMBER => {
                self.stack.put(backend.block_number());
                self.pc = next_pc;
            },
            Instruction::DIFFICULTY => {
                self.stack.put(backend.block_difficulty());
                self.pc = next_pc;
            },
            Instruction::GASLIMIT => {
                self.stack.put(backend.block_gas_limit());
                self.pc = next_pc;
            },
            _ => {},
        }
    }

    /// Instructions that read or write memory, or end the frame.
    fn execute_memory(&mut self, i: Instruction, substate: &mut MemoryStackSubstate)
        requires
            old(self).wf(),
            is_valid(i),
            supported(i),
            fetched(old(self).code@, old(self).pc as nat, i),
            old(self).stack@.len() >= crate::opcode::stack_io(i).0,
            old(self).stack@.len() - crate::opcode::stack_io(i).0 + crate::opcode::stack_io(i).1 <= crate::stack::STACK_LIMIT,
            forall|k: int|
                0 <= k < crate::check::regions(i).len() ==> crate::check::region_ok(
                    old(self).stack@,
                    #[trigger] crate::check::regions(i)[k],
                ),
            old(substate).wf(),
            i is STOP || i is RETURN || i is REVERT || i is MLOAD || i is MSTORE || i is MSTORE8
                || i is SHA3 || i is LOG || i is CALLDATACOPY || i is CODECOPY,
        ensures
            final(self).wf(),
            final(self).context == old(self).context,
            final(self).patch == old(self).patch,
            final(self).code@ == old(self).code@,
            final(self).data@ == old(self).data@,
            final(self).used_gas == old(self).used_gas,
            final(substate).wf(),
            final(substate)@.len() == old(substate)@.len(),
            i == Instruction::MSTORE ==> final(self).stack@ == old(self).stack@.drop_last().drop_last()
                && final(self).pc == old(self).pc + 1 && exists|b: Seq<u8>|
                b.len() == 32 && be_value(b) == from_top(old(self).stack@, 1).value() && final(self).memory@
                    == crate::memory::written(old(self).memory@, from_top(old(self).stack@, 0).value(), b),
            i == Instruction::MLOAD ==> {
                &&& final(self).stack@.len() > 0
                &&& final(self).stack@.drop_last() == old(self).stack@.drop_last()
                &&& final(self).stack@.last().value() == be_value(
                    region(old(self).memory@, from_top(old(self).stack@, 0).value(), 32),
                )
                &&& final(self).memory@ == old(self).memory@
                &&& final(self).pc == old(self).pc + 1
            },
            i matches Instruction::LOG(n) ==> final(self).stack@ == old(self).stack@.subrange(
                0,
                old(self).stack@.len() - n - 2,
            ) && final(self).pc == old(self).pc + 1 && final(self).memory@ == old(self).memory@ && log_effect(
                n as nat,
                old(self).stack@,
                old(self).context,
                old(self).memory@,
                old(substate)@,
                final(substate)@,
            ),
            !(i is LOG) ==> final(substate)@ == old(substate)@,
            i == Instruction::MSTORE8 ==> final(self).stack@ == old(self).stack@.drop_last().drop_last()
                && final(self).pc == old(self).pc + 1 && final(self).memory@ == crate::memory::written(
                old(self).memory@,
                from_top(old(self).stack@, 0).value(),
                seq![(from_top(old(self).stack@, 1).value() % 256) as u8],
            ),
            (i is RETURN || i is REVERT) ==> final(self).out@ == call_input(
                old(self).memory@,
                from_top(old(self).stack@, 0),
                from_top(old(self).stack@, 1),
            ) && final(self).status == (if i is RETURN {
                MachineStatus::ExitedOk
            } else {
                MachineStatus::ExitedRevert
            }),
            i == Instruction::SHA3 ==> {
                &&& final(self).stack@.len() > 0
                &&& final(self).stack@.drop_last() == old(self).stack@.drop_last().drop_last()
                &&& final(self).stack@.last().value() == be_value(
                    crate::hashing::keccak256_of(
                        call_input(old(self).memory@, from_top(old(self).stack@, 0), from_top(old(self).stack@, 1)),
                    ),
                )
                &&& final(self).pc == old(self).pc + 1
            },
            !(i is STOP || i is RETURN || i is REVERT) ==> final(self).status == old(self).status,
            final(self).status == old(self).status || final(self).status is ExitedOk || final(self).status
                is ExitedRevert,
    {
        proof {
            if crate::check::regions(i).len() > 0 {
                assert(crate::check::region_ok(self.stack@, crate::check::regions(i)[0]));
            }
            if i != Instruction::STOP {
                assert(self.pc < self.code@.len());
            }
        }
        let next_pc = self.pc + 1;
        match i {
            Instruction::STOP => {
                self.out = Vec::new();
                self.status = MachineStatus::ExitedOk;
            },
            Instruction::MLOAD => {
                let offset = self.stack.take();
                let o = region_start(&offset);
                let w = self.memory.read_word(o);
                self.stack.put(w);
                self.pc = next_pc;
            },
            Instruction::MSTORE => {
                let offset = self.stack.take();
                let value = self.stack.take();
                let o = region_start(&offset);
                self.memory.write_word(o, value);
                self.pc = next_pc;
            },
            Instruction::MSTORE8 => {
                let offset = self.stack.take();
                let value = self.stack.take();
                let o = region_start(&offset);
                self.memory.write_byte(o, (value.low_u64() % 256) as u8);
                self.pc = next_pc;
            },
            Instruction::SHA3 => {
                let offset = self.stack.take();
                let len = self.stack.take();
                let bytes = self.read_region(&offset, &len);
                proof {
                    assert(bytes@ =~= call_input(old(self).memory@, offset, len));
                }
                let digest = crate::hashing::keccak256(bytes.as_slice());
                self.stack.put(U256::from_be_bytes(digest.as_slice()));
                self.pc = next_pc;
            },
            Instruction::LOG(n) => {
                let offset = self.stack.take();
                let len = self.stack.take();
                let data = self.read_region(&offset, &len);
                let topics = self.stack.take_n(n);
                proof {
                    assert(data@ =~= call_input(old(self).memory@, offset, len));
                    assert(self.stack@ =~= old(self).stack@.subrange(0, old(self).stack@.len() - n - 2));
                }
                let ghost before = substate@;
                let ghost entry = crate::substate::Log { address: self.context.address, topics, data };
                substate.log(self.context.address, topics, data);
                self.pc = next_pc;
                proof {
                    assert(forall|k: int| 0 <= k < n ==> #[trigger] entry.topics@[k] == from_top(old(self).stack@, k + 2));
                    assert(substate@ == crate::substate::with_top(before, top_with_log(before, entry)));
                    assert(log_effect(n as nat, old(self).stack@, old(self).context, old(self).memory@, before, substate@));
                }
            },
            Instruction::CALLDATACOPY | Instruction::CODECOPY => {
                let mem_offset = self.stack.take();
                let src_offset = self.stack.take();
                let len = self.stack.take();
                if !len.is_zero() {
                    let o = region_start(&mem_offset);
                    let l = region_start(&len);
                    let bytes = if i == Instruction::CALLDATACOPY {
                        input_window(&self.data, &src_offset, l)
                    } else {
                        input_window(&self.code, &src_offset, l)
                    };
                    self.memory.write(o, bytes.as_slice());
                }
                self.pc = next_pc;
            },
            Instruction::RETURN | Instruction::REVERT => {
                let offset = self.stack.take();
                let len = self.stack.take();
                self.out = self.read_region(&offset, &len);
                proof {
                    assert(self.out@ =~= call_input(old(self).memory@, offset, len));
                }
                self.status = if i == Instruction::RETURN {
                    MachineStatus::ExitedOk
                } else {
                    MachineStatus::ExitedRevert
                };
            },
            _ => {},
        }
    }

    /// SLOAD and SSTORE.
    fn execute_storage<B: Backend>(&mut self, i: Instruction, substate: &mut MemoryStackSubstate, backend: &B)
        requires
            old(self).wf(),
            is_valid(i),
            supported(i),
            fetched(old(self).code@, old(self).pc as nat, i),
            old(self).stack@.len() >= crate::opcode::stack_io(i).0,
            old(self).stack@.len() - crate::opcode::stack_io(i).0 + crate::opcode::stack_io(i).1 <= crate::stack::STACK_LIMIT,
            forall|k: int|
                0 <= k < crate::check::regions(i).len() ==> crate::check::region_ok(
                    old(self).stack@,
                    #[trigger] crate::check::regions(i)[k],
                ),
            old(substate).wf(),
            i is SLOAD || i is SSTORE || i is BALANCE || i is EXTCODESIZE || i is SUICIDE
                || i is EXTCODECOPY || i is BLOCKHASH,
        ensures
            final(self).wf(),
            final(self).context == old(self).context,
            final(self).patch == old(self).patch,
            final(self).code@ == old(self).code@,
            final(self).data@ == old(self).data@,
            final(self).used_gas == old(self).used_gas,
            i == Instruction::SLOAD ==> final(self).memory@ == old(self).memory@,
            i == Instruction::SLOAD ==> final(self).stack@.len() == old(self).stack@.len() && final(self).stack@.drop_last() == old(self).stack@.drop_last() && final(self).pc == old(self).pc + 1
                && final(substate)@ == old(substate)@ && (crate::substate::known_storage_of(
                old(substate)@,
                old(self).context.address,
                from_top(old(self).stack@, 0),
            ) matches Some(v) ==> final(self).stack@.last().value() == v),
            i == Instruction::SUICIDE ==> final(self).status == MachineStatus::ExitedOk && final(substate)@.last().deletes
                == old(substate)@.last().deletes.push(old(self).context.address),
            i == Instruction::SUICIDE ==> destructed(
                old(substate)@,
                final(substate)@,
                old(self).context.address,
                from_top(old(self).stack@, 0),
            ),
            i == Instruction::SSTORE ==> final(self).stack@ == old(self).stack@.drop_last().drop_last()
                && final(self).pc == old(self).pc + 1 && final(substate)@ == crate::substate::with_top(
                old(substate)@,
                crate::substate::top_with_storage(
                    old(substate)@,
                    crate::substate::StorageEvent::Write {
                        address: old(self).context.address,
                        key: from_top(old(self).stack@, 0),
                        value: from_top(old(self).stack@, 1),
                    },
                ),
            ),
            !(i is SUICIDE) ==> final(self).status == old(self).status,
            final(self).status == old(self).status || final(self).status is ExitedOk,
            final(substate).wf(),
            final(substate)@.len() == old(substate)@.len(),
    {
        proof {
            assert(self.pc < self.code@.len());
        }
        let next_pc = self.pc + 1;
        match i {
            Instruction::SUICIDE => {
                let beneficiary = self.stack.take();
                let address = self.context.address;
                let own = crate::lifecycle::basic_of(substate, backend, address);
                let ghost before = substate@;
                proof {
                    U256::lemma_value_injective(beneficiary, address);
                }
                if !beneficiary.eq_word(&address) {
                    let other = crate::lifecycle::basic_of(substate, backend, beneficiary);
                    let (credited, _) = other.balance.overflowing_add(own.balance);
                    let other_code = substate.known_code(beneficiary);
                    substate.set_account(
                        beneficiary,
                        crate::substate::Basic { balance: credited, nonce: other.nonce },
                        other_code,
                    );
                    proof {
                        let r = substate@.last().accounts.last();
                        assert(r.basic.balance == credited);
                        match (crate::substate::known_account_of(before, beneficiary), crate::substate::known_account_of(before, address)) {
                            (Some(q), Some(p)) => {
                                assert(other == q.basic);
                                assert(own == p.basic);
                                assert(r.basic.balance.value() == (q.basic.balance.value() + p.basic.balance.value())
                                    % crate::u256::word_modulus());
                            },
                            _ => {},
                        }
                    }
                }
                let own_code = substate.known_code(address);
                let ghost mid = substate@;
                substate.set_account(address, crate::substate::Basic { balance: U256::zero(), nonce: own.nonce }, own_code);
                substate.set_deleted(address);
                self.out = Vec::new();
                self.status = MachineStatus::ExitedOk;
                proof {
                    assert(substate@.drop_last() =~= before.drop_last());
                    let a = substate@.last().accounts;
                    let b = before.last().accounts;
                    assert(a.drop_last() == mid.last().accounts);
                    assert(substate@.last().deletes == before.last().deletes.push(address));
                    assert(substate@.last().storage == before.last().storage);
                    assert(substate@.last().logs == before.last().logs);
                    if beneficiary == address {
                        assert(mid == before);
                        assert(a.drop_last() =~= b);
                    } else {
                        let m = mid.last().accounts;
                        assert(m.drop_last() == b);
                        assert(m.last().address == beneficiary);
                        assert(a[a.len() - 2] == m.last());
                        assert(a.subrange(0, b.len() as int) =~= b);
                    }
                    assert(destructed(before, substate@, address, beneficiary));
                }
            },
            Instruction::EXTCODECOPY => {
                proof {
                    assert(crate::check::region_ok(self.stack@, crate::check::regions(i)[0]));
                }
                let address = self.stack.take();
                let mem_offset = self.stack.take();
                let code_offset = self.stack.take();
                let len = self.stack.take();
                if !len.is_zero() {
                    let code = match substate.known_code(address) {
                        Some(c) => c,
                        None => backend.code(address),
                    };
                    let o = region_start(&mem_offset);
                    let l = region_start(&len);
                    let bytes = input_window(&code, &code_offset, l);
                    self.memory.write(o, bytes.as_slice());
                }
                self.pc = next_pc;
            },
            Instruction::BLOCKHASH => {
                let number = self.stack.take();
                let current = backend.block_number();
                let (distance, below) = current.underflowing_sub(number);
                let v = if below || distance.is_zero() || U256::from_u64(256).lt(&distance) {
                    U256::zero()
                } else {
                    backend.block_hash(number)
                };
                self.stack.put(v);
                self.pc = next_pc;
            },
            Instruction::BALANCE => {
                let address = self.stack.take();
                let balance = match substate.known_basic(address) {
                    Some(b) => b.balance,
                    None => backend.basic(address).balance,
                };
                self.stack.put(balance);
                self.pc = next_pc;
            },
            Instruction::EXTCODESIZE => {
                let address = self.stack.take();
                let size = match substate.known_code(address) {
                    Some(c) => c.len(),
                    None => backend.code(address).len(),
                };
                self.stack.put(U256::from_u64(size as u64));
                self.pc = next_pc;
            },
            Instruction::SLOAD => {
                let key = self.stack.take();
                let v = self.storage_at(substate, backend, key);
                self.stack.put(v);
                self.pc = next_pc;
            },
            Instruction::SSTORE => {
                let key = self.stack.take();
                let value = self.stack.take();
                let current = self.storage_at(substate, backend, key);
                let original = match substate.known_original_storage(self.context.address, key) {
                    Some(v) => v,
                    None => backend.original_storage(self.context.address, key),
                };
                let (_, refund) = crate::gas::sstore_gas(&self.patch, &original, &current, &value);
                self.refunded_gas = add_refund(self.refunded_gas, refund);
                substate.set_storage(self.context.address, key, value);
                self.pc = next_pc;
            },
            _ => {},
        }
    }

    /// The `len` bytes of memory at `offset` for an addressable region.
    fn read_region(&self, offset: &U256, len: &U256) -> (r: Vec<u8>)
        requires
            crate::check::range_ok(offset.value(), len.value()),
        ensures
            len.value() == 0 ==> r@.len() == 0,
            len.value() > 0 ==> r@ == crate::memory::region(self.memory@, offset.value(), len.value()),
    {
        if len.is_zero() {
            return Vec::new();
        }
        let o = region_start(offset);
        let l = region_start(len);
        self.memory.read(o, l)
    }

    /// Ends a CREATE: requests the creation, with the sender's nonce bumped and
    /// the new address pushed, or pushes 0 and gives the gas back where the
    /// call depth or the balance does not allow it.
    fn trap_create<B: Backend>(&mut self, child_gas: u64, substate: &mut MemoryStackSubstate, backend: &B)
        requires
            old(self).wf(),
            old(substate).wf(),
            old(self).status == MachineStatus::Running,
            old(self).stack@.len() >= 3,
            crate::check::region_ok(old(self).stack@, crate::check::Region::Operands(1, 2)),
            child_gas <= old(self).used_gas,
            old(self).pc < old(self).code@.len(),
        ensures
            final(self).wf(),
            final(substate).wf(),
            final(substate)@.len() == old(substate)@.len(),
            final(self).context == old(self).context,
            final(self).patch == old(self).patch,
            final(self).code@ == old(self).code@,
            final(self).data@ == old(self).data@,
            final(self).used_gas <= old(self).used_gas,
            final(self).used_gas >= old(self).used_gas - child_gas,
            final(self).status == old(self).status || (final(self).status is InvokeCreate
                && final(self).stack@.len() >= 1),
            final(self).status matches MachineStatus::InvokeCreate(ctx) ==> ctx.depth == old(self).context.depth
                + 1 && ctx.depth <= old(self).patch.callstack_limit,
            create_effect(old(self).stack@, old(self).context, old(self).patch, old(self).memory@, *final(self)),
            final(self).pc == old(self).pc + 1,
            final(self).memory@ == old(self).memory@,
            final(self).status is Running ==> final(self).used_gas == old(self).used_gas - child_gas,
            final(self).status matches MachineStatus::InvokeCreate(ctx) ==> final(self).used_gas == old(self).used_gas && ctx.gas_limit == child_gas,
            final(self).status is Running ==> final(substate)@ == old(substate)@,
            old(self).context.depth < old(self).patch.callstack_limit && (crate::substate::known_account_of(
                old(substate)@,
                old(self).context.address,
            ) matches Some(p) && p.basic.balance.value() >= from_top(old(self).stack@, 0).value())
                ==> final(self).status is InvokeCreate,
            final(self).status is InvokeCreate ==> created_by(
                old(substate)@,
                final(substate)@,
                old(self).context.address,
                final(self).status,
            ),
    {
        let ops = self.stack.take_n(3);
        let value = ops[0];
        let offset = ops[1];
        let len = ops[2];
        let next_pc = self.pc + 1;
        let creator = self.context.address;
        let basic = crate::lifecycle::basic_of(substate, backend, creator);
        if self.context.depth >= self.patch.callstack_limit || basic.balance.lt(&value) {
            self.used_gas = self.used_gas - child_gas;
            self.stack.put(U256::zero());
            self.pc = next_pc;
            proof {
                assert(self.stack@.subrange(0, self.stack@.len() - 1) == old(self).stack@.subrange(
                    0,
                    old(self).stack@.len() - 3,
                ));
            }
            return;
        }
        let init = self.read_region(&offset, &len);
        proof {
            assert(init@ =~= call_input(old(self).memory@, offset, len));
        }
        let address = crate::lifecycle::create_address(&creator, &basic.nonce);
        let (nonce, _) = basic.nonce.overflowing_add(U256::one());
        let code = substate.known_code(creator);
        let ghost before = substate@;
        substate.set_account(creator, crate::substate::Basic { balance: basic.balance, nonce }, code);
        let context = Context {
            address,
            caller: creator,
            origin: self.context.origin,
            value,
            gas_price: self.context.gas_price,
            gas_limit: child_gas,
            depth: self.context.depth + 1,
            is_static: self.context.is_static,
        };
        self.invoke_input = init;
        self.invoke_code_address = address;
        self.invoke_transfers = true;
        self.stack.put(address);
        self.pc = next_pc;
        self.status = MachineStatus::InvokeCreate(context);
        proof {
            assert(substate@.drop_last() =~= before.drop_last());
            assert(substate@.last().accounts.drop_last() =~= before.last().accounts);
            assert(created_by(before, substate@, creator, self.status));
            assert(self.stack@.subrange(0, self.stack@.len() - 1) == old(self).stack@.subrange(
                0,
                old(self).stack@.len() - 3,
            ));
        }
    }

    /// Ends a CALL, CALLCODE or DELEGATECALL: requests the sub-call, or pushes 0
    /// and gives the callee's gas back where the call depth or the balance does not allow it.
    fn trap_call<B: Backend>(
        &mut self,
        i: Instruction,
        child_gas: u64,
        substate: &mut MemoryStackSubstate,
        backend: &B,
    )
        requires
            old(self).wf(),
            old(substate).wf(),
            i == Instruction::CALL || i == Instruction::CALLCODE || i == Instruction::DELEGATECALL,
            old(self).status == MachineStatus::Running,
            old(self).stack@.len() >= crate::opcode::stack_io(i).0,
            forall|k: int|
                0 <= k < crate::check::regions(i).len() ==> crate::check::region_ok(
                    old(self).stack@,
                    #[trigger] crate::check::regions(i)[k],
                ),
            child_gas <= old(self).used_gas,
            old(self).pc < old(self).code@.len(),
        ensures
            final(self).wf(),
            final(substate)@ == old(substate)@,
            final(self).context == old(self).context,
            final(self).patch == old(self).patch,
            final(self).code@ == old(self).code@,
            final(self).data@ == old(self).data@,
            final(self).used_gas <= old(self).used_gas,
            final(self).used_gas >= old(self).used_gas - child_gas,
            final(self).status == old(self).status || (final(self).status is InvokeCall
                && final(self).stack@.len() >= 1),
            final(self).status matches MachineStatus::InvokeCall(ctx, _, _) ==> ctx.depth == old(self).context.depth + 1 && ctx.depth <= old(self).patch.callstack_limit,
            !(i is DELEGATECALL) && (crate::substate::known_account_of(old(substate)@, old(self).context.address)
                matches Some(p) && p.basic.balance.value() < from_top(old(self).stack@, 2).value())
                ==> final(self).status is Running,
            old(self).context.depth < old(self).patch.callstack_limit && (i is DELEGATECALL || from_top(
                old(self).stack@,
                2,
            ).value() == 0 || (crate::substate::known_account_of(old(substate)@, old(self).context.address)
                matches Some(p) && p.basic.balance.value() >= from_top(old(self).stack@, 2).value()))
                ==> final(self).status is InvokeCall,
            call_effect(i, old(self).stack@, old(self).context, old(self).patch, old(self).memory@, *final(self)),
            final(self).pc == old(self).pc + 1,
            final(self).memory@ == old(self).memory@,
            final(self).status is Running ==> final(self).used_gas == old(self).used_gas - child_gas,
            final(self).status is InvokeCall ==> final(self).used_gas == old(self).used_gas,
            final(self).status matches MachineStatus::InvokeCall(ctx, _, _) ==> ctx.gas_limit == child_gas + (
            if !(i is DELEGATECALL) && from_top(old(self).stack@, 2).value() != 0 {
                old(self).patch.call_stipend as int
            } else {
                0
            }),
    {
        proof {
            assert(crate::check::region_ok(self.stack@, crate::check::regions(i)[0]));
            assert(crate::check::region_ok(self.stack@, crate::check::regions(i)[1]));
        }
        let delegate = i == Instruction::DELEGATECALL;
        let pops: usize = if delegate {
            6
        } else {
            7
        };
        let ops = self.stack.take_n(pops);
        let to = ops[1];
        let value = if delegate {
            self.context.value
        } else {
            ops[2]
        };
        let in_offset = ops[pops - 4];
        let in_len = ops[pops - 3];
        let out_offset = ops[pops - 2];
        let out_len = ops[pops - 1];
        let next_pc = self.pc + 1;
        let transfers = !delegate && !value.is_zero();
        let mut refused = self.context.depth >= self.patch.callstack_limit;
        if !refused && transfers {
            let balance = match substate.known_basic(self.context.address) {
                Some(b) => b.balance,
                None => backend.basic(self.context.address).balance,
            };
            refused = balance.lt(&value);
        }
        if refused {
            self.used_gas = self.used_gas - child_gas;
            self.stack.put(U256::zero());
            self.pc = next_pc;
            proof {
                assert(self.stack@.subrange(0, self.stack@.len() - 1) == old(self).stack@.subrange(
                    0,
                    old(self).stack@.len() - pops,
                ));
            }
            return;
        }
        let input = self.read_region(&in_offset, &in_len);
        proof {
            assert(input@ =~= call_input(old(self).memory@, in_offset, in_len));
        }
        let stipend = if transfers {
            self.patch.call_stipend
        } else {
            0
        };
        let context = Context {
            address: if i == Instruction::CALL {
                to
            } else {
                self.context.address
            },
            caller: if delegate {
                self.context.caller
            } else {
                self.context.address
            },
            origin: self.context.origin,
            value,
            gas_price: self.context.gas_price,
            gas_limit: child_gas + stipend,
            depth: self.context.depth + 1,
            is_static: self.context.is_static,
        };
        self.invoke_input = input;
        self.invoke_code_address = to;
        self.invoke_transfers = !delegate;
        self.stack.put(U256::one());
        self.pc = next_pc;
        self.status = MachineStatus::InvokeCall(context, out_offset, out_len);
        proof {
            assert(self.stack@.subrange(0, self.stack@.len() - 1) == old(self).stack@.subrange(
                0,
                old(self).stack@.len() - pops,
            ));
            assert(to == from_top(old(self).stack@, 1));
            assert(in_offset == from_top(old(self).stack@, pops - 4));
            assert(out_len == from_top(old(self).stack@, pops - 1));
            assert(self.stack@.last().value() == 1);
        }
    }

    /// The active memory words after the instruction's regions are touched.
    fn memory_words_after(&self, i: Instruction) -> (r: u64)
        requires
            self.wf(),
            is_valid(i),
            self.stack@.len() >= crate::opcode::stack_io(i).0,
            forall|k: int|
                0 <= k < crate::check::regions(i).len() ==> crate::check::region_ok(
                    self.stack@,
                    #[trigger] crate::check::regions(i)[k],
                ),
        ensures
            r * 32 <= MEMORY_LIMIT,
            r >= self.memory@.len() / 32,
            r == words_after(i, self.stack@, self.memory@.len()),
    {
        let mut words: u64 = (self.memory.len() / 32) as u64;
        let rs = crate::check::regions_of(i);
        let mut k: usize = 0;
        while k < rs.len()
            invariant
                self.wf(),
                rs@ == crate::check::regions(i),
                self.stack@.len() >= crate::opcode::stack_io(i).0,
                forall|k: int|
                    0 <= k < crate::check::regions(i).len() ==> crate::check::region_ok(
                        self.stack@,
                        #[trigger] crate::check::regions(i)[k],
                    ),
                words * 32 <= MEMORY_LIMIT,
                words >= self.memory@.len() / 32,
                k <= rs@.len(),
                words == words_upto(self.stack@, rs@, k as nat, self.memory@.len() / 32),
            decreases rs@.len() - k,
        {
            let (offset, len) = match rs[k] {
                crate::check::Region::Operands(o, l) => (self.stack.peek(o), self.stack.peek(l)),
                crate::check::Region::Fixed(o, l) => (self.stack.peek(o), Ok(U256::from_u64(l as u64))),
            };
            proof {
                assert(crate::check::region_ok(self.stack@, rs@[k as int]));
                reveal_with_fuel(words_upto, 2);
            }
            match (offset, len) {
                (Ok(o), Ok(l)) => {
                    if !l.is_zero() {
                        proof {
                            vstd::arithmetic::div_mod::lemma_small_mod(o.value(), crate::u256::limb_base());
                            vstd::arithmetic::div_mod::lemma_small_mod(l.value(), crate::u256::limb_base());
                        }
                        let end = o.low_u64() + l.low_u64();
                        let w = (end + 31) / 32;
                        if w > words {
                            words = w;
                        }
                    }
                },
                _ => {},
            }
            k = k + 1;
        }
        words
    }
}

/// PUSHn then POP, as `step` states them, leave the stack as it was and move
/// the program counter past both: n + 2 bytes.
pub proof fn lemma_push_then_pop(
    before: Seq<U256>,
    pc: nat,
    n: nat,
    mid: Seq<U256>,
    mid_pc: nat,
    after: Seq<U256>,
    after_pc: nat,
)
    requires
        mid.len() > 0,
        mid.drop_last() == before,
        mid_pc == pc + 1 + n,
        after == mid.drop_last(),
        after_pc == mid_pc + 1,
    ensures
        after == before,
        after_pc == pc + n + 2,
{
}

/// DUPn then POP, as `step` states them, leave the stack as it was.
pub proof fn lemma_dup_then_pop(before: Seq<U256>, n: int, mid: Seq<U256>, after: Seq<U256>)
    requires
        1 <= n <= before.len(),
        mid == dup_of(before, n),
        after == mid.drop_last(),
    ensures
        after == before,
{
    crate::stack::lemma_dup_pop(before, n);
}

/// SWAPn twice, as `step` states it, leaves the stack as it was.
pub proof fn lemma_swap_then_swap(before: Seq<U256>, n: int, mid: Seq<U256>, after: Seq<U256>)
    requires
        1 <= n < before.len(),
        mid == swap_of(before, n),
        after == swap_of(mid, n),
    ensures
        after == before,
{
    crate::stack::lemma_swap_twice(before, n);
}

/// A CALL that moves no value, below the depth limit, is entered: `step`
/// then requests the sub-call with 1 pushed, no stipend, and a callee budget
/// of the requested gas capped by the patch's rule on the gas left.
pub proof fn lemma_zero_value_call_enters(
    s: Seq<U256>,
    c: Context,
    patch: Patch,
    layers: Seq<crate::substate::LayerView>,
)
    requires
        s.len() >= 7,
        from_top(s, 2).value() == 0,
        c.depth < patch.callstack_limit,
    ensures
        call_enters(Instruction::CALL, s, c, patch, layers),
        stipend_of(Instruction::CALL, s, patch) == 0,
{
}

/// MSTORE then MLOAD at the same offset gives back the stored word: whatever
/// memory `after` holds once `step` has run an MSTORE of `value` at `offset`
/// on memory `before` (its 32 bytes `b` there, the rest unchanged), the 32
/// bytes an MLOAD at `offset` reads from it stand for `value`.
pub proof fn lemma_mstore_then_mload(before: Seq<u8>, after: Seq<u8>, offset: nat, b: Seq<u8>, value: U256)
    requires
        b.len() == 32,
        be_value(b) == value.value(),
        forall|j: int|
            #[trigger] byte_at(after, j) == if offset <= j < offset + 32 {
                b[j - offset]
            } else {
                byte_at(before, j)
            },
    ensures
        be_value(region(after, offset, 32)) == value.value(),
{
    assert forall|k: int| 0 <= k < 32 implies #[trigger] region(after, offset, 32)[k] == b[k] by {
        assert(byte_at(after, offset + k) == b[k]);
    }
    assert(region(after, offset, 32) =~= b);
}

/// The instructions this machine carries out: all but the designated invalid one.
pub open spec fn supported(i: Instruction) -> bool {
    i != Instruction::INVALID
}

/// The `len` bytes of `src` from `offset` on, zero past its end.
pub fn input_window(src: &Vec<u8>, offset: &U256, len: usize) -> (r: Vec<u8>)
    ensures
        r@.len() == len,
        forall|k: int|
            0 <= k < len ==> #[trigger] r@[k] == crate::memory::byte_at(src@, offset.value() + k),
{
    let mut r: Vec<u8> = Vec::new();
    let fits = offset.fits_u64();
    proof {
        if fits {
            vstd::arithmetic::div_mod::lemma_small_mod(offset.value(), crate::u256::limb_base());
        }
    }
    let start: usize = if fits && offset.low_u64() <= src.len() as u64 {
        offset.low_u64() as usize
    } else {
        src.len()
    };
    let mut k: usize = 0;
    while k < len
        invariant
            k <= len,
            r@.len() == k,
            start <= src@.len(),
            start < src@.len() ==> start == offset.value(),
            start == src@.len() ==> offset.value() >= src@.len(),
            forall|j: int|
                0 <= j < k ==> #[trigger] r@[j] == crate::memory::byte_at(src@, offset.value() + j),
        decreases len - k,
    {
        let b = if start < src.len() && k < src.len() - start {
            src[start + k]
        } else {
            0
        };
        r.push(b);
        k = k + 1;
    }
    r
}

/// Byte `i` of `x`, counting from the most significant; zero for `i` past 31.
pub fn byte_of(i: &U256, x: &U256) -> (r: U256)
    ensures
        i.value() >= 32 ==> r.value() == 0,
        i.value() < 32 ==> exists|b: Seq<u8>|
            b.len() == 32 && be_value(b) == x.value() && r.value() == b[i.value() as int],
{
    let small = i.fits_u64();
    proof {
        if small {
            vstd::arithmetic::div_mod::lemma_small_mod(i.value(), crate::u256::limb_base());
        }
    }
    if !small || i.low_u64() >= 32 {
        return U256::zero();
    }
    let bytes = x.to_be_bytes();
    let k = i.low_u64() as usize;
    U256::from_u64(bytes[k] as u64)
}

/// 1 for true, 0 for false.
pub fn bool_word(b: bool) -> (r: U256)
    ensures
        r.value() == (if b { 1nat } else { 0nat }),
{
    if b {
        U256::one()
    } else {
        U256::zero()
    }
}

/// An offset known to lie within the memory limit.
fn region_start(offset: &U256) -> (r: usize)
    requires
        offset.value() <= MEMORY_LIMIT,
    ensures
        r == offset.value(),
{
    proof {
        vstd::arithmetic::div_mod::lemma_small_mod(offset.value(), crate::u256::limb_base());
    }
    offset.low_u64() as usize
}

/// Adds to the refund counter, holding it within range.
pub(crate) fn add_refund(counter: i64, delta: i64) -> (r: i64)
    ensures
        i64::MIN <= counter + delta <= i64::MAX ==> r == counter + delta,
{
    match counter.checked_add(delta) {
        Some(v) => v,
        None => if delta > 0 {
            i64::MAX
        } else {
            i64::MIN
        },
    }
}

} // verus!
