//! The pre-check of an instruction: stack arity and addressable memory
//! regions, decided without changing anything.
use vstd::prelude::*;
use crate::errors::ExitError;
use crate::memory::MEMORY_LIMIT;
use crate::opcode::{Instruction, is_valid, stack_io};
use crate::stack::{Stack, from_top, STACK_LIMIT};
use crate::u256::U256;

verus! {

/// What the pre-check asks of control flow.
#[derive(Clone, Copy, PartialEq, Eq, Debug, Structural)]
pub enum ControlCheck {
    /// The instruction jumps to this destination, which must be a JUMPDEST.
    Jump(U256),
}

/// A memory region named by stack operands, counted from the top.
#[derive(Clone, Copy, PartialEq, Eq, Debug, Structural)]
pub enum Region {
    /// Offset and length both on the stack.
    Operands(usize, usize),
    /// Offset on the stack, fixed length.
    Fixed(usize, usize),
}

/// A region of `len` bytes at `offset` is addressable: empty, or within the memory limit.
pub open spec fn range_ok(offset: nat, len: nat) -> bool {
    len == 0 || offset + len <= MEMORY_LIMIT
}

/// The regions an instruction touches.
pub open spec fn regions(i: Instruction) -> Seq<Region> {
    match i {
        Instruction::SHA3 | Instruction::RETURN | Instruction::REVERT => seq![Region::Operands(0, 1)],
        Instruction::LOG(_) => seq![Region::Operands(0, 1)],
        Instruction::CALLDATACOPY | Instruction::CODECOPY => seq![Region::Operands(0, 2)],
        Instruction::EXTCODECOPY => seq![Region::Operands(1, 3)],
        Instruction::MLOAD | Instruction::MSTORE => seq![Region::Fixed(0, 32)],
        Instruction::MSTORE8 => seq![Region::Fixed(0, 1)],
        Instruction::CREATE => seq![Region::Operands(1, 2)],
        Instruction::CALL | Instruction::CALLCODE => seq![
            Region::Operands(3, 4),
            Region::Operands(5, 6),
        ],
        Instruction::DELEGATECALL => seq![Region::Operands(2, 3), Region::Operands(4, 5)],
        _ => Seq::empty(),
    }
}

/// Whether a region named on stack `s` is addressable.
pub open spec fn region_ok(s: Seq<U256>, r: Region) -> bool {
    match r {
        Region::Operands(o, l) => range_ok(from_top(s, o as int).value(), from_top(s, l as int).value()),
        Region::Fixed(o, l) => range_ok(from_top(s, o as int).value(), l as nat),
    }
}

/// The control request of an instruction whose operands are in place.
pub open spec fn control_of(i: Instruction, s: Seq<U256>) -> Option<ControlCheck> {
    match i {
        Instruction::JUMP => Some(ControlCheck::Jump(from_top(s, 0))),
        Instruction::JUMPI => if from_top(s, 1).value() != 0 {
            Some(ControlCheck::Jump(from_top(s, 0)))
        } else {
            None
        },
        _ => None,
    }
}

/// What the pre-check of `i` on stack `s` gives.
pub open spec fn precheck(i: Instruction, s: Seq<U256>) -> Result<Option<ControlCheck>, ExitError> {
    if s.len() < stack_io(i).0 {
        Err(ExitError::StackUnderflow)
    } else if s.len() - stack_io(i).0 + stack_io(i).1 > STACK_LIMIT {
        Err(ExitError::StackOverflow)
    } else if exists|k: int| 0 <= k < regions(i).len() && !region_ok(s, #[trigger] regions(i)[k]) {
        Err(ExitError::InvalidRange)
    } else {
        Ok(control_of(i, s))
    }
}

/// Whether `len` bytes at `offset` are addressable.
pub fn check_range(offset: &U256, len: &U256) -> (r: Result<(), ExitError>)
    ensures
        range_ok(offset.value(), len.value()) ==> r is Ok,
        !range_ok(offset.value(), len.value()) ==> r == Err::<(), ExitError>(ExitError::InvalidRange),
{
    if len.is_zero() {
        return Ok(());
    }
    if !offset.fits_u64() || !len.fits_u64() {
        return Err(ExitError::InvalidRange);
    }
    proof {
        vstd::arithmetic::div_mod::lemma_small_mod(offset.value(), crate::u256::limb_base());
        vstd::arithmetic::div_mod::lemma_small_mod(len.value(), crate::u256::limb_base());
    }
    let o = offset.low_u64();
    let l = len.low_u64();
    if o > MEMORY_LIMIT as u64 || l > MEMORY_LIMIT as u64 - o {
        Err(ExitError::InvalidRange)
    } else {
        Ok(())
    }
}

/// The regions an instruction touches.
pub(crate) fn regions_of(i: Instruction) -> (r: Vec<Region>)
    ensures
        r@ == regions(i),
{
    let v: Vec<Region> = match i {
        Instruction::SHA3 | Instruction::RETURN | Instruction::REVERT => vec![Region::Operands(0, 1)],
        Instruction::LOG(_) => vec![Region::Operands(0, 1)],
        Instruction::CALLDATACOPY | Instruction::CODECOPY => vec![Region::Operands(0, 2)],
        Instruction::EXTCODECOPY => vec![Region::Operands(1, 3)],
        Instruction::MLOAD | Instruction::MSTORE => vec![Region::Fixed(0, 32)],
        Instruction::MSTORE8 => vec![Region::Fixed(0, 1)],
        Instruction::CREATE => vec![Region::Operands(1, 2)],
        Instruction::CALL | Instruction::CALLCODE => vec![
            Region::Operands(3, 4),
            Region::Operands(5, 6),
        ],
        Instruction::DELEGATECALL => vec![Region::Operands(2, 3), Region::Operands(4, 5)],
        _ => Vec::new(),
    };
    proof {
        assert(v@ =~= regions(i));
    }
    v
}

/// Whether `instruction` can run on `stack`: StackUnderflow or StackOverflow
/// where its arity does not fit, InvalidRange where a memory region it names is
/// not addressable; otherwise what it asks of control flow.
pub fn check_opcode(instruction: Instruction, stack: &Stack) -> (r: Result<
    Option<ControlCheck>,
    ExitError,
>)
    requires
        is_valid(instruction),
        stack.wf(),
    ensures
        r == precheck(instruction, stack@),
        stack@.len() < stack_io(instruction).0 ==> r == Err::<Option<ControlCheck>, ExitError>(
            ExitError::StackUnderflow,
        ),
        stack@.len() >= stack_io(instruction).0 && stack@.len() - stack_io(instruction).0
            + stack_io(instruction).1 > STACK_LIMIT ==> r == Err::<Option<ControlCheck>, ExitError>(
            ExitError::StackOverflow,
        ),
        stack@.len() >= stack_io(instruction).0 && stack@.len() - stack_io(instruction).0
            + stack_io(instruction).1 <= STACK_LIMIT ==> {
            &&& (forall|k: int|
                0 <= k < regions(instruction).len() ==> region_ok(stack@, #[trigger] regions(instruction)[k]))
                ==> r == Ok::<Option<ControlCheck>, ExitError>(control_of(instruction, stack@))
            &&& (exists|k: int|
                0 <= k < regions(instruction).len() && !region_ok(stack@, #[trigger] regions(instruction)[k]))
                ==> r == Err::<Option<ControlCheck>, ExitError>(ExitError::InvalidRange)
        },
{
    let (pop, push) = instruction.stack_io();
    stack.check_pop_push(pop, push)?;
    let rs = regions_of(instruction);
    let mut k: usize = 0;
    while k < rs.len()
        invariant
            k <= rs@.len(),
            rs@ == regions(instruction),
            stack@.len() >= stack_io(instruction).0,
            stack@.len() - stack_io(instruction).0 + stack_io(instruction).1 <= STACK_LIMIT,
            forall|j: int| 0 <= j < k ==> region_ok(stack@, #[trigger] regions(instruction)[j]),
        decreases rs@.len() - k,
    {
        let ok = match rs[k] {
            Region::Operands(o, l) => {
                let offset = stack.peek(o)?;
                let len = stack.peek(l)?;
                check_range(&offset, &len)
            },
            Region::Fixed(o, l) => {
                let offset = stack.peek(o)?;
                check_range(&offset, &U256::from_u64(l as u64))
            },
        };
        if ok.is_err() {
            return Err(ExitError::InvalidRange);
        }
        k = k + 1;
    }
    match instruction {
        Instruction::JUMP => Ok(Some(ControlCheck::Jump(stack.peek(0)?))),
        Instruction::JUMPI => {
            let cond = stack.peek(1)?;
            if !cond.is_zero() {
                Ok(Some(ControlCheck::Jump(stack.peek(0)?)))
            } else {
                Ok(None)
            }
        },
        _ => Ok(None),
    }
}

} // verus!
