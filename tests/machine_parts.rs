use sputnikvm::check::{check_opcode, check_range, ControlCheck};
use sputnikvm::errors::ExitError;
use sputnikvm::machine::jumpdest_map;
use sputnikvm::memory::Memory;
use sputnikvm::opcode::Instruction;
use sputnikvm::stack::Stack;
use sputnikvm::u256::U256;

fn w(v: u64) -> U256 {
    U256::from_u64(v)
}

#[test]
fn push_then_pop_is_identity() {
    let mut s = Stack::new();
    s.push(w(1)).unwrap();
    s.push(w(9)).unwrap();
    assert!(s.pop().unwrap().eq_word(&w(9)));
    assert_eq!(s.len(), 1);
    assert!(s.peek(0).unwrap().eq_word(&w(1)));
}

#[test]
fn dup_then_pop_is_identity() {
    let mut s = Stack::new();
    for v in [5u64, 6, 7] {
        s.push(w(v)).unwrap();
    }
    s.dup(3).unwrap();
    assert!(s.peek(0).unwrap().eq_word(&w(5)));
    s.pop().unwrap();
    assert_eq!(s.len(), 3);
    assert!(s.peek(0).unwrap().eq_word(&w(7)));
    assert!(s.peek(2).unwrap().eq_word(&w(5)));
}

#[test]
fn swap_twice_is_identity() {
    let mut s = Stack::new();
    for v in [1u64, 2, 3] {
        s.push(w(v)).unwrap();
    }
    s.swap(2).unwrap();
    assert!(s.peek(0).unwrap().eq_word(&w(1)));
    assert!(s.peek(2).unwrap().eq_word(&w(3)));
    s.swap(2).unwrap();
    assert!(s.peek(0).unwrap().eq_word(&w(3)));
    assert!(s.peek(2).unwrap().eq_word(&w(1)));
}

#[test]
fn stack_limits() {
    let mut s = Stack::new();
    assert_eq!(s.pop().unwrap_err(), ExitError::StackUnderflow);
    for i in 0..1024u64 {
        s.push(w(i)).unwrap();
    }
    assert_eq!(s.push(w(0)).unwrap_err(), ExitError::StackOverflow);
    assert_eq!(s.len(), 1024);
    assert_eq!(s.dup(1).unwrap_err(), ExitError::StackOverflow);
    assert_eq!(s.swap(1024).unwrap_err(), ExitError::StackUnderflow);
}

#[test]
fn mstore_then_mload_at_an_aligned_offset() {
    let mut m = Memory::new();
    let (x, _) = w(0xdead_beef).overflowing_mul(w(u64::MAX));
    m.write_word(64, x);
    assert_eq!(m.len(), 96);
    assert!(m.read_word(64).eq_word(&x));
    assert!(m.read_word(0).is_zero());
}

#[test]
fn memory_reads_zero_past_its_end_and_grows_by_words() {
    let mut m = Memory::new();
    assert_eq!(m.read(10, 4), vec![0, 0, 0, 0]);
    assert_eq!(m.len(), 0);
    m.write_byte(33, 0xab);
    assert_eq!(m.len(), 64);
    assert_eq!(m.read(32, 3), vec![0, 0xab, 0]);
    m.expand(100, 0);
    assert_eq!(m.len(), 64);
}

#[test]
fn decode_families_and_invalid_bytes() {
    assert_eq!(Instruction::decode(0x60), Some(Instruction::PUSH(1)));
    assert_eq!(Instruction::decode(0x7f), Some(Instruction::PUSH(32)));
    assert_eq!(Instruction::decode(0x80), Some(Instruction::DUP(1)));
    assert_eq!(Instruction::decode(0x9f), Some(Instruction::SWAP(16)));
    assert_eq!(Instruction::decode(0xa4), Some(Instruction::LOG(4)));
    assert_eq!(Instruction::decode(0x0c), None);
    assert_eq!(Instruction::decode(0xa5), None);
    assert_eq!(Instruction::SWAP(3).stack_io(), (4, 4));
    assert_eq!(Instruction::PUSH(2).static_gas(), 3);
}

#[test]
fn check_opcode_arity_and_ranges() {
    let mut s = Stack::new();
    assert_eq!(check_opcode(Instruction::ADD, &s), Err(ExitError::StackUnderflow));
    s.push(w(1)).unwrap();
    s.push(w(2)).unwrap();
    assert_eq!(check_opcode(Instruction::ADD, &s), Ok(None));
    assert_eq!(check_opcode(Instruction::JUMP, &s), Ok(Some(ControlCheck::Jump(w(2)))));
    // JUMPI with condition 1 (below the destination) jumps.
    assert_eq!(check_opcode(Instruction::JUMPI, &s), Ok(Some(ControlCheck::Jump(w(2)))));
    // RETURN of 1 byte at an offset past the memory limit.
    s.push(U256::max_value()).unwrap();
    assert_eq!(check_opcode(Instruction::RETURN, &s), Err(ExitError::InvalidRange));
    // MSTORE at offset max is not addressable either.
    assert_eq!(check_opcode(Instruction::MSTORE, &s), Err(ExitError::InvalidRange));
    let mut full = Stack::new();
    for i in 0..1024u64 {
        full.push(w(i)).unwrap();
    }
    assert_eq!(check_opcode(Instruction::PUSH(1), &full), Err(ExitError::StackOverflow));
}

#[test]
fn range_check_allows_empty_regions_anywhere() {
    assert!(check_range(&U256::max_value(), &U256::zero()).is_ok());
    assert!(check_range(&w(0), &w(32)).is_ok());
    assert_eq!(check_range(&U256::max_value(), &w(1)), Err(ExitError::InvalidRange));
}

#[test]
fn jumpdest_bytes_inside_push_data_are_not_targets() {
    // PUSH1 0x5b, JUMPDEST, PUSH2 0x5b5b, JUMPDEST
    let code = vec![0x60, 0x5b, 0x5b, 0x61, 0x5b, 0x5b, 0x5b];
    let map = jumpdest_map(&code);
    assert_eq!(map, vec![false, false, true, false, false, false, true]);
    // A PUSH whose data runs past the end.
    let code = vec![0x5b, 0x7f, 0x5b];
    assert_eq!(jumpdest_map(&code), vec![true, false, false]);
}
