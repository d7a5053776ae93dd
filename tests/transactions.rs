use sputnikvm::backend::Backend;
use sputnikvm::errors::{ExitError, ExitReason, ExitSucceed};
use sputnikvm::patch::Patch;
use sputnikvm::substate::{Address, Basic};
use sputnikvm::transaction::{transact_call, transact_create, validate, PreExecutionError, Transaction, TransactionAction};
use sputnikvm::u256::U256;

fn w(v: u64) -> U256 {
    U256::from_u64(v)
}

struct Account {
    address: Address,
    basic: Basic,
    code: Vec<u8>,
}

struct World {
    accounts: Vec<Account>,
}

impl World {
    fn find(&self, address: Address) -> Option<&Account> {
        self.accounts.iter().find(|a| a.address.eq_word(&address))
    }
}

impl Backend for World {
    fn basic(&self, address: Address) -> Basic {
        match self.find(address) {
            Some(a) => a.basic,
            None => Basic { balance: U256::zero(), nonce: U256::zero() },
        }
    }
    fn code(&self, address: Address) -> Vec<u8> {
        self.find(address).map(|a| a.code.clone()).unwrap_or_default()
    }
    fn storage(&self, _address: Address, _key: U256) -> U256 {
        U256::zero()
    }
    fn has_storage(&self, _address: Address) -> bool {
        false
    }
    fn original_storage(&self, _address: Address, _key: U256) -> U256 {
        U256::zero()
    }
    fn block_number(&self) -> U256 {
        w(300)
    }
    fn block_hash(&self, number: U256) -> U256 {
        let (h, _) = number.overflowing_mul(w(0x1000));
        h
    }
    fn block_coinbase(&self) -> Address {
        w(0xc0)
    }
    fn block_timestamp(&self) -> U256 {
        w(1000)
    }
    fn block_difficulty(&self) -> U256 {
        w(1)
    }
    fn block_gas_limit(&self) -> U256 {
        w(10_000_000)
    }
    fn chain_id(&self) -> U256 {
        w(1)
    }
    fn block_base_fee(&self) -> U256 {
        U256::zero()
    }
}

const SENDER: u64 = 0x5e;
const A: u64 = 0xaa;
const B: u64 = 0xbb;

fn world(contracts: Vec<(u64, Vec<u8>)>) -> World {
    let mut accounts = vec![Account {
        address: w(SENDER),
        basic: Basic { balance: w(1_000_000_000), nonce: U256::zero() },
        code: Vec::new(),
    }];
    for (a, code) in contracts {
        accounts.push(Account { address: w(a), basic: Basic { balance: U256::zero(), nonce: w(1) }, code });
    }
    World { accounts }
}

fn call(to: u64, gas_limit: u64) -> Transaction {
    Transaction {
        caller: w(SENDER),
        action: TransactionAction::Call(w(to)),
        value: U256::zero(),
        gas_price: w(1),
        gas_limit,
        input: Vec::new(),
        nonce: U256::zero(),
    }
}

fn adder() -> Vec<u8> {
    // PUSH1 3; PUSH1 4; ADD; PUSH1 0; MSTORE; PUSH1 32; PUSH1 0; RETURN
    vec![0x60, 0x03, 0x60, 0x04, 0x01, 0x60, 0x00, 0x52, 0x60, 0x20, 0x60, 0x00, 0xf3]
}

#[test]
fn arithmetic_returns_seven() {
    let world = world(vec![(A, adder())]);
    let res = transact_call(&Patch::istanbul(), &call(A, 100_000), &world, 10_000).unwrap();
    assert_eq!(res.exit_reason, ExitReason::Succeed(ExitSucceed::Returned));
    let mut seven = vec![0u8; 32];
    seven[31] = 7;
    assert_eq!(res.output, seven);
    assert_eq!(res.gas_used, 21024);
    assert_eq!(res.gas_used + res.gas_returned, 100_000);
    let sender = res.state.known_basic(w(SENDER)).unwrap();
    assert!(sender.nonce.eq_word(&w(1)));
    assert!(sender.balance.eq_word(&w(1_000_000_000 - 21024)));
    let miner = res.state.known_basic(w(0xc0)).unwrap();
    assert!(miner.balance.eq_word(&w(21024)));
}

#[test]
fn out_of_gas_consumes_everything() {
    let world = world(vec![(A, adder())]);
    let res = transact_call(&Patch::istanbul(), &call(A, 21020), &world, 10_000).unwrap();
    assert_eq!(res.exit_reason, ExitReason::Error(ExitError::OutOfGas));
    assert!(res.output.is_empty());
    assert_eq!(res.gas_used, 21020);
    assert_eq!(res.gas_returned, 0);
    let sender = res.state.known_basic(w(SENDER)).unwrap();
    assert!(sender.nonce.eq_word(&w(1)));
    assert!(res.state.known_storage(w(A), w(0)).is_none());
}

fn call_b_then(rest: &[u8]) -> Vec<u8> {
    // out_len, out_off, in_len, in_off, value, to = B, gas = 0xffff; CALL
    let mut c = vec![0x60, 0x00, 0x60, 0x00, 0x60, 0x00, 0x60, 0x00, 0x60, 0x00, 0x60, B as u8, 0x61, 0xff, 0xff, 0xf1];
    c.extend_from_slice(rest);
    c
}

#[test]
fn revert_isolates_the_callee() {
    // A: slot 1 := 0x42; CALL B; slot 3 := result; STOP
    let mut a = vec![0x60, 0x42, 0x60, 0x01, 0x55];
    a.extend(call_b_then(&[0x60, 0x03, 0x55, 0x00]));
    // B: slot 2 := 0x99; REVERT(0, 0)
    let b = vec![0x60, 0x99, 0x60, 0x02, 0x55, 0x60, 0x00, 0x60, 0x00, 0xfd];
    let world = world(vec![(A, a), (B, b)]);
    let res = transact_call(&Patch::istanbul(), &call(A, 1_000_000), &world, 10_000).unwrap();
    assert_eq!(res.exit_reason, ExitReason::Succeed(ExitSucceed::Stopped));
    assert!(res.state.known_storage(w(A), w(1)).unwrap().eq_word(&w(0x42)));
    assert!(res.state.known_storage(w(A), w(3)).unwrap().is_zero());
    assert!(res.state.known_storage(w(B), w(2)).is_none());
    assert_eq!(res.gas_used + res.gas_returned, 1_000_000);
}

#[test]
fn call_to_a_stop_contract_pushes_one() {
    let a = call_b_then(&[0x60, 0x03, 0x55, 0x00]);
    let world = world(vec![(A, a), (B, vec![0x00])]);
    let res = transact_call(&Patch::istanbul(), &call(A, 1_000_000), &world, 10_000).unwrap();
    assert_eq!(res.exit_reason, ExitReason::Succeed(ExitSucceed::Stopped));
    assert!(res.state.known_storage(w(A), w(3)).unwrap().eq_word(&w(1)));
    // 21000 + seven pushes (21) + CALL (700, the callee's unused gas comes back)
    // + PUSH1 (3) + SSTORE of a fresh slot (20000).
    assert_eq!(res.gas_used, 21000 + 21 + 700 + 3 + 20000);
}

#[test]
fn logs_keep_emission_order_across_frames() {
    fn log_byte(c: &mut Vec<u8>, b: u8) {
        // MSTORE8(0, b); LOG0(0, 1)
        c.extend_from_slice(&[0x60, b, 0x60, 0x00, 0x53, 0x60, 0x01, 0x60, 0x00, 0xa0]);
    }
    let mut p = Vec::new();
    log_byte(&mut p, b'A');
    p.extend(call_b_then(&[0x50]));
    log_byte(&mut p, b'C');
    p.push(0x00);
    let mut q = Vec::new();
    log_byte(&mut q, b'B');
    q.push(0x00);
    let world = world(vec![(A, p), (B, q)]);
    let res = transact_call(&Patch::istanbul(), &call(A, 1_000_000), &world, 10_000).unwrap();
    assert_eq!(res.exit_reason, ExitReason::Succeed(ExitSucceed::Stopped));
    let logs = res.state.current_logs();
    let data: Vec<Vec<u8>> = logs.iter().map(|l| l.data.clone()).collect();
    assert_eq!(data, vec![b"A".to_vec(), b"B".to_vec(), b"C".to_vec()]);
    assert!(logs[1].address.eq_word(&w(B)));
}

#[test]
fn bad_jump_and_invalid_opcode_fail_the_frame() {
    // PUSH1 3; JUMP (3 is not a JUMPDEST)
    let world1 = world(vec![(A, vec![0x60, 0x03, 0x56, 0x00])]);
    let res = transact_call(&Patch::istanbul(), &call(A, 100_000), &world1, 100).unwrap();
    assert_eq!(res.exit_reason, ExitReason::Error(ExitError::InvalidJump));
    assert_eq!(res.gas_used, 100_000);
    let world2 = world(vec![(A, vec![0xfe])]);
    let res = transact_call(&Patch::istanbul(), &call(A, 100_000), &world2, 100).unwrap();
    assert_eq!(res.exit_reason, ExitReason::Error(ExitError::DesignatedInvalid));
    let world3 = world(vec![(A, vec![0x01])]);
    let res = transact_call(&Patch::istanbul(), &call(A, 100_000), &world3, 100).unwrap();
    assert_eq!(res.exit_reason, ExitReason::Error(ExitError::StackUnderflow));
}

#[test]
fn jumps_land_on_jumpdests() {
    // PUSH1 4; JUMP; INVALID; JUMPDEST; PUSH1 1; PUSH1 0; SSTORE; STOP
    let code = vec![0x60, 0x04, 0x56, 0xfe, 0x5b, 0x60, 0x01, 0x60, 0x00, 0x55, 0x00];
    let world = world(vec![(A, code)]);
    let res = transact_call(&Patch::istanbul(), &call(A, 100_000), &world, 100).unwrap();
    assert_eq!(res.exit_reason, ExitReason::Succeed(ExitSucceed::Stopped));
    assert!(res.state.known_storage(w(A), w(0)).unwrap().eq_word(&w(1)));
}

#[test]
fn transactions_refused_before_running() {
    let p = Patch::istanbul();
    let sender = Basic { balance: w(100_000), nonce: w(3) };
    let mut tx = call(A, 50_000);
    assert_eq!(validate(&p, &tx, sender, U256::zero()), Err(PreExecutionError::InvalidNonce));
    tx.nonce = w(3);
    assert_eq!(validate(&p, &tx, sender, U256::zero()), Ok(21000));
    tx.gas_limit = 20_000;
    assert_eq!(validate(&p, &tx, sender, U256::zero()), Err(PreExecutionError::InsufficientGasLimit));
    tx.gas_limit = 200_000;
    assert_eq!(validate(&p, &tx, sender, U256::zero()), Err(PreExecutionError::InsufficientBalance));
    tx.gas_limit = 50_000;
    assert_eq!(validate(&p, &tx, sender, w(2)), Err(PreExecutionError::GasPriceBelowBaseFee));
}

#[test]
fn the_step_cap_ends_with_a_fatal_exit_that_pays_the_fee() {
    // JUMPDEST; PUSH1 0; JUMP: loops until gas runs out.
    let world = world(vec![(A, vec![0x5b, 0x60, 0x00, 0x56])]);
    let res = transact_call(&Patch::istanbul(), &call(A, 100_000), &world, 10).unwrap();
    assert!(res.interrupted);
    assert_eq!(res.rounds, 10);
    assert!(matches!(res.exit_reason, ExitReason::Fatal(_)));
    assert_eq!(res.gas_used, 100_000);
    assert!(res.state.known_basic(w(SENDER)).unwrap().nonce.eq_word(&w(1)));
    let res = transact_call(&Patch::istanbul(), &call(A, 100_000), &world, 1_000_000).unwrap();
    assert!(!res.interrupted);
    assert_eq!(res.exit_reason, ExitReason::Error(ExitError::OutOfGas));
    assert_eq!(res.gas_used, 100_000);
}

const D: u64 = 0xdd;

fn rich(world: &mut World, address: u64, balance: u64) {
    for a in world.accounts.iter_mut() {
        if a.address.eq_word(&w(address)) {
            a.basic.balance = w(balance);
        }
    }
}

#[test]
fn division_and_bitwise_opcodes() {
    // slot 0 := 10 / 3; slot 1 := 10 % 3; slot 2 := 6 & 3; slot 3 := (-1 < 0)
    let code = vec![
        0x60, 0x03, 0x60, 0x0a, 0x04, 0x60, 0x00, 0x55, //
        0x60, 0x03, 0x60, 0x0a, 0x06, 0x60, 0x01, 0x55, //
        0x60, 0x03, 0x60, 0x06, 0x16, 0x60, 0x02, 0x55, //
        0x60, 0x00, 0x60, 0x00, 0x19, 0x12, 0x60, 0x03, 0x55, 0x00,
    ];
    let world = world(vec![(A, code)]);
    let res = transact_call(&Patch::istanbul(), &call(A, 1_000_000), &world, 1000).unwrap();
    assert_eq!(res.exit_reason, ExitReason::Succeed(ExitSucceed::Stopped));
    assert!(res.state.known_storage(w(A), w(0)).unwrap().eq_word(&w(3)));
    assert!(res.state.known_storage(w(A), w(1)).unwrap().eq_word(&w(1)));
    assert!(res.state.known_storage(w(A), w(2)).unwrap().eq_word(&w(2)));
    assert!(res.state.known_storage(w(A), w(3)).unwrap().eq_word(&w(1)));
}

#[test]
fn calldata_is_read_zero_padded() {
    // slot 0 := CALLDATALOAD(1); slot 1 := CALLDATASIZE
    let code = vec![0x60, 0x01, 0x35, 0x60, 0x00, 0x55, 0x36, 0x60, 0x01, 0x55, 0x00];
    let world = world(vec![(A, code)]);
    let mut tx = call(A, 1_000_000);
    tx.input = vec![0xff, 0x12, 0x34];
    let res = transact_call(&Patch::istanbul(), &tx, &world, 1000).unwrap();
    let mut expected = vec![0u8; 32];
    expected[0] = 0x12;
    expected[1] = 0x34;
    assert_eq!(res.state.known_storage(w(A), w(0)).unwrap().to_be_bytes(), expected);
    assert!(res.state.known_storage(w(A), w(1)).unwrap().eq_word(&w(3)));
}

fn deployer(init: &[u8], value: u8, rest: &[u8]) -> Vec<u8> {
    // Store the init code at the end of word 0, then CREATE(value, 32 - len, len).
    let mut c = vec![0x60 + init.len() as u8 - 1];
    c.extend_from_slice(init);
    c.extend_from_slice(&[0x60, 0x00, 0x52]);
    c.extend_from_slice(&[0x60, init.len() as u8, 0x60, 32 - init.len() as u8, 0x60, value, 0xf0]);
    c.extend_from_slice(rest);
    c
}

#[test]
fn self_destruct_of_a_contract_created_in_the_same_transaction() {
    // The created contract sends everything to B and destroys itself.
    let d = deployer(&[0x60, B as u8, 0xff], 100, &[0x00]);
    let mut world = world(vec![(D, d), (B, Vec::new())]);
    rich(&mut world, D, 1000);
    let res = transact_call(&Patch::istanbul(), &call(D, 1_000_000), &world, 10_000).unwrap();
    assert_eq!(res.exit_reason, ExitReason::Succeed(ExitSucceed::Stopped));
    let created = sputnikvm::lifecycle::create_address(&w(D), &w(1));
    assert!(res.state.deleted(created));
    assert!(res.state.known_basic(w(B)).unwrap().balance.eq_word(&w(100)));
    assert!(res.state.known_basic(created).unwrap().balance.is_zero());
    assert!(res.state.known_basic(w(D)).unwrap().balance.eq_word(&w(900)));
    assert!(res.state.known_basic(w(D)).unwrap().nonce.eq_word(&w(2)));
}

#[test]
fn create_into_an_existing_account_collides() {
    // slot 0 := CREATE(0, 31, 1) with init code STOP; STOP
    let d = deployer(&[0x00], 0, &[0x60, 0x00, 0x55, 0x00]);
    let mut world = world(vec![(D, d)]);
    let taken = sputnikvm::lifecycle::create_address(&w(D), &w(1));
    world.accounts.push(Account { address: taken, basic: Basic { balance: U256::zero(), nonce: w(1) }, code: Vec::new() });
    let res = transact_call(&Patch::istanbul(), &call(D, 1_000_000), &world, 10_000).unwrap();
    assert_eq!(res.exit_reason, ExitReason::Succeed(ExitSucceed::Stopped));
    assert!(res.state.known_storage(w(D), w(0)).unwrap().is_zero());
    // The creation's whole budget is burned: far more than the frame's own steps.
    assert!(res.gas_used > 900_000);
}

#[test]
fn create_deposits_the_returned_code() {
    // Init code: MSTORE8(0, 0xfe); RETURN(0, 1) -- deploys the single byte 0xfe.
    let init = [0x60, 0xfe, 0x60, 0x00, 0x53, 0x60, 0x01, 0x60, 0x00, 0xf3];
    let d = deployer(&init, 0, &[0x60, 0x00, 0x55, 0x00]);
    let world = world(vec![(D, d)]);
    let res = transact_call(&Patch::istanbul(), &call(D, 1_000_000), &world, 10_000).unwrap();
    assert_eq!(res.exit_reason, ExitReason::Succeed(ExitSucceed::Stopped));
    let created = sputnikvm::lifecycle::create_address(&w(D), &w(1));
    assert!(res.state.known_storage(w(D), w(0)).unwrap().eq_word(&created));
    assert_eq!(res.state.known_code(created), Some(vec![0xfe]));
}

#[test]
fn exp_byte_and_blockhash_opcodes() {
    // slot 0 := 3 ** 5; slot 1 := BYTE(30, 0x1234); slot 2 := BLOCKHASH(299); slot 3 := BLOCKHASH(300)
    let code = vec![
        0x60, 0x05, 0x60, 0x03, 0x0a, 0x60, 0x00, 0x55, //
        0x61, 0x12, 0x34, 0x60, 0x1e, 0x1a, 0x60, 0x01, 0x55, //
        0x61, 0x01, 0x2b, 0x40, 0x60, 0x02, 0x55, //
        0x61, 0x01, 0x2c, 0x40, 0x60, 0x03, 0x55, 0x00,
    ];
    let world = world(vec![(A, code)]);
    let res = transact_call(&Patch::istanbul(), &call(A, 1_000_000), &world, 1000).unwrap();
    assert_eq!(res.exit_reason, ExitReason::Succeed(ExitSucceed::Stopped));
    assert!(res.state.known_storage(w(A), w(0)).unwrap().eq_word(&w(243)));
    assert!(res.state.known_storage(w(A), w(1)).unwrap().eq_word(&w(0x12)));
    assert!(res.state.known_storage(w(A), w(2)).unwrap().eq_word(&w(299 * 0x1000)));
    assert!(res.state.known_storage(w(A), w(3)).unwrap().is_zero());
}

#[test]
fn exp_wraps_modulo_two_to_the_256() {
    let (big, _) = U256::from_u64(2).exp(w(255)).overflowing_mul(w(1));
    assert_eq!(big.bits(), 256);
    assert!(w(2).exp(w(256)).is_zero());
    assert!(w(7).exp(U256::zero()).eq_word(&w(1)));
    assert!(U256::zero().exp(U256::zero()).eq_word(&w(1)));
    let (minus_one, _) = U256::zero().underflowing_sub(w(1));
    assert!(minus_one.exp(w(3)).eq_word(&minus_one));
}

#[test]
fn value_call_to_a_new_account_pays_for_it_and_keeps_the_stipend() {
    // CALL(gas 0xffff, to 0xee, value 1, no input, no output); slot 3 := result
    let code = vec![
        0x60, 0x00, 0x60, 0x00, 0x60, 0x00, 0x60, 0x00, 0x60, 0x01, 0x60, 0xee, 0x61, 0xff, 0xff, 0xf1, //
        0x60, 0x03, 0x55, 0x00,
    ];
    let mut world = world(vec![(A, code)]);
    rich(&mut world, A, 10);
    let res = transact_call(&Patch::istanbul(), &call(A, 1_000_000), &world, 1000).unwrap();
    assert_eq!(res.exit_reason, ExitReason::Succeed(ExitSucceed::Stopped));
    assert!(res.state.known_storage(w(A), w(3)).unwrap().eq_word(&w(1)));
    assert!(res.state.known_basic(w(0xee)).unwrap().balance.eq_word(&w(1)));
    assert!(res.state.known_basic(w(A)).unwrap().balance.eq_word(&w(9)));
    // 700 + 9000 + 25000 for the call, less the 2300 stipend the callee left unused.
    assert_eq!(res.gas_used, 21000 + 21 + 32400 + 3 + 20000);
}

#[test]
fn mstore_then_mload_returns_the_word() {
    // MSTORE(0x40, 0xbeef); slot 0 := MLOAD(0x40); slot 1 := MSIZE
    let code = vec![
        0x61, 0xbe, 0xef, 0x60, 0x40, 0x52, 0x60, 0x40, 0x51, 0x60, 0x00, 0x55, 0x59, 0x60, 0x01, 0x55, 0x00,
    ];
    let world = world(vec![(A, code)]);
    let res = transact_call(&Patch::istanbul(), &call(A, 1_000_000), &world, 1000).unwrap();
    assert!(res.state.known_storage(w(A), w(0)).unwrap().eq_word(&w(0xbeef)));
    assert!(res.state.known_storage(w(A), w(1)).unwrap().eq_word(&w(96)));
}

#[test]
fn static_cost_is_charged_before_each_step() {
    // PUSH1 1; POP; STOP with exactly 5 gas for the frame.
    let world = world(vec![(A, vec![0x60, 0x01, 0x50, 0x00])]);
    let res = transact_call(&Patch::istanbul(), &call(A, 21_005), &world, 100).unwrap();
    assert_eq!(res.exit_reason, ExitReason::Succeed(ExitSucceed::Stopped));
    assert_eq!(res.gas_used, 21_005);
    let res = transact_call(&Patch::istanbul(), &call(A, 21_004), &world, 100).unwrap();
    assert_eq!(res.exit_reason, ExitReason::Error(ExitError::OutOfGas));
}

#[test]
fn a_creation_transaction_deploys_code() {
    // Init code: MSTORE8(0, 0x5b); RETURN(0, 1)
    let init = vec![0x60, 0x5b, 0x60, 0x00, 0x53, 0x60, 0x01, 0x60, 0x00, 0xf3];
    let world = world(vec![]);
    let tx = Transaction {
        caller: w(SENDER),
        action: TransactionAction::Create,
        value: w(5),
        gas_price: w(1),
        gas_limit: 200_000,
        input: init,
        nonce: U256::zero(),
    };
    let res = transact_create(&Patch::istanbul(), &tx, &world, 1000).unwrap();
    assert_eq!(res.exit_reason, ExitReason::Succeed(ExitSucceed::Returned));
    let created = sputnikvm::lifecycle::create_address(&w(SENDER), &U256::zero());
    assert_eq!(res.state.known_code(created), Some(vec![0x5b]));
    assert!(res.state.known_basic(created).unwrap().balance.eq_word(&w(5)));
    assert_eq!(res.gas_used + res.gas_returned, 200_000);
    // 53000 + init bytes (2 zero, 8 nonzero: 8 + 128) + 4 pushes + MSTORE8 + memory (3)
    // + deposit of 1 byte (200).
    assert_eq!(res.gas_used, 53000 + 8 + 128 + 12 + 3 + 3 + 200);
}

#[test]
fn revert_is_invalid_before_it_was_introduced() {
    let world = world(vec![(A, vec![0x60, 0x00, 0x60, 0x00, 0xfd])]);
    let res = transact_call(&Patch::frontier(), &call(A, 100_000), &world, 100).unwrap();
    assert_eq!(res.exit_reason, ExitReason::Error(ExitError::DesignatedInvalid));
    let res = transact_call(&Patch::istanbul(), &call(A, 100_000), &world, 100).unwrap();
    assert_eq!(res.exit_reason, ExitReason::Revert);
    assert_eq!(res.settlement.sender_credit, w(res.gas_returned));
}

#[test]
fn code_larger_than_the_limit_is_not_deployed() {
    // Init code: RETURN(0, 0x6001) -- 24577 zero bytes, one past the limit.
    let init = vec![0x61, 0x60, 0x01, 0x60, 0x00, 0xf3];
    let world = world(vec![]);
    let tx = Transaction {
        caller: w(SENDER),
        action: TransactionAction::Create,
        value: U256::zero(),
        gas_price: w(1),
        gas_limit: 9_000_000,
        input: init,
        nonce: U256::zero(),
    };
    let res = transact_create(&Patch::istanbul(), &tx, &world, 1000).unwrap();
    assert_eq!(res.exit_reason, ExitReason::Error(ExitError::CreateContractLimit));
    assert_eq!(res.gas_used, 9_000_000);
}
