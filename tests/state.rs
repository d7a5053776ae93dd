use sputnikvm::blockhash::{BlockhashState, CommitError, RequireError};
use sputnikvm::substate::{Basic, MemoryStackSubstate, Metadata};
use sputnikvm::u256::U256;

fn w(v: u64) -> U256 {
    U256::from_u64(v)
}

#[test]
fn blockhashes_are_committed_once() {
    let mut s = BlockhashState::new();
    assert_eq!(s.require(w(7)), Err(RequireError::Blockhash(w(7))));
    assert_eq!(s.commit(w(7), w(0xabc)), Ok(()));
    assert_eq!(s.commit(w(7), w(0xdef)), Err(CommitError::AlreadyCommitted));
    assert_eq!(s.get(w(7)), Ok(w(0xabc)));
    assert_eq!(s.require(w(7)), Ok(()));
    assert_eq!(s.get(w(8)), Err(RequireError::Blockhash(w(8))));
}

fn meta() -> Metadata {
    Metadata { gas_limit: 100, depth: 0 }
}

#[test]
fn discard_restores_the_parent() {
    let mut s = MemoryStackSubstate::new(meta());
    s.set_storage(w(1), w(1), w(10));
    s.enter(meta());
    s.set_storage(w(1), w(1), w(20));
    s.set_storage(w(1), w(2), w(30));
    s.log(w(1), vec![], vec![1]);
    assert_eq!(s.known_storage(w(1), w(1)), Some(w(20)));
    s.discard();
    assert_eq!(s.depth(), 1);
    assert_eq!(s.known_storage(w(1), w(1)), Some(w(10)));
    assert_eq!(s.known_storage(w(1), w(2)), None);
    assert!(s.current_logs().is_empty());
}

#[test]
fn commit_lets_the_later_write_win() {
    let mut s = MemoryStackSubstate::new(meta());
    s.set_storage(w(1), w(1), w(10));
    s.enter(meta());
    s.set_storage(w(1), w(1), w(20));
    s.log(w(1), vec![w(5)], vec![2]);
    s.commit();
    assert_eq!(s.depth(), 1);
    assert_eq!(s.known_storage(w(1), w(1)), Some(w(20)));
    assert_eq!(s.current_logs().len(), 1);
}

#[test]
fn reset_storage_hides_older_writes_and_sets_the_original() {
    let mut s = MemoryStackSubstate::new(meta());
    s.set_storage(w(1), w(1), w(10));
    assert_eq!(s.known_original_storage(w(1), w(1)), None);
    s.enter(meta());
    s.reset_storage(w(1));
    assert_eq!(s.known_storage(w(1), w(1)), Some(U256::zero()));
    assert_eq!(s.known_original_storage(w(1), w(1)), Some(U256::zero()));
    s.set_storage(w(1), w(1), w(3));
    assert_eq!(s.known_storage(w(1), w(1)), Some(w(3)));
}

#[test]
fn accounts_deletes_and_emptiness() {
    let mut s = MemoryStackSubstate::new(meta());
    assert_eq!(s.known_basic(w(9)), None);
    assert_eq!(s.known_empty(w(9)), None);
    s.set_account(w(9), Basic { balance: U256::zero(), nonce: U256::zero() }, Some(vec![]));
    assert_eq!(s.known_empty(w(9)), Some(true));
    s.set_account(w(9), Basic { balance: w(1), nonce: U256::zero() }, Some(vec![]));
    assert_eq!(s.known_empty(w(9)), Some(false));
    assert_eq!(s.known_code(w(9)), Some(vec![]));
    assert!(!s.deleted(w(9)));
    s.enter(meta());
    s.set_deleted(w(9));
    assert!(s.deleted(w(9)));
    s.discard();
    assert!(!s.deleted(w(9)));
}
