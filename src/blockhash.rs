//! Block hashes handed to the machine by a host that supplies them on request.
use vstd::prelude::*;
use crate::u256::U256;

verus! {

/// The machine needs a block hash that the host has not committed yet.
#[derive(Clone, Copy, PartialEq, Eq, Debug, Structural)]
pub enum RequireError {
    Blockhash(U256),
}

/// A commitment that contradicts an earlier one.
#[derive(Clone, Copy, PartialEq, Eq, Debug, Structural)]
pub enum CommitError {
    AlreadyCommitted,
}

/// The hash committed for a block number, the latest commitment first.
pub open spec fn hash_lookup(entries: Seq<(U256, U256)>, number: U256) -> Option<U256>
    decreases entries.len(),
{
    if entries.len() == 0 {
        None
    } else if entries.last().0 == number {
        Some(entries.last().1)
    } else {
        hash_lookup(entries.drop_last(), number)
    }
}

/// The block hashes committed so far, by block number.
pub struct BlockhashState {
    entries: Vec<(U256, U256)>,
}

impl View for BlockhashState {
    type V = Seq<(U256, U256)>;

    closed spec fn view(&self) -> Seq<(U256, U256)> {
        self.entries@
    }
}

impl BlockhashState {
    /// No hashes committed.
    pub fn new() -> (r: BlockhashState)
        ensures
            forall|n: U256| hash_lookup(r@, n) is None,
    {
        BlockhashState { entries: Vec::new() }
    }

    fn find(&self, number: U256) -> (r: Option<U256>)
        ensures
            r == hash_lookup(self@, number),
    {
        let mut i = self.entries.len();
        proof {
            assert(self@.subrange(0, self@.len() as int) == self@);
        }
        while i > 0
            invariant
                i <= self@.len(),
                hash_lookup(self@, number) == hash_lookup(self@.subrange(0, i as int), number),
            decreases i,
        {
            let ghost sub = self@.subrange(0, i as int);
            proof {
                assert(sub.drop_last() == self@.subrange(0, i - 1));
            }
            let (n, h) = self.entries[i - 1];
            if n == number {
                return Some(h);
            }
            i = i - 1;
        }
        None
    }

    /// Ok where the hash of block `number` is committed; else the request for it.
    pub fn require(&self, number: U256) -> (r: Result<(), RequireError>)
        ensures
            hash_lookup(self@, number) is Some ==> r is Ok,
            hash_lookup(self@, number) is None ==> r == Err::<(), RequireError>(RequireError::Blockhash(number)),
    {
        match self.find(number) {
            Some(_) => Ok(()),
            None => Err(RequireError::Blockhash(number)),
        }
    }

    /// Commits the hash of block `number`; a block's hash is committed once.
    pub fn commit(&mut self, number: U256, hash: U256) -> (r: Result<(), CommitError>)
        ensures
            hash_lookup(old(self)@, number) is Some ==> r == Err::<(), CommitError>(CommitError::AlreadyCommitted)
                && final(self)@ == old(self)@,
            hash_lookup(old(self)@, number) is None ==> r is Ok && forall|m: U256|
                #[trigger] hash_lookup(final(self)@, m) == if m == number {
                    Some(hash)
                } else {
                    hash_lookup(old(self)@, m)
                },
    {
        if self.find(number).is_some() {
            return Err(CommitError::AlreadyCommitted);
        }
        self.entries.push((number, hash));
        proof {
            assert forall|m: U256| #[trigger] hash_lookup(final(self)@, m) == if m == number {
                Some(hash)
            } else {
                hash_lookup(old(self)@, m)
            } by {
                assert(final(self)@.drop_last() == old(self)@);
            }
        }
        Ok(())
    }

    /// The hash of block `number`, or the request for it.
    pub fn get(&self, number: U256) -> (r: Result<U256, RequireError>)
        ensures
            hash_lookup(self@, number) matches Some(h) ==> r == Ok::<U256, RequireError>(h),
            hash_lookup(self@, number) is None ==> r == Err::<U256, RequireError>(RequireError::Blockhash(number)),
    {
        match self.find(number) {
            Some(h) => Ok(h),
            None => Err(RequireError::Blockhash(number)),
        }
    }
}

} // verus!
