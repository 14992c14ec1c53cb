//! The execution trace that the builder reads: one record for each
//! instruction that ran.
use vstd::prelude::*;
use crate::operation::StackAddress;
use crate::word::Word;

verus! {

/// The number of slots of the machine's stack.
pub const STACK_LIMIT: usize = 1024;

/// Why a trace cannot be turned into operations.
#[derive(Clone, Copy, Debug, PartialEq, Eq, Structural)]
pub enum Error {
    /// A record lacks what its instruction needs, or names an instruction
    /// that does not exist.
    TraceMalformed,
    /// The depth that a record reports is not that of the frame which the
    /// records before it lead to.
    CallDepthInconsistent,
}

/// A snapshot of the stack, the top first.
#[derive(Debug)]
pub struct Stack(pub Vec<Word>);

impl View for Stack {
    type V = Seq<Word>;

    open spec fn view(&self) -> Seq<Word> {
        self.0@
    }
}

/// The address of the `nth` word from the top of a stack of `len` words.
pub open spec fn address_of_nth(len: nat, nth: nat) -> StackAddress {
    StackAddress((STACK_LIMIT - len + nth) as usize)
}

impl Stack {
    /// The empty stack.
    pub fn new() -> (s: Stack)
        ensures
            s@ == Seq::<Word>::empty(),
    {
        Stack(Vec::new())
    }

    /// The number of words on the stack.
    pub fn len(&self) -> (n: usize)
        ensures
            n == self@.len(),
    {
        self.0.len()
    }

    /// The address of the top of the stack: the stack pointer. An empty stack
    /// has it just past the last slot.
    pub fn stack_pointer(&self) -> (a: StackAddress)
        requires
            self@.len() <= STACK_LIMIT,
        ensures
            a == address_of_nth(self@.len(), 0),
    {
        StackAddress(STACK_LIMIT - self.0.len())
    }

    /// The address of the `nth` word from the top, the top being the 0th.
    pub fn nth_last_filled(&self, nth: usize) -> (a: StackAddress)
        requires
            self@.len() <= STACK_LIMIT,
            nth <= self@.len(),
        ensures
            a == address_of_nth(self@.len(), nth as nat),
    {
        StackAddress(STACK_LIMIT - self.0.len() + nth)
    }

    /// The `nth` word from the top, the top being the 0th. A stack that has
    /// no such word is malformed.
    pub fn nth_last(&self, nth: usize) -> (r: Result<Word, Error>)
        ensures
            nth < self@.len() ==> r == Ok::<Word, Error>(self@[nth as int]),
            nth >= self@.len() ==> r == Err::<Word, Error>(Error::TraceMalformed),
    {
        if nth < self.0.len() {
            Ok(self.0[nth])
        } else {
            Err(Error::TraceMalformed)
        }
    }
}

/// A snapshot of storage: pairs of a slot and the value in it. Where a slot
/// comes twice, the first pair counts.
#[derive(Debug)]
pub struct Storage(pub Vec<(Word, Word)>);

/// The value that the first pair of `pairs` with the slot `key` holds.
pub open spec fn storage_lookup(pairs: Seq<(Word, Word)>, key: Word) -> Option<Word>
    decreases pairs.len(),
{
    if pairs.len() == 0 {
        None
    } else if pairs[0].0 == key {
        Some(pairs[0].1)
    } else {
        storage_lookup(pairs.drop_first(), key)
    }
}

impl View for Storage {
    type V = Seq<(Word, Word)>;

    open spec fn view(&self) -> Seq<(Word, Word)> {
        self.0@
    }
}

impl Storage {
    /// The snapshot without slots.
    pub fn new() -> (s: Storage)
        ensures
            s@ == Seq::<(Word, Word)>::empty(),
    {
        Storage(Vec::new())
    }

    /// The value in the slot `key`, where the snapshot holds the slot.
    pub fn get(&self, key: Word) -> (found: Option<Word>)
        ensures
            found == storage_lookup(self@, key),
    {
        let n: usize = self.0.len();
        let mut i: usize = 0;
        proof {
            assert(self.0@.skip(0) =~= self.0@);
        }
        while i < n
            invariant
                n == self.0@.len(),
                i <= n,
                storage_lookup(self.0@, key) == storage_lookup(self.0@.skip(i as int), key),
            decreases n - i,
        {
            let pair: (Word, Word) = self.0[i];
            proof {
                let rest = self.0@.skip(i as int);
                assert(rest[0] == pair);
                assert(rest.drop_first() =~= self.0@.skip(i + 1));
            }
            if pair.0 == key {
                return Some(pair.1);
            }
            i = i + 1;
        }
        None
    }
}

/// One executed instruction, as the tracer recorded it before it ran.
#[derive(Debug)]
pub struct GethExecStep {
    /// The program counter.
    pub pc: u64,
    /// The instruction's identifier.
    pub op: u8,
    /// The gas that is left.
    pub gas: u64,
    /// The depth of the frame that runs the instruction, the outermost being 0.
    pub depth: u32,
    /// The stack, the top first.
    pub stack: Stack,
    /// The memory.
    pub memory: Vec<u8>,
    /// The storage slots that the frame has touched.
    pub storage: Storage,
    /// What went wrong, where the instruction failed.
    pub error: Option<String>,
}

/// The trace of one transaction.
#[derive(Debug)]
pub struct GethExecTrace {
    /// Whether the transaction failed.
    pub failed: bool,
    /// The records, in the order of execution.
    pub struct_logs: Vec<GethExecStep>,
}

} // verus!
