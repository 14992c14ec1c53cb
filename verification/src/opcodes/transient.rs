//! The instructions that load from and store to transient storage, which
//! lasts for one transaction.
use vstd::prelude::*;
use crate::opcodes::{can_read, cannot_read};
use crate::operation::{Op, StackAddress, RW};
use crate::state::{
    stack_access, with_accesses, with_references, Access, CircuitInputState, ExecStep, StateView,
};
use crate::trace::{address_of_nth, Error, GethExecStep};
use crate::word::{word_of, Address, Word};

verus! {

/// The handler of the load from transient storage.
#[derive(Debug, Copy, Clone)]
pub struct Tload;

/// The handler of the store to transient storage.
#[derive(Debug, Copy, Clone)]
pub struct Tstore;

/// The value in the slot `key` of `address` after the stores `stores`: that of
/// the last store to the slot, and 0 where there is none.
pub open spec fn transient_value(stores: Seq<(Address, Word, Word)>, address: Address, key: Word) -> Word
    decreases stores.len(),
{
    if stores.len() == 0 {
        word_of(0)
    } else if stores.last().0 == address && stores.last().1 == key {
        stores.last().2
    } else {
        transient_value(stores.drop_last(), address, key)
    }
}

/// The access to the slot `key` of the transient storage of the account of
/// the frame at work.
pub open spec fn transient_access(s: StateView, rw: RW, key: Word, value: Word, value_prev: Word) -> Access {
    Access {
        rw,
        op: Op::TransientStorage {
            tx_id: s.tx_id,
            address: s.frames.last().callee,
            key,
            value,
            value_prev,
        },
    }
}

/// What the load does: it reads the key from the stack, reads the slot and
/// writes its value where the key was.
pub open spec fn tload_accesses(s: StateView, step: GethExecStep) -> Seq<Access> {
    let call_id = s.frames.last().call_id;
    let key = step.stack@[0];
    let value = transient_value(s.transient, s.frames.last().callee, key);
    let top = address_of_nth(step.stack@.len(), 0);
    seq![
        stack_access(call_id, RW::READ, top, key),
        transient_access(s, RW::READ, key, value, value),
        stack_access(call_id, RW::WRITE, top, value),
    ]
}

/// What the store does: it reads the key and the value from the stack and
/// writes the slot.
pub open spec fn tstore_accesses(s: StateView, step: GethExecStep) -> Seq<Access> {
    let call_id = s.frames.last().call_id;
    let key = step.stack@[0];
    let value = step.stack@[1];
    let value_prev = transient_value(s.transient, s.frames.last().callee, key);
    seq![
        stack_access(call_id, RW::READ, address_of_nth(step.stack@.len(), 0), key),
        stack_access(call_id, RW::READ, address_of_nth(step.stack@.len(), 1), value),
        transient_access(s, RW::WRITE, key, value, value_prev),
    ]
}

/// The state `s` after the store at `step`.
pub open spec fn with_store(s: StateView, step: GethExecStep) -> StateView {
    StateView {
        transient: s.transient.push((s.frames.last().callee, step.stack@[0], step.stack@[1])),
        ..s
    }
}

/// The value in the slot `key` of `address` after the stores `stores`.
pub fn stored(stores: &Vec<(Address, Word, Word)>, address: Address, key: Word) -> (value: Word)
    ensures
        value == transient_value(stores@, address, key),
{
    let mut i: usize = stores.len();
    proof {
        assert(stores@.take(i as int) =~= stores@);
    }
    while i > 0
        invariant
            i <= stores@.len(),
            transient_value(stores@, address, key) == transient_value(
                stores@.take(i as int),
                address,
                key,
            ),
        decreases i,
    {
        let entry: (Address, Word, Word) = stores[i - 1];
        proof {
            let upto = stores@.take(i as int);
            assert(upto.last() == entry);
            assert(upto.drop_last() =~= stores@.take(i - 1));
        }
        if entry.0 == address && entry.1 == key {
            return entry.2;
        }
        i = i - 1;
    }
    Word::from_u64(0)
}

impl Tload {
    /// Records the load at `steps[0]`. An empty stack is malformed, and then
    /// nothing is recorded.
    pub fn gen_associated_ops(
        state: &mut CircuitInputState,
        exec_step: &mut ExecStep,
        steps: &[GethExecStep],
    ) -> (r: Result<(), Error>)
        requires
            steps@.len() >= 1,
        ensures
            r.is_err() == cannot_read(old(state)@, steps@[0].stack@, 1, 3),
            r.is_err() ==> r == Err::<(), Error>(Error::TraceMalformed) && final(state)@ == old(
                state,
            )@ && final(exec_step)@ == old(exec_step)@,
            r.is_ok() ==> final(state)@ == with_accesses(
                old(state)@,
                tload_accesses(old(state)@, steps@[0]),
            ),
            r.is_ok() ==> final(exec_step)@ == with_references(
                old(exec_step)@,
                old(state)@.ops.len(),
                tload_accesses(old(state)@, steps@[0]),
            ),
    {
        let step = &steps[0];
        if !can_read(state, &step.stack, 1, 3) {
            return Err(Error::TraceMalformed);
        }
        let frame = state.frames[state.frames.len() - 1];
        let key: Word = step.stack.0[0];
        let value: Word = stored(&state.transient, frame.callee, key);
        let top: StackAddress = step.stack.nth_last_filled(0);
        let mut accesses: Vec<Access> = Vec::new();
        accesses.push(
            Access { rw: RW::READ, op: Op::Stack { call_id: frame.call_id, address: top, value: key } },
        );
        accesses.push(
            Access {
                rw: RW::READ,
                op: Op::TransientStorage {
                    tx_id: state.tx_id,
                    address: frame.callee,
                    key,
                    value,
                    value_prev: value,
                },
            },
        );
        accesses.push(
            Access { rw: RW::WRITE, op: Op::Stack { call_id: frame.call_id, address: top, value } },
        );
        proof {
            assert(accesses@ =~= tload_accesses(state@, *step));
        }
        state.push_accesses(exec_step, &accesses);
        Ok(())
    }
}

impl Tstore {
    /// Records the store at `steps[0]`. A stack that lacks a word is
    /// malformed, and then nothing is recorded.
    pub fn gen_associated_ops(
        state: &mut CircuitInputState,
        exec_step: &mut ExecStep,
        steps: &[GethExecStep],
    ) -> (r: Result<(), Error>)
        requires
            steps@.len() >= 1,
        ensures
            r.is_err() == cannot_read(old(state)@, steps@[0].stack@, 2, 3),
            r.is_err() ==> r == Err::<(), Error>(Error::TraceMalformed) && final(state)@ == old(
                state,
            )@ && final(exec_step)@ == old(exec_step)@,
            r.is_ok() ==> final(state)@ == with_store(
                with_accesses(old(state)@, tstore_accesses(old(state)@, steps@[0])),
                steps@[0],
            ),
            r.is_ok() ==> final(exec_step)@ == with_references(
                old(exec_step)@,
                old(state)@.ops.len(),
                tstore_accesses(old(state)@, steps@[0]),
            ),
    {
        let step = &steps[0];
        if !can_read(state, &step.stack, 2, 3) {
            return Err(Error::TraceMalformed);
        }
        let frame = state.frames[state.frames.len() - 1];
        let key: Word = step.stack.0[0];
        let value: Word = step.stack.0[1];
        let value_prev: Word = stored(&state.transient, frame.callee, key);
        let key_at: StackAddress = step.stack.nth_last_filled(0);
        let value_at: StackAddress = step.stack.nth_last_filled(1);
        let mut accesses: Vec<Access> = Vec::new();
        accesses.push(
            Access {
                rw: RW::READ,
                op: Op::Stack { call_id: frame.call_id, address: key_at, value: key },
            },
        );
        accesses.push(
            Access { rw: RW::READ, op: Op::Stack { call_id: frame.call_id, address: value_at, value } },
        );
        accesses.push(
            Access {
                rw: RW::WRITE,
                op: Op::TransientStorage {
                    tx_id: state.tx_id,
                    address: frame.callee,
                    key,
                    value,
                    value_prev,
                },
            },
        );
        proof {
            assert(accesses@ =~= tstore_accesses(state@, *step));
        }
        state.push_accesses(exec_step, &accesses);
        state.transient.push((frame.callee, key, value));
        Ok(())
    }
}

} // verus!
