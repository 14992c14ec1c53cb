//! The instructions that load from and store to an account's storage.
use vstd::prelude::*;
use crate::opcodes::{can_read, cannot_read};
use crate::operation::{Op, StackAddress, RW};
use crate::state::{
    lemma_accesses_compose, lemma_references_compose, stack_access, with_accesses,
    with_references, Access, CircuitInputState, ExecStep, StateView,
};
use crate::trace::{address_of_nth, storage_lookup, Error, GethExecStep};
use crate::word::{Address, Word};

verus! {

/// The handler of the load from storage.
#[derive(Debug, Copy, Clone)]
pub struct Sload;

/// The handler of the store to storage.
#[derive(Debug, Copy, Clone)]
pub struct Sstore;

/// Whether the transaction has touched the slot `key` of `address`.
pub open spec fn is_warm(accessed: Seq<(Address, Word)>, address: Address, key: Word) -> bool {
    accessed.contains((address, key))
}

/// The slots that the transaction has touched once it has touched `key` of
/// `address` too.
pub open spec fn touched(accessed: Seq<(Address, Word)>, address: Address, key: Word) -> Seq<
    (Address, Word),
> {
    if is_warm(accessed, address, key) {
        accessed
    } else {
        accessed.push((address, key))
    }
}

/// The state `s` once the transaction has touched `key` of the account of the
/// frame at work.
pub open spec fn with_touched(s: StateView, key: Word) -> StateView {
    StateView { accessed: touched(s.accessed, s.frames.last().callee, key), ..s }
}

/// The mark that the slot `key` of `address` is touched: it says whether the
/// transaction had touched the slot before.
pub open spec fn warm_mark(s: StateView, key: Word) -> Access {
    Access {
        rw: RW::WRITE,
        op: Op::TxAccessListAccount {
            tx_id: s.tx_id,
            address: s.frames.last().callee,
            slot: key,
            is_warm: true,
            is_warm_prev: is_warm(s.accessed, s.frames.last().callee, key),
        },
    }
}

/// The access to the slot `key` of the account of the frame at work.
pub open spec fn storage_access(s: StateView, rw: RW, key: Word, value: Word, value_prev: Word) -> Access {
    Access {
        rw,
        op: Op::AccountStorage {
            tx_id: s.tx_id,
            address: s.frames.last().callee,
            key,
            value,
            value_prev,
        },
    }
}

/// Whether the load at `step` cannot be recorded: the key cannot be read, or
/// the snapshot of storage lacks the slot.
pub open spec fn sload_fails(s: StateView, step: GethExecStep) -> bool {
    cannot_read(s, step.stack@, 1, 4) || storage_lookup(step.storage@, step.stack@[0]).is_none()
}

/// What the load does: it reads the key from the stack, marks the slot as
/// touched, reads the slot and writes its value where the key was.
pub open spec fn sload_accesses(s: StateView, step: GethExecStep) -> Seq<Access> {
    let call_id = s.frames.last().call_id;
    let key = step.stack@[0];
    let value = storage_lookup(step.storage@, key).unwrap();
    let top = address_of_nth(step.stack@.len(), 0);
    seq![
        stack_access(call_id, RW::READ, top, key),
        warm_mark(s, key),
        storage_access(s, RW::READ, key, value, value),
        stack_access(call_id, RW::WRITE, top, value),
    ]
}

/// Whether the store at `step` cannot be recorded: the key and the value
/// cannot be read, or the snapshot of storage lacks the slot.
pub open spec fn sstore_fails(s: StateView, step: GethExecStep) -> bool {
    cannot_read(s, step.stack@, 2, 4) || storage_lookup(step.storage@, step.stack@[0]).is_none()
}

/// What the store does: it reads the key and the value from the stack, marks
/// the slot as touched and writes the slot, which held what the snapshot
/// shows.
pub open spec fn sstore_accesses(s: StateView, step: GethExecStep) -> Seq<Access> {
    let call_id = s.frames.last().call_id;
    let key = step.stack@[0];
    let value = step.stack@[1];
    let value_prev = storage_lookup(step.storage@, key).unwrap();
    seq![
        stack_access(call_id, RW::READ, address_of_nth(step.stack@.len(), 0), key),
        stack_access(call_id, RW::READ, address_of_nth(step.stack@.len(), 1), value),
        warm_mark(s, key),
        storage_access(s, RW::WRITE, key, value, value_prev),
    ]
}

/// Whether the transaction has touched the slot `key` of `address`.
pub fn seen(accessed: &Vec<(Address, Word)>, address: Address, key: Word) -> (r: bool)
    ensures
        r == is_warm(accessed@, address, key),
{
    let n: usize = accessed.len();
    let mut i: usize = 0;
    while i < n
        invariant
            n == accessed@.len(),
            i <= n,
            forall|k: int| 0 <= k < i ==> accessed@[k] != (address, key),
        decreases n - i,
    {
        let pair: (Address, Word) = accessed[i];
        if pair.0 == address && pair.1 == key {
            return true;
        }
        i = i + 1;
    }
    false
}

/// Marks the slot `key` of the account of the frame at work as touched.
fn push_warm_mark(state: &mut CircuitInputState, exec_step: &mut ExecStep, key: Word)
    requires
        old(state)@.frames.len() > 0,
        crate::state::has_room(old(state)@.ops.len(), 1),
    ensures
        final(state)@ == with_touched(
            with_accesses(old(state)@, seq![warm_mark(old(state)@, key)]),
            key,
        ),
        final(exec_step)@ == with_references(
            old(exec_step)@,
            old(state)@.ops.len(),
            seq![warm_mark(old(state)@, key)],
        ),
{
    let address: Address = state.frames[state.frames.len() - 1].callee;
    let was_warm: bool = seen(&state.accessed, address, key);
    state.push_op(
        exec_step,
        RW::WRITE,
        Op::TxAccessListAccount {
            tx_id: state.tx_id,
            address,
            slot: key,
            is_warm: true,
            is_warm_prev: was_warm,
        },
    );
    if !was_warm {
        state.accessed.push((address, key));
    }
}

impl Sload {
    /// Records the load at `steps[0]`. The mark that the slot is touched
    /// comes before the read of the slot. Where the stack is empty or the
    /// snapshot of storage lacks the slot, the trace is malformed and nothing
    /// is recorded.
    pub fn gen_associated_ops(
        state: &mut CircuitInputState,
        exec_step: &mut ExecStep,
        steps: &[GethExecStep],
    ) -> (r: Result<(), Error>)
        requires
            steps@.len() >= 1,
        ensures
            r.is_err() == sload_fails(old(state)@, steps@[0]),
            r.is_err() ==> r == Err::<(), Error>(Error::TraceMalformed) && final(state)@ == old(
                state,
            )@ && final(exec_step)@ == old(exec_step)@,
            r.is_ok() ==> final(state)@ == with_touched(
                with_accesses(old(state)@, sload_accesses(old(state)@, steps@[0])),
                steps@[0].stack@[0],
            ) && final(exec_step)@ == with_references(
                old(exec_step)@,
                old(state)@.ops.len(),
                sload_accesses(old(state)@, steps@[0]),
            ),
    {
        let step = &steps[0];
        if !can_read(state, &step.stack, 1, 4) {
            return Err(Error::TraceMalformed);
        }
        let key: Word = step.stack.0[0];
        let value: Word = match step.storage.get(key) {
            Some(v) => v,
            None => {
                return Err(Error::TraceMalformed);
            },
        };
        let ghost s0 = state@;
        let ghost e0 = exec_step@;
        let ghost call_id = s0.frames.last().call_id;
        let top: StackAddress = step.stack.nth_last_filled(0);
        let frame = state.frames[state.frames.len() - 1];
        let ghost a = seq![stack_access(call_id, RW::READ, top, key)];
        let ghost b = seq![warm_mark(s0, key)];
        let ghost c = seq![storage_access(s0, RW::READ, key, value, value)];
        let ghost d = seq![stack_access(call_id, RW::WRITE, top, value)];
        state.push_stack_op(exec_step, RW::READ, top, key);
        push_warm_mark(state, exec_step, key);
        proof {
            lemma_accesses_compose(s0, a, b);
            lemma_references_compose(e0, s0.ops.len(), a, b);
        }
        state.push_op(
            exec_step,
            RW::READ,
            Op::AccountStorage {
                tx_id: state.tx_id,
                address: frame.callee,
                key,
                value,
                value_prev: value,
            },
        );
        proof {
            lemma_accesses_compose(s0, a + b, c);
            lemma_references_compose(e0, s0.ops.len(), a + b, c);
        }
        state.push_stack_op(exec_step, RW::WRITE, top, value);
        proof {
            lemma_accesses_compose(s0, a + b + c, d);
            lemma_references_compose(e0, s0.ops.len(), a + b + c, d);
            assert(a + b + c + d =~= sload_accesses(s0, *step));
        }
        Ok(())
    }
}

impl Sstore {
    /// Records the store at `steps[0]`. The mark that the slot is touched
    /// comes before the write of the slot. Where the stack lacks a word or
    /// the snapshot of storage lacks the slot, the trace is malformed and
    /// nothing is recorded.
    pub fn gen_associated_ops(
        state: &mut CircuitInputState,
        exec_step: &mut ExecStep,
        steps: &[GethExecStep],
    ) -> (r: Result<(), Error>)
        requires
            steps@.len() >= 1,
        ensures
            r.is_err() == sstore_fails(old(state)@, steps@[0]),
            r.is_err() ==> r == Err::<(), Error>(Error::TraceMalformed) && final(state)@ == old(
                state,
            )@ && final(exec_step)@ == old(exec_step)@,
            r.is_ok() ==> final(state)@ == with_touched(
                with_accesses(old(state)@, sstore_accesses(old(state)@, steps@[0])),
                steps@[0].stack@[0],
            ) && final(exec_step)@ == with_references(
                old(exec_step)@,
                old(state)@.ops.len(),
                sstore_accesses(old(state)@, steps@[0]),
            ),
    {
        let step = &steps[0];
        if !can_read(state, &step.stack, 2, 4) {
            return Err(Error::TraceMalformed);
        }
        let key: Word = step.stack.0[0];
        let value: Word = step.stack.0[1];
        let value_prev: Word = match step.storage.get(key) {
            Some(v) => v,
            None => {
                return Err(Error::TraceMalformed);
            },
        };
        let ghost s0 = state@;
        let ghost e0 = exec_step@;
        let ghost call_id = s0.frames.last().call_id;
        let key_at: StackAddress = step.stack.nth_last_filled(0);
        let value_at: StackAddress = step.stack.nth_last_filled(1);
        let frame = state.frames[state.frames.len() - 1];
        let ghost a = seq![stack_access(call_id, RW::READ, key_at, key)];
        let ghost b = seq![stack_access(call_id, RW::READ, value_at, value)];
        let ghost c = seq![warm_mark(s0, key)];
        let ghost d = seq![storage_access(s0, RW::WRITE, key, value, value_prev)];
        state.push_stack_op(exec_step, RW::READ, key_at, key);
        state.push_stack_op(exec_step, RW::READ, value_at, value);
        proof {
            lemma_accesses_compose(s0, a, b);
            lemma_references_compose(e0, s0.ops.len(), a, b);
        }
        push_warm_mark(state, exec_step, key);
        proof {
            lemma_accesses_compose(s0, a + b, c);
            lemma_references_compose(e0, s0.ops.len(), a + b, c);
        }
        state.push_op(
            exec_step,
            RW::WRITE,
            Op::AccountStorage { tx_id: state.tx_id, address: frame.callee, key, value, value_prev },
        );
        proof {
            lemma_accesses_compose(s0, a + b + c, d);
            lemma_references_compose(e0, s0.ops.len(), a + b + c, d);
            assert(a + b + c + d =~= sstore_accesses(s0, *step));
        }
        Ok(())
    }
}

} // verus!
