//! The instructions that make a log entry.
use vstd::prelude::*;
use crate::opcodes::{can_read, cannot_read, range_in, range_missing, stack_reads};
use crate::operation::{Op, StackAddress, TxLogFieldTag, RW};
use crate::state::{
    has_room, with_accesses, with_references, Access, CircuitInputState, ExecStep, StateView,
};
use crate::trace::{Error, GethExecStep};
use crate::util::{build_tx_log_address, tx_log_key};
use crate::word::{address_of_value, word_of, Address, Word};

verus! {

/// The handler of the instructions that make a log entry.
#[derive(Debug, Copy, Clone)]
pub struct Log;

/// The write of `value` to the place `index` of the field `field` of the log
/// entry `log_id` of the transaction `tx_id`.
pub open spec fn log_access(
    tx_id: usize,
    log_id: u64,
    field: TxLogFieldTag,
    index: u64,
    value: Word,
) -> Access {
    Access {
        rw: RW::WRITE,
        op: Op::TxLog { tx_id, address: address_of_value(tx_log_key(index, field, log_id)), value },
    }
}

/// Whether the log entry with `topics` topics at `step` cannot be recorded:
/// an instruction has at most four topics; the place and the length of the
/// data and the topics must be on the stack; the snapshot of memory must hold
/// the data, if there is any; and the entry and its operations must have
/// numbers left.
pub open spec fn log_fails(s: StateView, step: GethExecStep, topics: nat) -> bool {
    ||| topics > 4
    ||| cannot_read(s, step.stack@, 2 + topics, 0)
    ||| s.logs == u64::MAX
    ||| range_missing(step.stack@[0], step.stack@[1], step.memory@.len())
    ||| !has_room(s.ops.len(), 3 + 2 * topics + step.stack@[1].value())
}

/// The writes of the topics of the log entry at `step`.
pub open spec fn topic_accesses(s: StateView, step: GethExecStep, topics: nat) -> Seq<Access> {
    Seq::new(
        topics,
        |i: int|
            log_access(
                s.tx_id,
                (s.logs + 1) as u64,
                TxLogFieldTag::Topic,
                i as u64,
                step.stack@[2 + i],
            ),
    )
}

/// The writes of the first `count` bytes of the data of the log entry at
/// `step`.
pub open spec fn data_accesses(s: StateView, step: GethExecStep, count: nat) -> Seq<Access> {
    Seq::new(
        count,
        |k: int|
            log_access(
                s.tx_id,
                (s.logs + 1) as u64,
                TxLogFieldTag::Data,
                k as u64,
                word_of(step.memory@[step.stack@[0].value() + k] as u64),
            ),
    )
}

/// What the instruction does: it reads the place and the length of the data
/// and the topics from the stack; then it writes the entry, which gets the
/// next number of its transaction: the account that logs, the topics and the
/// bytes of the data, each in its order.
pub open spec fn log_accesses(s: StateView, step: GethExecStep, topics: nat) -> Seq<Access> {
    stack_reads(s.frames.last().call_id, step.stack@, 2 + topics) + seq![
        log_access(
            s.tx_id,
            (s.logs + 1) as u64,
            TxLogFieldTag::Address,
            0,
            s.frames.last().callee.as_word(),
        ),
    ] + topic_accesses(s, step, topics) + data_accesses(s, step, step.stack@[1].value())
}

/// The state `s` after one more log entry.
pub open spec fn with_log(s: StateView) -> StateView {
    StateView { logs: (s.logs + 1) as u64, ..s }
}

impl Log {
    /// Records the log entry with `topics` topics at `steps[0]`. Where the
    /// trace lacks a word or a byte of it, the trace is malformed and nothing
    /// is recorded.
    pub fn gen_associated_ops(
        state: &mut CircuitInputState,
        exec_step: &mut ExecStep,
        steps: &[GethExecStep],
        topics: usize,
    ) -> (r: Result<(), Error>)
        requires
            steps@.len() >= 1,
        ensures
            r.is_err() == log_fails(old(state)@, steps@[0], topics as nat),
            r.is_err() ==> r == Err::<(), Error>(Error::TraceMalformed) && final(state)@ == old(
                state,
            )@ && final(exec_step)@ == old(exec_step)@,
            r.is_ok() ==> final(state)@ == with_log(
                with_accesses(old(state)@, log_accesses(old(state)@, steps@[0], topics as nat)),
            ),
            r.is_ok() ==> final(exec_step)@ == with_references(
                old(exec_step)@,
                old(state)@.ops.len(),
                log_accesses(old(state)@, steps@[0], topics as nat),
            ),
    {
        let step = &steps[0];
        if topics > 4 || !can_read(state, &step.stack, 2 + topics, 0) || state.logs == u64::MAX {
            return Err(Error::TraceMalformed);
        }
        let memory_len: usize = step.memory.len();
        let (offset, size) = match range_in(step.stack.0[0], step.stack.0[1], memory_len) {
            Some(range) => range,
            None => {
                return Err(Error::TraceMalformed);
            },
        };
        if size > usize::MAX - (3 + 2 * topics) || !state.room_for(3 + 2 * topics + size) {
            return Err(Error::TraceMalformed);
        }
        let ghost s0 = state@;
        let frame = state.frames[state.frames.len() - 1];
        let tx_id: usize = state.tx_id;
        let log_id: u64 = state.logs + 1;
        let mut accesses: Vec<Access> = Vec::new();
        let mut i: usize = 0;
        while i < 2 + topics
            invariant
                i <= 2 + topics <= 6,
                2 + topics <= step.stack@.len() <= crate::trace::STACK_LIMIT,
                accesses@ == stack_reads(frame.call_id, step.stack@, i as nat),
            decreases 2 + topics - i,
        {
            let address: StackAddress = step.stack.nth_last_filled(i);
            accesses.push(
                Access {
                    rw: RW::READ,
                    op: Op::Stack { call_id: frame.call_id, address, value: step.stack.0[i] },
                },
            );
            proof {
                assert(accesses@ =~= stack_reads(frame.call_id, step.stack@, (i + 1) as nat));
            }
            i = i + 1;
        }
        accesses.push(
            Access {
                rw: RW::WRITE,
                op: Op::TxLog {
                    tx_id,
                    address: build_tx_log_address(0, TxLogFieldTag::Address, log_id),
                    value: frame.callee.to_word(),
                },
            },
        );
        let ghost head = accesses@;
        let mut t: usize = 0;
        proof {
            assert(accesses@ =~= head + topic_accesses(s0, *step, 0));
        }
        while t < topics
            invariant
                t <= topics <= 4,
                2 + topics <= step.stack@.len(),
                s0.tx_id == tx_id,
                s0.logs + 1 == log_id,
                accesses@ == head + topic_accesses(s0, *step, t as nat),
            decreases topics - t,
        {
            accesses.push(
                Access {
                    rw: RW::WRITE,
                    op: Op::TxLog {
                        tx_id,
                        address: build_tx_log_address(t as u64, TxLogFieldTag::Topic, log_id),
                        value: step.stack.0[2 + t],
                    },
                },
            );
            proof {
                assert(accesses@ =~= head + topic_accesses(s0, *step, (t + 1) as nat));
            }
            t = t + 1;
        }
        let ghost middle = accesses@;
        let mut k: usize = 0;
        proof {
            assert(accesses@ =~= middle + data_accesses(s0, *step, 0));
        }
        while k < size
            invariant
                k <= size,
                memory_len == step.memory@.len(),
                offset + size <= memory_len,
                step.stack@.len() >= 2,
                size > 0 ==> offset == step.stack@[0].value(),
                s0.tx_id == tx_id,
                s0.logs + 1 == log_id,
                accesses@ == middle + data_accesses(s0, *step, k as nat),
            decreases size - k,
        {
            accesses.push(
                Access {
                    rw: RW::WRITE,
                    op: Op::TxLog {
                        tx_id,
                        address: build_tx_log_address(k as u64, TxLogFieldTag::Data, log_id),
                        value: Word::from_u64(step.memory[offset + k] as u64),
                    },
                },
            );
            proof {
                assert(accesses@ =~= middle + data_accesses(s0, *step, (k + 1) as nat));
            }
            k = k + 1;
        }
        proof {
            assert(accesses@ =~= log_accesses(s0, *step, topics as nat));
        }
        state.push_accesses(exec_step, &accesses);
        state.logs = log_id;
        Ok(())
    }
}

} // verus!
