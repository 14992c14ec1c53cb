//! The instructions that end their frame.
use vstd::prelude::*;
use crate::opcodes::memory::{memory_reads, read_range};
use crate::opcodes::{
    can_read, cannot_read, push_stack_reads, range_in, range_missing, read_accesses, stack_reads,
};
use crate::state::{
    with_accesses, with_references, Access, CircuitInputState, ExecStep, StateView,
};
use crate::trace::{Error, GethExecStep};

verus! {

/// The handler of the instructions that end their frame.
#[derive(Debug, Copy, Clone)]
pub struct Halt;

/// The state `s` after the frame at work has ended.
pub open spec fn without_frame(s: StateView) -> StateView {
    StateView { frames: s.frames.drop_last(), ..s }
}

/// What an instruction that ends its frame reads: its `pops` operands.
pub open spec fn halt_accesses(s: StateView, step: GethExecStep, pops: nat) -> Seq<Access> {
    stack_reads(s.frames.last().call_id, step.stack@, pops)
}

impl Halt {
    /// Records the instruction at `steps[0]`, which takes `pops` words from
    /// the stack and ends its frame: the words are read, and the frame is
    /// closed. A stack that lacks a word is malformed, and then nothing is
    /// recorded and the frame stays.
    pub fn gen_associated_ops(
        state: &mut CircuitInputState,
        exec_step: &mut ExecStep,
        steps: &[GethExecStep],
        pops: usize,
    ) -> (r: Result<(), Error>)
        requires
            steps@.len() >= 1,
        ensures
            r.is_err() == cannot_read(old(state)@, steps@[0].stack@, pops as nat, pops as nat),
            r.is_err() ==> r == Err::<(), Error>(Error::TraceMalformed) && final(state)@ == old(
                state,
            )@ && final(exec_step)@ == old(exec_step)@,
            r.is_ok() ==> final(state)@ == without_frame(
                with_accesses(old(state)@, halt_accesses(old(state)@, steps@[0], pops as nat)),
            ) && final(exec_step)@ == with_references(
                old(exec_step)@,
                old(state)@.ops.len(),
                halt_accesses(old(state)@, steps@[0], pops as nat),
            ),
    {
        let step = &steps[0];
        if !can_read(state, &step.stack, pops, pops) {
            return Err(Error::TraceMalformed);
        }
        push_stack_reads(state, exec_step, &step.stack, pops);
        state.frames.pop();
        Ok(())
    }
}

/// The handler of the instructions that end their frame and hand a range of
/// memory back to the caller.
#[derive(Debug, Copy, Clone)]
pub struct Return;

/// Whether the return at `step` cannot be recorded: the place and the length
/// of the range cannot be read from the stack, or the snapshot of memory
/// lacks a byte of the range.
pub open spec fn return_fails(s: StateView, step: GethExecStep) -> bool {
    cannot_read(s, step.stack@, 2, 2 + step.stack@[1].value()) || range_missing(
        step.stack@[0],
        step.stack@[1],
        step.memory@.len(),
    )
}

/// What the return does: it reads the place and the length of the range from
/// the stack and reads the bytes of the range.
pub open spec fn return_accesses(s: StateView, step: GethExecStep) -> Seq<Access> {
    let call_id = s.frames.last().call_id;
    stack_reads(call_id, step.stack@, 2) + memory_reads(
        call_id,
        step.memory@,
        step.stack@[0].value(),
        step.stack@[1].value(),
    )
}

impl Return {
    /// Records the return at `steps[0]` and closes the frame. Where the trace
    /// lacks a word or a byte, it is malformed: nothing is recorded and the
    /// frame stays.
    pub fn gen_associated_ops(
        state: &mut CircuitInputState,
        exec_step: &mut ExecStep,
        steps: &[GethExecStep],
    ) -> (r: Result<(), Error>)
        requires
            steps@.len() >= 1,
        ensures
            r.is_err() == return_fails(old(state)@, steps@[0]),
            r.is_err() ==> r == Err::<(), Error>(Error::TraceMalformed) && final(state)@ == old(
                state,
            )@ && final(exec_step)@ == old(exec_step)@,
            r.is_ok() ==> final(state)@ == without_frame(
                with_accesses(old(state)@, return_accesses(old(state)@, steps@[0])),
            ),
            r.is_ok() ==> final(exec_step)@ == with_references(
                old(exec_step)@,
                old(state)@.ops.len(),
                return_accesses(old(state)@, steps@[0]),
            ),
    {
        let step = &steps[0];
        if !can_read(state, &step.stack, 2, 0) {
            return Err(Error::TraceMalformed);
        }
        let (offset, size) = match range_in(step.stack.0[0], step.stack.0[1], step.memory.len()) {
            Some(range) => range,
            None => {
                return Err(Error::TraceMalformed);
            },
        };
        if size > usize::MAX - 2 || !state.room_for(2 + size) {
            return Err(Error::TraceMalformed);
        }
        let call_id: usize = state.frames[state.frames.len() - 1].call_id;
        let mut accesses: Vec<Access> = read_accesses(call_id, &step.stack, 2);
        let mut bytes: Vec<Access> = read_range(call_id, &step.memory, offset, size);
        accesses.append(&mut bytes);
        proof {
            if size == 0 {
                assert(memory_reads(call_id, step.memory@, 0, 0) =~= memory_reads(
                    call_id,
                    step.memory@,
                    step.stack@[0].value(),
                    0,
                ));
            }
            assert(accesses@ =~= return_accesses(state@, *step));
        }
        state.push_accesses(exec_step, &accesses);
        state.frames.pop();
        Ok(())
    }
}

} // verus!
