//! The conditional jump.
use vstd::prelude::*;
use crate::opcodes::{can_read, cannot_read, stack_reads};
use crate::operation::RW;
use crate::state::{
    lemma_accesses_compose, lemma_references_compose, stack_access, with_accesses,
    with_references, Access, CircuitInputState, ExecStep, StateView,
};
use crate::trace::{Error, GethExecStep};

verus! {

/// The handler of the conditional jump.
#[derive(Debug, Copy, Clone)]
pub struct Jumpi;

/// What the conditional jump reads: the destination, on top of the stack, and
/// the condition below it.
pub open spec fn jumpi_accesses(s: StateView, step: GethExecStep) -> Seq<Access> {
    stack_reads(s.frames.last().call_id, step.stack@, 2)
}

impl Jumpi {
    /// Records the two reads of the jump at `steps[0]`. The stack is read as
    /// it was before the jump took its two words. Whether the destination is
    /// one that the code allows is not looked at. A stack with fewer than two
    /// words is malformed, and then nothing is recorded.
    pub fn gen_associated_ops(
        state: &mut CircuitInputState,
        exec_step: &mut ExecStep,
        steps: &[GethExecStep],
    ) -> (r: Result<(), Error>)
        requires
            steps@.len() >= 1,
        ensures
            r.is_err() == cannot_read(old(state)@, steps@[0].stack@, 2, 2),
            r.is_err() ==> r == Err::<(), Error>(Error::TraceMalformed) && final(state)@ == old(
                state,
            )@ && final(exec_step)@ == old(exec_step)@,
            r.is_ok() ==> final(state)@ == with_accesses(
                old(state)@,
                jumpi_accesses(old(state)@, steps@[0]),
            ) && final(exec_step)@ == with_references(
                old(exec_step)@,
                old(state)@.ops.len(),
                jumpi_accesses(old(state)@, steps@[0]),
            ),
    {
        let step = &steps[0];
        if !can_read(state, &step.stack, 2, 2) {
            return Err(Error::TraceMalformed);
        }
        let ghost s0 = state@;
        let ghost e0 = exec_step@;
        let ghost call_id = s0.frames.last().call_id;
        let destination = match step.stack.nth_last(0) {
            Ok(w) => w,
            Err(e) => {
                return Err(e);
            },
        };
        let condition = match step.stack.nth_last(1) {
            Ok(w) => w,
            Err(e) => {
                return Err(e);
            },
        };
        // `JUMPI` needs two read operations
        let top = step.stack.nth_last_filled(0);
        let below = step.stack.nth_last_filled(1);
        state.push_stack_op(exec_step, RW::READ, top, destination);
        state.push_stack_op(exec_step, RW::READ, below, condition);
        proof {
            let first = seq![stack_access(call_id, RW::READ, top, destination)];
            let second = seq![stack_access(call_id, RW::READ, below, condition)];
            lemma_accesses_compose(s0, first, second);
            lemma_references_compose(e0, s0.ops.len(), first, second);
            assert(first + second =~= jumpi_accesses(s0, *step));
        }
        Ok(())
    }
}

} // verus!
