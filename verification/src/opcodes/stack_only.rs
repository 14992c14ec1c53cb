//! The instructions that touch the stack alone.
use vstd::prelude::*;
use crate::opcodes::{
    can_read, cannot_read, find_resume, push_stack_reads, push_stack_writes, resumes_at,
    stack_reads, stack_writes,
};
use crate::state::{
    lemma_accesses_compose, lemma_references_compose, with_accesses, with_references, Access,
    CircuitInputState, ExecStep, StateView,
};
use crate::trace::{Error, GethExecStep, STACK_LIMIT};
use crate::word::Word;

verus! {

/// The handler of the instructions that take their operands from the top of
/// the stack, leave their results there and touch nothing else.
#[derive(Debug, Copy, Clone)]
pub struct StackOnly;

/// Whether the results of the instruction at `steps[0]`, which takes `pops`
/// words and leaves `pushes`, cannot be written: the stack would grow beyond
/// the machine's, or no later record of the frame shows the results.
pub open spec fn cannot_write(steps: Seq<GethExecStep>, pops: nat, pushes: nat) -> bool {
    ||| steps[0].stack@.len() - pops + pushes > STACK_LIMIT
    ||| pushes > 0 && match resumes_at(steps) {
        Some(j) => steps[j].stack@.len() < pushes,
        None => true,
    }
}

/// The words that the instruction at `steps[0]` left on the stack, the top
/// first.
pub open spec fn results(steps: Seq<GethExecStep>, pushes: nat) -> Seq<Word> {
    if pushes == 0 {
        Seq::empty()
    } else {
        steps[resumes_at(steps).unwrap()].stack@.take(pushes as int)
    }
}

/// Whether the instruction at `steps[0]` cannot be recorded.
pub open spec fn stack_only_fails(
    s: StateView,
    steps: Seq<GethExecStep>,
    pops: nat,
    pushes: nat,
) -> bool {
    cannot_read(s, steps[0].stack@, pops, pops + pushes) || cannot_write(steps, pops, pushes)
}

/// What the instruction at `steps[0]` does: it reads its `pops` operands,
/// from the top of the stack down, and then writes its `pushes` results.
pub open spec fn stack_only_accesses(
    s: StateView,
    steps: Seq<GethExecStep>,
    pops: nat,
    pushes: nat,
) -> Seq<Access> {
    stack_reads(s.frames.last().call_id, steps[0].stack@, pops) + stack_writes(
        s.frames.last().call_id,
        (steps[0].stack@.len() - pops + pushes) as nat,
        results(steps, pushes),
    )
}

impl StackOnly {
    /// Records the instruction at `steps[0]`, which takes `pops` words from
    /// the stack and leaves `pushes` words on it. The operands are read from
    /// the stack of `steps[0]`; the results are those on the stack of the
    /// next record of the same frame. Where the trace lacks any of them, or
    /// the stack would outgrow the machine's, the trace is malformed and
    /// nothing is recorded.
    pub fn gen_associated_ops(
        state: &mut CircuitInputState,
        exec_step: &mut ExecStep,
        steps: &[GethExecStep],
        pops: usize,
        pushes: usize,
    ) -> (r: Result<(), Error>)
        requires
            steps@.len() >= 1,
        ensures
            r.is_err() == stack_only_fails(old(state)@, steps@, pops as nat, pushes as nat),
            r.is_err() ==> r == Err::<(), Error>(Error::TraceMalformed) && final(state)@ == old(
                state,
            )@ && final(exec_step)@ == old(exec_step)@,
            r.is_ok() ==> final(state)@ == with_accesses(
                old(state)@,
                stack_only_accesses(old(state)@, steps@, pops as nat, pushes as nat),
            ) && final(exec_step)@ == with_references(
                old(exec_step)@,
                old(state)@.ops.len(),
                stack_only_accesses(old(state)@, steps@, pops as nat, pushes as nat),
            ),
    {
        let step = &steps[0];
        if pushes > usize::MAX - pops {
            return Err(Error::TraceMalformed);
        }
        if !can_read(state, &step.stack, pops, pops + pushes) {
            return Err(Error::TraceMalformed);
        }
        let len_after_pops: usize = step.stack.len() - pops;
        if pushes > STACK_LIMIT - len_after_pops {
            return Err(Error::TraceMalformed);
        }
        let len_after: usize = len_after_pops + pushes;
        let ghost s0 = state@;
        let ghost e0 = exec_step@;
        let ghost call_id = s0.frames.last().call_id;
        let ghost reads = stack_reads(call_id, step.stack@, pops as nat);
        if pushes == 0 {
            push_stack_reads(state, exec_step, &step.stack, pops);
            proof {
                let writes = stack_writes(call_id, len_after as nat, Seq::<Word>::empty());
                assert(writes =~= Seq::<Access>::empty());
                assert(reads + writes =~= reads);
            }
            return Ok(());
        }
        let at: usize = match find_resume(steps) {
            Some(j) => j,
            None => {
                return Err(Error::TraceMalformed);
            },
        };
        let after = &steps[at].stack;
        if after.len() < pushes {
            return Err(Error::TraceMalformed);
        }
        push_stack_reads(state, exec_step, &step.stack, pops);
        push_stack_writes(state, exec_step, len_after, after, pushes);
        proof {
            let writes = stack_writes(call_id, len_after as nat, after@.take(pushes as int));
            lemma_accesses_compose(s0, reads, writes);
            lemma_references_compose(e0, s0.ops.len(), reads, writes);
        }
        Ok(())
    }
}

} // verus!
