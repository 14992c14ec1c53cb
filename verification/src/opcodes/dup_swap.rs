//! The instructions that reach below the top of the stack.
use vstd::prelude::*;
use crate::opcodes::{can_read, cannot_read};
use crate::operation::{StackAddress, RW};
use crate::state::{
    lemma_accesses_compose, lemma_references_compose, stack_access, with_accesses,
    with_references, Access, CircuitInputState, ExecStep, StateView,
};
use crate::trace::{address_of_nth, Error, GethExecStep, STACK_LIMIT};
use crate::word::Word;

verus! {

/// The handler of the instructions that copy a word onto the top.
#[derive(Debug, Copy, Clone)]
pub struct Dup;

/// The handler of the instructions that exchange two words.
#[derive(Debug, Copy, Clone)]
pub struct Swap;

/// Whether the copy of the `depth`-th word of the stack of `step` cannot be
/// recorded.
pub open spec fn dup_fails(s: StateView, step: GethExecStep, depth: nat) -> bool {
    depth == 0 || cannot_read(s, step.stack@, depth, 2) || step.stack@.len() >= STACK_LIMIT
}

/// What the copy does: it reads the `depth`-th word from the top, the top
/// being the first, and writes it as the new top.
pub open spec fn dup_accesses(s: StateView, step: GethExecStep, depth: nat) -> Seq<Access> {
    let call_id = s.frames.last().call_id;
    let len = step.stack@.len();
    let word = step.stack@[depth - 1];
    seq![
        stack_access(call_id, RW::READ, address_of_nth(len, (depth - 1) as nat), word),
        stack_access(call_id, RW::WRITE, address_of_nth(len + 1, 0), word),
    ]
}

/// Whether the exchange of the top of the stack of `step` with the word
/// `depth` below it cannot be recorded.
pub open spec fn swap_fails(s: StateView, step: GethExecStep, depth: nat) -> bool {
    depth == 0 || cannot_read(s, step.stack@, depth + 1, 4)
}

/// What the exchange does: it reads the lower word and the top, then writes
/// the top's word to the lower place and the lower word to the top.
pub open spec fn swap_accesses(s: StateView, step: GethExecStep, depth: nat) -> Seq<Access> {
    let call_id = s.frames.last().call_id;
    let len = step.stack@.len();
    let top = step.stack@[0];
    let lower = step.stack@[depth as int];
    seq![
        stack_access(call_id, RW::READ, address_of_nth(len, depth), lower),
        stack_access(call_id, RW::READ, address_of_nth(len, 0), top),
        stack_access(call_id, RW::WRITE, address_of_nth(len, depth), top),
        stack_access(call_id, RW::WRITE, address_of_nth(len, 0), lower),
    ]
}

impl Dup {
    /// Records the copy at `steps[0]` of the `depth`-th word onto the top. A
    /// stack that lacks the word, or is full, is malformed, and then nothing
    /// is recorded.
    pub fn gen_associated_ops(
        state: &mut CircuitInputState,
        exec_step: &mut ExecStep,
        steps: &[GethExecStep],
        depth: usize,
    ) -> (r: Result<(), Error>)
        requires
            steps@.len() >= 1,
        ensures
            r.is_err() == dup_fails(old(state)@, steps@[0], depth as nat),
            r.is_err() ==> r == Err::<(), Error>(Error::TraceMalformed) && final(state)@ == old(
                state,
            )@ && final(exec_step)@ == old(exec_step)@,
            r.is_ok() ==> final(state)@ == with_accesses(
                old(state)@,
                dup_accesses(old(state)@, steps@[0], depth as nat),
            ) && final(exec_step)@ == with_references(
                old(exec_step)@,
                old(state)@.ops.len(),
                dup_accesses(old(state)@, steps@[0], depth as nat),
            ),
    {
        let step = &steps[0];
        if depth == 0 || !can_read(state, &step.stack, depth, 2) || step.stack.len()
            >= STACK_LIMIT {
            return Err(Error::TraceMalformed);
        }
        let ghost s0 = state@;
        let ghost e0 = exec_step@;
        let ghost call_id = s0.frames.last().call_id;
        let word: Word = step.stack.0[depth - 1];
        let from: StackAddress = step.stack.nth_last_filled(depth - 1);
        let to: StackAddress = StackAddress(STACK_LIMIT - step.stack.len() - 1);
        state.push_stack_op(exec_step, RW::READ, from, word);
        state.push_stack_op(exec_step, RW::WRITE, to, word);
        proof {
            let first = seq![stack_access(call_id, RW::READ, from, word)];
            let second = seq![stack_access(call_id, RW::WRITE, to, word)];
            lemma_accesses_compose(s0, first, second);
            lemma_references_compose(e0, s0.ops.len(), first, second);
            assert(first + second =~= dup_accesses(s0, *step, depth as nat));
        }
        Ok(())
    }
}

impl Swap {
    /// Records the exchange at `steps[0]` of the top with the word `depth`
    /// below it. A stack that lacks the word is malformed, and then nothing
    /// is recorded.
    pub fn gen_associated_ops(
        state: &mut CircuitInputState,
        exec_step: &mut ExecStep,
        steps: &[GethExecStep],
        depth: usize,
    ) -> (r: Result<(), Error>)
        requires
            steps@.len() >= 1,
        ensures
            r.is_err() == swap_fails(old(state)@, steps@[0], depth as nat),
            r.is_err() ==> r == Err::<(), Error>(Error::TraceMalformed) && final(state)@ == old(
                state,
            )@ && final(exec_step)@ == old(exec_step)@,
            r.is_ok() ==> final(state)@ == with_accesses(
                old(state)@,
                swap_accesses(old(state)@, steps@[0], depth as nat),
            ) && final(exec_step)@ == with_references(
                old(exec_step)@,
                old(state)@.ops.len(),
                swap_accesses(old(state)@, steps@[0], depth as nat),
            ),
    {
        let step = &steps[0];
        if depth == 0 || depth == usize::MAX || !can_read(state, &step.stack, depth + 1, 4) {
            return Err(Error::TraceMalformed);
        }
        let ghost s0 = state@;
        let ghost e0 = exec_step@;
        let ghost call_id = s0.frames.last().call_id;
        let top: Word = step.stack.0[0];
        let lower: Word = step.stack.0[depth];
        let top_at: StackAddress = step.stack.nth_last_filled(0);
        let lower_at: StackAddress = step.stack.nth_last_filled(depth);
        state.push_stack_op(exec_step, RW::READ, lower_at, lower);
        state.push_stack_op(exec_step, RW::READ, top_at, top);
        proof {
            let a = seq![stack_access(call_id, RW::READ, lower_at, lower)];
            let b = seq![stack_access(call_id, RW::READ, top_at, top)];
            lemma_accesses_compose(s0, a, b);
            lemma_references_compose(e0, s0.ops.len(), a, b);
        }
        state.push_stack_op(exec_step, RW::WRITE, lower_at, top);
        proof {
            let ab = seq![stack_access(call_id, RW::READ, lower_at, lower)] + seq![
                stack_access(call_id, RW::READ, top_at, top),
            ];
            let c = seq![stack_access(call_id, RW::WRITE, lower_at, top)];
            lemma_accesses_compose(s0, ab, c);
            lemma_references_compose(e0, s0.ops.len(), ab, c);
        }
        state.push_stack_op(exec_step, RW::WRITE, top_at, lower);
        proof {
            let abc = seq![stack_access(call_id, RW::READ, lower_at, lower)] + seq![
                stack_access(call_id, RW::READ, top_at, top),
            ] + seq![stack_access(call_id, RW::WRITE, lower_at, top)];
            let d = seq![stack_access(call_id, RW::WRITE, top_at, lower)];
            lemma_accesses_compose(s0, abc, d);
            lemma_references_compose(e0, s0.ops.len(), abc, d);
            assert(abc + d =~= swap_accesses(s0, *step, depth as nat));
        }
        Ok(())
    }
}

} // verus!
