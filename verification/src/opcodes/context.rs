//! The instructions that read a field of an account or of the frame at work.
use vstd::prelude::*;
use crate::opcodes::stack_only::{cannot_write, results};
use crate::opcodes::{
    can_read, cannot_read, find_resume, read_accesses, stack_reads, stack_writes,
};
use crate::operation::{AccountField, CallContextField, Op, StackAddress, RW};
use crate::state::{
    with_accesses, with_references, Access, CallContext, CircuitInputState, ExecStep, StateView,
};
use crate::trace::{Error, GethExecStep, STACK_LIMIT};
use crate::word::{word_of, word_of_flag, Address, Word};

verus! {

/// The handler of the instructions that read a field of an account.
#[derive(Debug, Copy, Clone)]
pub struct AccountRead;

/// The handler of the instructions that read a field of the frame at work.
#[derive(Debug, Copy, Clone)]
pub struct ContextRead;

/// Whether the read of an account at `steps[0]`, which takes `pops` words,
/// cannot be recorded: the instruction takes the account from the stack or
/// reads the account of the frame, so it takes at most one word; the word
/// must be there; and a later record of the frame must show the result.
pub open spec fn account_read_fails(s: StateView, steps: Seq<GethExecStep>, pops: nat) -> bool {
    pops > 1 || cannot_read(s, steps[0].stack@, pops, pops + 2) || cannot_write(steps, pops, 1)
}

/// The account that the instruction at `steps[0]` reads: the one whose
/// address is on top of the stack, where it takes a word, and that of the
/// frame at work, where it takes none.
pub open spec fn account_read(s: StateView, steps: Seq<GethExecStep>, pops: nat) -> Address {
    if pops == 0 {
        s.frames.last().callee
    } else {
        steps[0].stack@[0].low_address()
    }
}

/// What the read of the field `field` of an account does: it reads the
/// account's address from the stack, where it takes one; it reads the field,
/// whose value is the result that the next record of the frame shows; and it
/// writes the result to the stack.
pub open spec fn account_read_accesses(
    s: StateView,
    steps: Seq<GethExecStep>,
    pops: nat,
    field: AccountField,
) -> Seq<Access> {
    let call_id = s.frames.last().call_id;
    let value = results(steps, 1)[0];
    stack_reads(call_id, steps[0].stack@, pops) + seq![
        Access {
            rw: RW::READ,
            op: Op::Account { address: account_read(s, steps, pops), field, value, value_prev: value },
        },
    ] + stack_writes(call_id, (steps[0].stack@.len() - pops + 1) as nat, results(steps, 1))
}

/// The value of the field `field` of `frame` in the transaction `tx_id`.
pub open spec fn field_value(tx_id: usize, frame: CallContext, field: CallContextField) -> Word {
    match field {
        CallContextField::TxId => word_of(tx_id as u64),
        CallContextField::Depth => word_of(frame.depth as u64),
        CallContextField::CallerAddress => frame.caller.as_word(),
        CallContextField::CalleeAddress => frame.callee.as_word(),
        CallContextField::IsStatic => word_of_flag(frame.is_static),
        CallContextField::IsCreate => word_of_flag(frame.is_create),
        CallContextField::ReturnPc => word_of(frame.return_pc),
    }
}

/// The value of the field `field` of `frame` in the transaction `tx_id`.
pub fn value_of_field(tx_id: usize, frame: CallContext, field: CallContextField) -> (value: Word)
    ensures
        value == field_value(tx_id, frame, field),
{
    match field {
        CallContextField::TxId => Word::from_u64(tx_id as u64),
        CallContextField::Depth => Word::from_u64(frame.depth as u64),
        CallContextField::CallerAddress => frame.caller.to_word(),
        CallContextField::CalleeAddress => frame.callee.to_word(),
        CallContextField::IsStatic => Word::from_flag(frame.is_static),
        CallContextField::IsCreate => Word::from_flag(frame.is_create),
        CallContextField::ReturnPc => Word::from_u64(frame.return_pc),
    }
}

/// Whether the read of a field of the frame at `steps[0]` cannot be recorded:
/// there is no frame, the stack is full, or no later record of the frame
/// shows the result.
pub open spec fn context_read_fails(s: StateView, steps: Seq<GethExecStep>) -> bool {
    cannot_read(s, steps[0].stack@, 0, 2) || cannot_write(steps, 0, 1)
}

/// What the read of the field `field` of the frame at work does: it reads the
/// field and writes the result, which the next record of the frame shows, to
/// the stack.
pub open spec fn context_read_accesses(
    s: StateView,
    steps: Seq<GethExecStep>,
    field: CallContextField,
) -> Seq<Access> {
    let frame = s.frames.last();
    seq![
        Access {
            rw: RW::READ,
            op: Op::CallContext {
                call_id: frame.call_id,
                field,
                value: field_value(s.tx_id, frame, field),
            },
        },
    ] + stack_writes(frame.call_id, (steps[0].stack@.len() + 1) as nat, results(steps, 1))
}

impl AccountRead {
    /// Records the read at `steps[0]` of the field `field` of an account: of
    /// the one whose address is on the stack where `pops` is 1, and of the
    /// account of the frame where `pops` is 0. Where the trace lacks the
    /// address or the result, it is malformed and nothing is recorded.
    pub fn gen_associated_ops(
        state: &mut CircuitInputState,
        exec_step: &mut ExecStep,
        steps: &[GethExecStep],
        pops: usize,
        field: AccountField,
    ) -> (r: Result<(), Error>)
        requires
            steps@.len() >= 1,
        ensures
            r.is_err() == account_read_fails(old(state)@, steps@, pops as nat),
            r.is_err() ==> r == Err::<(), Error>(Error::TraceMalformed) && final(state)@ == old(
                state,
            )@ && final(exec_step)@ == old(exec_step)@,
            r.is_ok() ==> final(state)@ == with_accesses(
                old(state)@,
                account_read_accesses(old(state)@, steps@, pops as nat, field),
            ),
            r.is_ok() ==> final(exec_step)@ == with_references(
                old(exec_step)@,
                old(state)@.ops.len(),
                account_read_accesses(old(state)@, steps@, pops as nat, field),
            ),
    {
        let step = &steps[0];
        if pops > 1 || !can_read(state, &step.stack, pops, pops + 2) {
            return Err(Error::TraceMalformed);
        }
        if step.stack.len() - pops + 1 > STACK_LIMIT {
            return Err(Error::TraceMalformed);
        }
        let at: usize = match find_resume(steps) {
            Some(j) => j,
            None => {
                return Err(Error::TraceMalformed);
            },
        };
        if steps[at].stack.len() < 1 {
            return Err(Error::TraceMalformed);
        }
        let value: Word = steps[at].stack.0[0];
        let frame = state.frames[state.frames.len() - 1];
        let address: Address = if pops == 0 {
            frame.callee
        } else {
            step.stack.0[0].to_address()
        };
        let mut accesses: Vec<Access> = read_accesses(frame.call_id, &step.stack, pops);
        accesses.push(
            Access { rw: RW::READ, op: Op::Account { address, field, value, value_prev: value } },
        );
        let len_after: usize = step.stack.len() - pops + 1;
        let top: StackAddress = StackAddress(STACK_LIMIT - len_after);
        accesses.push(
            Access { rw: RW::WRITE, op: Op::Stack { call_id: frame.call_id, address: top, value } },
        );
        proof {
            let writes = stack_writes(frame.call_id, len_after as nat, results(steps@, 1));
            assert(writes =~= seq![
                Access {
                    rw: RW::WRITE,
                    op: Op::Stack { call_id: frame.call_id, address: top, value },
                },
            ]);
            assert(accesses@ =~= account_read_accesses(state@, steps@, pops as nat, field));
        }
        state.push_accesses(exec_step, &accesses);
        Ok(())
    }
}

impl ContextRead {
    /// Records the read at `steps[0]` of the field `field` of the frame at
    /// work. Where the stack is full or the trace lacks the result, it is
    /// malformed and nothing is recorded.
    pub fn gen_associated_ops(
        state: &mut CircuitInputState,
        exec_step: &mut ExecStep,
        steps: &[GethExecStep],
        field: CallContextField,
    ) -> (r: Result<(), Error>)
        requires
            steps@.len() >= 1,
        ensures
            r.is_err() == context_read_fails(old(state)@, steps@),
            r.is_err() ==> r == Err::<(), Error>(Error::TraceMalformed) && final(state)@ == old(
                state,
            )@ && final(exec_step)@ == old(exec_step)@,
            r.is_ok() ==> final(state)@ == with_accesses(
                old(state)@,
                context_read_accesses(old(state)@, steps@, field),
            ),
            r.is_ok() ==> final(exec_step)@ == with_references(
                old(exec_step)@,
                old(state)@.ops.len(),
                context_read_accesses(old(state)@, steps@, field),
            ),
    {
        let step = &steps[0];
        if !can_read(state, &step.stack, 0, 2) || step.stack.len() >= STACK_LIMIT {
            return Err(Error::TraceMalformed);
        }
        let at: usize = match find_resume(steps) {
            Some(j) => j,
            None => {
                return Err(Error::TraceMalformed);
            },
        };
        if steps[at].stack.len() < 1 {
            return Err(Error::TraceMalformed);
        }
        let result: Word = steps[at].stack.0[0];
        let frame = state.frames[state.frames.len() - 1];
        let mut accesses: Vec<Access> = Vec::new();
        accesses.push(
            Access {
                rw: RW::READ,
                op: Op::CallContext {
                    call_id: frame.call_id,
                    field,
                    value: value_of_field(state.tx_id, frame, field),
                },
            },
        );
        let len_after: usize = step.stack.len() + 1;
        let top: StackAddress = StackAddress(STACK_LIMIT - len_after);
        accesses.push(
            Access {
                rw: RW::WRITE,
                op: Op::Stack { call_id: frame.call_id, address: top, value: result },
            },
        );
        proof {
            let writes = stack_writes(frame.call_id, len_after as nat, results(steps@, 1));
            assert(writes =~= seq![
                Access {
                    rw: RW::WRITE,
                    op: Op::Stack { call_id: frame.call_id, address: top, value: result },
                },
            ]);
            assert(accesses@ =~= context_read_accesses(state@, steps@, field));
        }
        state.push_accesses(exec_step, &accesses);
        Ok(())
    }
}

} // verus!
