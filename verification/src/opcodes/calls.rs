//! The instructions that call an account or create one.
use vstd::prelude::*;
use crate::opcode::CallKind;
use crate::opcodes::stack_only::{cannot_write, results};
use crate::opcodes::{can_read, cannot_read, find_resume, read_accesses, stack_reads, stack_writes};
use crate::operation::{AccountField, Op, StackAddress, RW};
use crate::state::{
    frame_accesses, frame_ops, with_accesses, with_frame, with_references, Access, AccountState,
    CallContext, CircuitInputState, ExecStep, StateView,
};
use crate::trace::{Error, GethExecStep, STACK_LIMIT};
use crate::word::{word_of, Address, Word};

verus! {

/// The handler of the instructions that call an account.
#[derive(Debug, Copy, Clone)]
pub struct Call;

/// The handler of the instructions that create an account.
#[derive(Debug, Copy, Clone)]
pub struct Create;

/// What the block began with for the account `address`: the first entry for
/// it, and an account without nonce and balance where there is none.
pub open spec fn account_of(accounts: Seq<AccountState>, address: Address) -> AccountState
    decreases accounts.len(),
{
    if accounts.len() == 0 {
        AccountState { address, nonce: 0, balance: word_of(0) }
    } else if accounts[0].address == address {
        accounts[0]
    } else {
        account_of(accounts.drop_first(), address)
    }
}

/// What the block began with for the account `address`.
pub fn find_account(accounts: &Vec<AccountState>, address: Address) -> (found: AccountState)
    ensures
        found == account_of(accounts@, address),
{
    let n: usize = accounts.len();
    let mut i: usize = 0;
    proof {
        assert(accounts@.skip(0) =~= accounts@);
    }
    while i < n
        invariant
            i <= n,
            n == accounts@.len(),
            account_of(accounts@, address) == account_of(accounts@.skip(i as int), address),
        decreases n - i,
    {
        let entry: AccountState = accounts[i];
        proof {
            let rest = accounts@.skip(i as int);
            assert(rest[0] == entry);
            assert(rest.drop_first() =~= accounts@.skip(i + 1));
        }
        if entry.address == address {
            return entry;
        }
        i = i + 1;
    }
    AccountState { address, nonce: 0, balance: Word::from_u64(0) }
}

/// The checks of a call or a creation: the balance of the account `payer`
/// and the nonce of the account `other` are read, as the block began with
/// them.
pub open spec fn account_reads(accounts: Seq<AccountState>, payer: Address, other: Address) -> Seq<
    Access,
> {
    let balance = account_of(accounts, payer).balance;
    let nonce = word_of(account_of(accounts, other).nonce);
    seq![
        Access {
            rw: RW::READ,
            op: Op::Account {
                address: payer,
                field: AccountField::Balance,
                value: balance,
                value_prev: balance,
            },
        },
        Access {
            rw: RW::READ,
            op: Op::Account {
                address: other,
                field: AccountField::Nonce,
                value: nonce,
                value_prev: nonce,
            },
        },
    ]
}

/// The checks of a call or a creation.
pub fn account_checks(accounts: &Vec<AccountState>, payer: Address, other: Address) -> (accesses:
    Vec<Access>)
    ensures
        accesses@ == account_reads(accounts@, payer, other),
{
    let balance: Word = find_account(accounts, payer).balance;
    let nonce: Word = Word::from_u64(find_account(accounts, other).nonce);
    let mut accesses: Vec<Access> = Vec::new();
    accesses.push(
        Access {
            rw: RW::READ,
            op: Op::Account {
                address: payer,
                field: AccountField::Balance,
                value: balance,
                value_prev: balance,
            },
        },
    );
    accesses.push(
        Access {
            rw: RW::READ,
            op: Op::Account {
                address: other,
                field: AccountField::Nonce,
                value: nonce,
                value_prev: nonce,
            },
        },
    );
    proof {
        assert(accesses@ =~= account_reads(accounts@, payer, other));
    }
    accesses
}

/// The words that a call of the kind `kind` takes from the stack.
pub open spec fn call_pops(kind: CallKind) -> nat {
    if kind == CallKind::Call || kind == CallKind::CallCode {
        7
    } else {
        6
    }
}

/// Whether the instruction at `steps[0]` enters a frame: the next record is
/// one level deeper.
pub open spec fn enters(steps: Seq<GethExecStep>) -> bool {
    steps.len() > 1 && steps[1].depth == steps[0].depth + 1
}

/// Where the caller goes on after the instruction at `pc`.
pub open spec fn next_pc(pc: u64) -> u64 {
    if pc < u64::MAX {
        (pc + 1) as u64
    } else {
        pc
    }
}

/// The frame that the call of the kind `kind` at `steps[0]` enters. The
/// account to call is the second word of the stack. A call and a static call
/// work on that account; a call of code and a delegated call stay with the
/// account of the caller, and a delegated call also keeps the caller's
/// caller.
pub open spec fn called_frame(kind: CallKind, s: StateView, steps: Seq<GethExecStep>) -> CallContext {
    let frame = s.frames.last();
    let target = steps[0].stack@[1].low_address();
    CallContext {
        call_id: (s.ops.len() + 1) as usize,
        depth: steps[1].depth,
        caller: if kind == CallKind::DelegateCall {
            frame.caller
        } else {
            frame.callee
        },
        callee: if kind == CallKind::Call || kind == CallKind::StaticCall {
            target
        } else {
            frame.callee
        },
        is_static: frame.is_static || kind == CallKind::StaticCall,
        is_create: false,
        return_pc: next_pc(steps[0].pc),
    }
}

/// The number of operations of an instruction that takes `pops` words, makes
/// the two checks, enters a frame or not, and leaves one word.
pub open spec fn entry_total(steps: Seq<GethExecStep>, pops: nat) -> nat {
    pops + 3 + if enters(steps) {
        7nat
    } else {
        0nat
    }
}

/// Whether the call at `steps[0]` cannot be recorded: its operands cannot be
/// read, or no later record of the frame shows its result.
pub open spec fn call_fails(kind: CallKind, s: StateView, steps: Seq<GethExecStep>) -> bool {
    cannot_read(s, steps[0].stack@, call_pops(kind), entry_total(steps, call_pops(kind)))
        || cannot_write(steps, call_pops(kind), 1)
}

/// The accesses of an instruction that takes `pops` words, checks `payer` and
/// `other`, enters `frame` where the trace does, and leaves its result.
pub open spec fn entry_accesses(
    s: StateView,
    steps: Seq<GethExecStep>,
    pops: nat,
    payer: Address,
    other: Address,
    frame: CallContext,
) -> Seq<Access> {
    let call_id = s.frames.last().call_id;
    stack_reads(call_id, steps[0].stack@, pops) + account_reads(s.accounts, payer, other) + (if enters(
        steps,
    ) {
        frame_accesses(s.tx_id, frame)
    } else {
        Seq::empty()
    }) + stack_writes(call_id, (steps[0].stack@.len() - pops + 1) as nat, results(steps, 1))
}

/// What the call does: it reads its operands from the stack, checks the
/// balance of the calling account and the nonce of the account to call,
/// opens the frame where the trace enters one, and writes its result, which
/// the next record of the calling frame shows.
pub open spec fn call_accesses(kind: CallKind, s: StateView, steps: Seq<GethExecStep>) -> Seq<
    Access,
> {
    entry_accesses(
        s,
        steps,
        call_pops(kind),
        s.frames.last().callee,
        steps[0].stack@[1].low_address(),
        called_frame(kind, s, steps),
    )
}

/// The state `s` after `accesses` with `frame` entered, where the trace
/// enters one.
pub open spec fn entered(
    s: StateView,
    steps: Seq<GethExecStep>,
    accesses: Seq<Access>,
    frame: CallContext,
) -> StateView {
    if enters(steps) {
        with_frame(with_accesses(s, accesses), frame)
    } else {
        with_accesses(s, accesses)
    }
}

/// The words that a creation takes from the stack.
pub open spec fn create_pops(salted: bool) -> nat {
    if salted {
        4
    } else {
        3
    }
}

/// The frame that the creation at `steps[0]` enters: it works on the new
/// account, whose address is the result of the creation.
pub open spec fn created_frame(s: StateView, steps: Seq<GethExecStep>) -> CallContext {
    let frame = s.frames.last();
    CallContext {
        call_id: (s.ops.len() + 1) as usize,
        depth: steps[1].depth,
        caller: frame.callee,
        callee: results(steps, 1)[0].low_address(),
        is_static: frame.is_static,
        is_create: true,
        return_pc: next_pc(steps[0].pc),
    }
}

/// Whether the creation at `steps[0]` cannot be recorded: its operands cannot
/// be read, or no later record of the frame shows its result.
pub open spec fn create_fails(salted: bool, s: StateView, steps: Seq<GethExecStep>) -> bool {
    cannot_read(s, steps[0].stack@, create_pops(salted), entry_total(steps, create_pops(salted)))
        || cannot_write(steps, create_pops(salted), 1)
}

/// What the creation does: it reads its operands from the stack, checks the
/// balance and the nonce of the creating account, opens the frame where the
/// trace enters one, and writes its result.
pub open spec fn create_accesses(salted: bool, s: StateView, steps: Seq<GethExecStep>) -> Seq<
    Access,
> {
    entry_accesses(
        s,
        steps,
        create_pops(salted),
        s.frames.last().callee,
        s.frames.last().callee,
        created_frame(s, steps),
    )
}

/// Records an instruction that takes `pops` words, checks `payer` and
/// `other`, enters `frame` where the trace does, and leaves `result`.
fn record_entry(
    state: &mut CircuitInputState,
    exec_step: &mut ExecStep,
    steps: &[GethExecStep],
    pops: usize,
    payer: Address,
    other: Address,
    frame: CallContext,
    goes_in: bool,
    result: Word,
)
    requires
        steps@.len() >= 1,
        1 <= pops <= 7,
        goes_in == enters(steps@),
        !cannot_read(old(state)@, steps@[0].stack@, pops as nat, entry_total(steps@, pops as nat)),
        !cannot_write(steps@, pops as nat, 1),
        result == results(steps@, 1)[0],
    ensures
        final(state)@ == entered(
            old(state)@,
            steps@,
            entry_accesses(old(state)@, steps@, pops as nat, payer, other, frame),
            frame,
        ),
        final(exec_step)@ == with_references(
            old(exec_step)@,
            old(state)@.ops.len(),
            entry_accesses(old(state)@, steps@, pops as nat, payer, other, frame),
        ),
{
    let step = &steps[0];
    let call_id: usize = state.frames[state.frames.len() - 1].call_id;
    let mut accesses: Vec<Access> = read_accesses(call_id, &step.stack, pops);
    let mut checks: Vec<Access> = account_checks(&state.accounts, payer, other);
    accesses.append(&mut checks);
    if goes_in {
        let mut opening: Vec<Access> = frame_ops(state.tx_id, frame);
        accesses.append(&mut opening);
    }
    let len_after: usize = step.stack.len() - pops + 1;
    let at: StackAddress = StackAddress(STACK_LIMIT - len_after);
    accesses.push(Access { rw: RW::WRITE, op: Op::Stack { call_id, address: at, value: result } });
    proof {
        let writes = stack_writes(call_id, len_after as nat, results(steps@, 1));
        assert(writes =~= seq![
            Access { rw: RW::WRITE, op: Op::Stack { call_id, address: at, value: result } },
        ]);
        assert(accesses@ =~= entry_accesses(state@, steps@, pops as nat, payer, other, frame));
    }
    state.push_accesses(exec_step, &accesses);
    if goes_in {
        state.frames.push(frame);
    }
}

/// Where the caller goes on after the instruction at `pc`.
fn pc_after(pc: u64) -> (next: u64)
    ensures
        next == next_pc(pc),
{
    if pc < u64::MAX {
        pc + 1
    } else {
        pc
    }
}

impl Call {
    /// Records the call of the kind `kind` at `steps[0]`. The frame is
    /// entered where the next record is one level deeper. Where the stack
    /// lacks an operand or no later record of the calling frame shows the
    /// result, the trace is malformed and nothing is recorded.
    pub fn gen_associated_ops(
        state: &mut CircuitInputState,
        exec_step: &mut ExecStep,
        steps: &[GethExecStep],
        kind: CallKind,
    ) -> (r: Result<(), Error>)
        requires
            steps@.len() >= 1,
        ensures
            r.is_err() == call_fails(kind, old(state)@, steps@),
            r.is_err() ==> r == Err::<(), Error>(Error::TraceMalformed) && final(state)@ == old(
                state,
            )@ && final(exec_step)@ == old(exec_step)@,
            r.is_ok() ==> final(state)@ == entered(
                old(state)@,
                steps@,
                call_accesses(kind, old(state)@, steps@),
                called_frame(kind, old(state)@, steps@),
            ),
            r.is_ok() ==> final(exec_step)@ == with_references(
                old(exec_step)@,
                old(state)@.ops.len(),
                call_accesses(kind, old(state)@, steps@),
            ),
    {
        let step = &steps[0];
        let pops: usize = match kind {
            CallKind::Call => 7,
            CallKind::CallCode => 7,
            CallKind::DelegateCall => 6,
            CallKind::StaticCall => 6,
        };
        let goes_in: bool = steps.len() > 1 && step.depth < u32::MAX && steps[1].depth == step.depth
            + 1;
        let total: usize = if goes_in {
            pops + 10
        } else {
            pops + 3
        };
        if !can_read(state, &step.stack, pops, total) {
            return Err(Error::TraceMalformed);
        }
        let at: usize = match find_resume(steps) {
            Some(j) => j,
            None => {
                return Err(Error::TraceMalformed);
            },
        };
        if steps[at].stack.len() < 1 {
            return Err(Error::TraceMalformed);
        }
        let result: Word = steps[at].stack.0[0];
        let current = state.frames[state.frames.len() - 1];
        let target: Address = step.stack.0[1].to_address();
        let frame = CallContext {
            call_id: state.container.len() + 1,
            depth: if goes_in {
                steps[1].depth
            } else {
                0
            },
            caller: match kind {
                CallKind::DelegateCall => current.caller,
                _ => current.callee,
            },
            callee: match kind {
                CallKind::Call => target,
                CallKind::StaticCall => target,
                _ => current.callee,
            },
            is_static: current.is_static || kind == CallKind::StaticCall,
            is_create: false,
            return_pc: pc_after(step.pc),
        };
        record_entry(
            state,
            exec_step,
            steps,
            pops,
            current.callee,
            target,
            frame,
            goes_in,
            result,
        );
        Ok(())
    }
}

impl Create {
    /// Records the creation at `steps[0]`; `salted` where the caller picks
    /// the salt of the new address. The frame is entered where the next
    /// record is one level deeper. Where the stack lacks an operand or no
    /// later record of the creating frame shows the result, the trace is
    /// malformed and nothing is recorded.
    pub fn gen_associated_ops(
        state: &mut CircuitInputState,
        exec_step: &mut ExecStep,
        steps: &[GethExecStep],
        salted: bool,
    ) -> (r: Result<(), Error>)
        requires
            steps@.len() >= 1,
        ensures
            r.is_err() == create_fails(salted, old(state)@, steps@),
            r.is_err() ==> r == Err::<(), Error>(Error::TraceMalformed) && final(state)@ == old(
                state,
            )@ && final(exec_step)@ == old(exec_step)@,
            r.is_ok() ==> final(state)@ == entered(
                old(state)@,
                steps@,
                create_accesses(salted, old(state)@, steps@),
                created_frame(old(state)@, steps@),
            ),
            r.is_ok() ==> final(exec_step)@ == with_references(
                old(exec_step)@,
                old(state)@.ops.len(),
                create_accesses(salted, old(state)@, steps@),
            ),
    {
        let step = &steps[0];
        let pops: usize = if salted {
            4
        } else {
            3
        };
        let goes_in: bool = steps.len() > 1 && step.depth < u32::MAX && steps[1].depth == step.depth
            + 1;
        let total: usize = if goes_in {
            pops + 10
        } else {
            pops + 3
        };
        if !can_read(state, &step.stack, pops, total) {
            return Err(Error::TraceMalformed);
        }
        let at: usize = match find_resume(steps) {
            Some(j) => j,
            None => {
                return Err(Error::TraceMalformed);
            },
        };
        if steps[at].stack.len() < 1 {
            return Err(Error::TraceMalformed);
        }
        let result: Word = steps[at].stack.0[0];
        let current = state.frames[state.frames.len() - 1];
        let frame = CallContext {
            call_id: state.container.len() + 1,
            depth: if goes_in {
                steps[1].depth
            } else {
                0
            },
            caller: current.callee,
            callee: result.to_address(),
            is_static: current.is_static,
            is_create: true,
            return_pc: pc_after(step.pc),
        };
        record_entry(
            state,
            exec_step,
            steps,
            pops,
            current.callee,
            current.callee,
            frame,
            goes_in,
            result,
        );
        Ok(())
    }
}

} // verus!
