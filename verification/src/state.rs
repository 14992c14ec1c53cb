//! The state that the handlers work on: the container, the call frames and
//! what the transaction has touched so far.
use vstd::prelude::*;
use crate::operation::{
    numbered, reference_to, CallContextField, Op, Operation, OperationContainer, RwReference,
    StackAddress, RW,
};
use crate::trace::GethExecStep;
use crate::word::{word_of, word_of_flag, Address, Word};

verus! {

/// A call frame.
#[derive(Clone, Copy, Debug, PartialEq, Eq, Structural)]
pub struct CallContext {
    /// The frame's number: the counter of the first operation that was made
    /// for it.
    pub call_id: usize,
    /// The depth, the outermost frame being at 0.
    pub depth: u32,
    /// The account that called.
    pub caller: Address,
    /// The account whose storage the frame works on.
    pub callee: Address,
    /// Whether the frame may change state.
    pub is_static: bool,
    /// Whether the frame creates an account.
    pub is_create: bool,
    /// Where the caller goes on when the frame has ended.
    pub return_pc: u64,
}

/// What is known of an account when the block begins.
#[derive(Clone, Copy, Debug, PartialEq, Eq, Structural)]
pub struct AccountState {
    pub address: Address,
    pub nonce: u64,
    pub balance: Word,
}

/// One access, before the container has given it a counter.
#[derive(Clone, Copy, Debug, PartialEq, Eq, Structural)]
pub struct Access {
    pub rw: RW,
    pub op: Op,
}

/// One executed instruction and the handles to the operations that it made.
#[derive(Debug)]
pub struct ExecStep {
    pub pc: u64,
    pub op: u8,
    pub gas: u64,
    pub depth: u32,
    /// Whether the instruction failed.
    pub failed: bool,
    /// The handles, in the order in which the operations were made.
    pub bus_mapping_instance: Vec<RwReference>,
}

/// What an `ExecStep` holds.
pub struct StepView {
    pub pc: u64,
    pub op: u8,
    pub gas: u64,
    pub depth: u32,
    pub failed: bool,
    pub bus_mapping_instance: Seq<RwReference>,
}

impl View for ExecStep {
    type V = StepView;

    open spec fn view(&self) -> StepView {
        StepView {
            pc: self.pc,
            op: self.op,
            gas: self.gas,
            depth: self.depth,
            failed: self.failed,
            bus_mapping_instance: self.bus_mapping_instance@,
        }
    }
}

/// The step of the record `step`, before any operation.
pub open spec fn fresh_step(step: GethExecStep) -> StepView {
    StepView {
        pc: step.pc,
        op: step.op,
        gas: step.gas,
        depth: step.depth,
        failed: step.error.is_some(),
        bus_mapping_instance: Seq::empty(),
    }
}

impl ExecStep {
    /// The step of the record `step`, before any operation.
    pub fn new(step: &GethExecStep) -> (s: ExecStep)
        ensures
            s@ == fresh_step(*step),
    {
        ExecStep {
            pc: step.pc,
            op: step.op,
            gas: step.gas,
            depth: step.depth,
            failed: step.error.is_some(),
            bus_mapping_instance: Vec::new(),
        }
    }
}

/// The state of a build.
#[derive(Debug)]
pub struct CircuitInputState {
    /// The operations made so far.
    pub container: OperationContainer,
    /// The number of the transaction at work, from 1.
    pub tx_id: usize,
    /// The frames that are open, the outermost first.
    pub frames: Vec<CallContext>,
    /// The storage slots that the transaction has touched.
    pub accessed: Vec<(Address, Word)>,
    /// The number of log entries that the transaction has made.
    pub logs: u64,
    /// The stores to transient storage that the transaction has made, in
    /// their order: the account, the slot and the value.
    pub transient: Vec<(Address, Word, Word)>,
    /// The accounts as they were when the block began. Where an account comes
    /// twice, the first entry counts.
    pub accounts: Vec<AccountState>,
}

/// What a `CircuitInputState` holds.
pub struct StateView {
    pub ops: Seq<Operation>,
    pub tx_id: usize,
    pub frames: Seq<CallContext>,
    pub accessed: Seq<(Address, Word)>,
    pub logs: u64,
    pub transient: Seq<(Address, Word, Word)>,
    pub accounts: Seq<AccountState>,
}

impl View for CircuitInputState {
    type V = StateView;

    open spec fn view(&self) -> StateView {
        StateView {
            ops: self.container@,
            tx_id: self.tx_id,
            frames: self.frames@,
            accessed: self.accessed@,
            logs: self.logs,
            transient: self.transient@,
            accounts: self.accounts@,
        }
    }
}

/// The state before the first transaction of a block that begins with
/// `accounts`: nothing is recorded.
pub open spec fn initial_state(accounts: Seq<AccountState>) -> StateView {
    StateView {
        ops: Seq::empty(),
        tx_id: 0,
        frames: Seq::empty(),
        accessed: Seq::empty(),
        logs: 0,
        transient: Seq::empty(),
        accounts,
    }
}

/// `ops` and then `accesses`, each under the counter that follows.
pub open spec fn append_numbered(ops: Seq<Operation>, accesses: Seq<Access>) -> Seq<Operation> {
    ops + Seq::new(
        accesses.len(),
        |j: int| numbered(ops.len() + j, accesses[j].rw, accesses[j].op),
    )
}

/// The handles to `accesses` when they follow `count` operations.
pub open spec fn references(count: nat, accesses: Seq<Access>) -> Seq<RwReference> {
    Seq::new(accesses.len(), |j: int| reference_to(count + j, accesses[j].op))
}

/// The state `s` after `accesses` were made.
pub open spec fn with_accesses(s: StateView, accesses: Seq<Access>) -> StateView {
    StateView { ops: append_numbered(s.ops, accesses), ..s }
}

/// The step `step` after `accesses` were made as the operations that follow
/// the first `count`.
pub open spec fn with_references(step: StepView, count: nat, accesses: Seq<Access>) -> StepView {
    StepView {
        bus_mapping_instance: step.bus_mapping_instance + references(count, accesses),
        ..step
    }
}

/// Whether a container of `count` operations can number `more` of them.
pub open spec fn has_room(count: nat, more: nat) -> bool {
    count + more <= usize::MAX
}

impl CircuitInputState {
    /// The state before the first transaction of a block that begins with
    /// `accounts`.
    pub fn new(accounts: Vec<AccountState>) -> (s: CircuitInputState)
        ensures
            s@ == initial_state(accounts@),
    {
        CircuitInputState {
            container: OperationContainer::new(),
            tx_id: 0,
            frames: Vec::new(),
            accessed: Vec::new(),
            logs: 0,
            transient: Vec::new(),
            accounts,
        }
    }

    /// Whether the container can number `more` operations.
    pub fn room_for(&self, more: usize) -> (r: bool)
        ensures
            r == has_room(self@.ops.len(), more as nat),
    {
        self.container.len() <= usize::MAX - more
    }

    /// Makes the access `(rw, op)`: the container numbers it and the step
    /// gets the handle.
    pub fn push_op(&mut self, exec_step: &mut ExecStep, rw: RW, op: Op)
        requires
            has_room(old(self)@.ops.len(), 1),
        ensures
            final(self)@ == with_accesses(old(self)@, seq![Access { rw, op }]),
            final(exec_step)@ == with_references(
                old(exec_step)@,
                old(self)@.ops.len(),
                seq![Access { rw, op }],
            ),
    {
        let r: RwReference = self.container.insert(rw, op);
        exec_step.bus_mapping_instance.push(r);
        proof {
            let acc = seq![Access { rw, op }];
            assert(final(self)@.ops =~= append_numbered(old(self)@.ops, acc));
            assert(final(exec_step)@.bus_mapping_instance =~= old(
                exec_step,
            )@.bus_mapping_instance + references(old(self)@.ops.len(), acc));
        }
    }

    /// Makes an access to the stack of the frame at work.
    pub fn push_stack_op(
        &mut self,
        exec_step: &mut ExecStep,
        rw: RW,
        address: StackAddress,
        value: Word,
    )
        requires
            old(self)@.frames.len() > 0,
            has_room(old(self)@.ops.len(), 1),
        ensures
            final(self)@ == with_accesses(
                old(self)@,
                seq![stack_access(old(self)@.frames.last().call_id, rw, address, value)],
            ),
            final(exec_step)@ == with_references(
                old(exec_step)@,
                old(self)@.ops.len(),
                seq![stack_access(old(self)@.frames.last().call_id, rw, address, value)],
            ),
    {
        let call_id: usize = self.frames[self.frames.len() - 1].call_id;
        self.push_op(exec_step, rw, Op::Stack { call_id, address, value });
    }
}

/// The write of one field of the frame `call_id`.
pub open spec fn context_access(call_id: usize, field: CallContextField, value: Word) -> Access {
    Access { rw: RW::WRITE, op: Op::CallContext { call_id, field, value } }
}

/// The writes that open `frame` in the transaction `tx_id`: one for each of
/// its fields.
pub open spec fn frame_accesses(tx_id: usize, frame: CallContext) -> Seq<Access> {
    seq![
        context_access(frame.call_id, CallContextField::TxId, word_of(tx_id as u64)),
        context_access(frame.call_id, CallContextField::Depth, word_of(frame.depth as u64)),
        context_access(frame.call_id, CallContextField::CallerAddress, frame.caller.as_word()),
        context_access(frame.call_id, CallContextField::CalleeAddress, frame.callee.as_word()),
        context_access(frame.call_id, CallContextField::IsStatic, word_of_flag(frame.is_static)),
        context_access(frame.call_id, CallContextField::IsCreate, word_of_flag(frame.is_create)),
        context_access(frame.call_id, CallContextField::ReturnPc, word_of(frame.return_pc)),
    ]
}

/// The state `s` with `frame` as the frame at work.
pub open spec fn with_frame(s: StateView, frame: CallContext) -> StateView {
    StateView { frames: s.frames.push(frame), ..s }
}

impl CircuitInputState {
    /// Makes `accesses`, in their order.
    pub fn push_accesses(&mut self, exec_step: &mut ExecStep, accesses: &Vec<Access>)
        requires
            has_room(old(self)@.ops.len(), accesses@.len()),
        ensures
            final(self)@ == with_accesses(old(self)@, accesses@),
            final(exec_step)@ == with_references(
                old(exec_step)@,
                old(self)@.ops.len(),
                accesses@,
            ),
    {
        let ghost s0 = self@;
        let ghost e0 = exec_step@;
        let n: usize = accesses.len();
        let mut i: usize = 0;
        proof {
            let none = accesses@.take(0);
            assert(self@.ops =~= with_accesses(s0, none).ops);
            assert(exec_step@.bus_mapping_instance =~= with_references(
                e0,
                s0.ops.len(),
                none,
            ).bus_mapping_instance);
        }
        while i < n
            invariant
                i <= n,
                n == accesses@.len(),
                has_room(s0.ops.len(), n as nat),
                self@ == with_accesses(s0, accesses@.take(i as int)),
                exec_step@ == with_references(e0, s0.ops.len(), accesses@.take(i as int)),
            decreases n - i,
        {
            let a: Access = accesses[i];
            self.push_op(exec_step, a.rw, a.op);
            proof {
                let before = accesses@.take(i as int);
                lemma_accesses_compose(s0, before, seq![a]);
                lemma_references_compose(e0, s0.ops.len(), before, seq![a]);
                assert(before + seq![a] =~= accesses@.take(i + 1));
            }
            i = i + 1;
        }
        proof {
            assert(accesses@.take(n as int) =~= accesses@);
        }
    }

    /// Opens `frame`: its fields are written and it becomes the frame at
    /// work.
    pub fn open_frame(&mut self, exec_step: &mut ExecStep, frame: CallContext)
        requires
            has_room(old(self)@.ops.len(), 7),
        ensures
            final(self)@ == with_frame(
                with_accesses(old(self)@, frame_accesses(old(self)@.tx_id, frame)),
                frame,
            ),
            final(exec_step)@ == with_references(
                old(exec_step)@,
                old(self)@.ops.len(),
                frame_accesses(old(self)@.tx_id, frame),
            ),
    {
        let accesses = frame_ops(self.tx_id, frame);
        self.push_accesses(exec_step, &accesses);
        self.frames.push(frame);
    }
}

/// The writes that open `frame` in the transaction `tx_id`.
pub fn frame_ops(tx_id: usize, frame: CallContext) -> (accesses: Vec<Access>)
    ensures
        accesses@ == frame_accesses(tx_id, frame),
{
    let id: usize = frame.call_id;
    let mut accesses: Vec<Access> = Vec::new();
    accesses.push(context_op(id, CallContextField::TxId, Word::from_u64(tx_id as u64)));
    accesses.push(context_op(id, CallContextField::Depth, Word::from_u64(frame.depth as u64)));
    accesses.push(context_op(id, CallContextField::CallerAddress, frame.caller.to_word()));
    accesses.push(context_op(id, CallContextField::CalleeAddress, frame.callee.to_word()));
    accesses.push(context_op(id, CallContextField::IsStatic, Word::from_flag(frame.is_static)));
    accesses.push(context_op(id, CallContextField::IsCreate, Word::from_flag(frame.is_create)));
    accesses.push(context_op(id, CallContextField::ReturnPc, Word::from_u64(frame.return_pc)));
    proof {
        assert(accesses@ =~= frame_accesses(tx_id, frame));
    }
    accesses
}

/// The write of one field of the frame `call_id`.
pub fn context_op(call_id: usize, field: CallContextField, value: Word) -> (a: Access)
    ensures
        a == context_access(call_id, field, value),
{
    Access { rw: RW::WRITE, op: Op::CallContext { call_id, field, value } }
}

/// An access to the stack of the frame `call_id`.
pub open spec fn stack_access(call_id: usize, rw: RW, address: StackAddress, value: Word) -> Access {
    Access { rw, op: Op::Stack { call_id, address, value } }
}

/// Making `first` and then `second` is making the two in a row.
pub proof fn lemma_accesses_compose(s: StateView, first: Seq<Access>, second: Seq<Access>)
    ensures
        with_accesses(with_accesses(s, first), second) == with_accesses(s, first + second),
{
    assert(append_numbered(append_numbered(s.ops, first), second) =~= append_numbered(
        s.ops,
        first + second,
    ));
}

/// The handles to `first` and then those to `second` are the handles to the
/// two in a row.
pub proof fn lemma_references_compose(
    step: StepView,
    count: nat,
    first: Seq<Access>,
    second: Seq<Access>,
)
    ensures
        with_references(with_references(step, count, first), count + first.len(), second)
            == with_references(step, count, first + second),
{
    assert(references(count, first) + references(count + first.len(), second) =~= references(
        count,
        first + second,
    ));
    assert((step.bus_mapping_instance + references(count, first)) + references(
        count + first.len(),
        second,
    ) =~= step.bus_mapping_instance + references(count, first + second));
}

} // verus!
