//! The builder: it goes through the trace of each transaction of a block,
//! record by record, and leaves the block with all its operations.
use vstd::prelude::*;
use vstd::slice::slice_subrange;
use crate::laws::transactions_resolve;
use crate::opcode::{handler_for, handler_of, Handler};
use crate::opcodes::halt::without_frame;
use crate::opcodes::{gen_associated_ops, handler_accesses, handler_fails, handler_state};
use crate::operation::{
    counted_from_one, Op, Operation, OperationContainer, TxReceiptField, RW,
};
use crate::state::{
    frame_accesses, fresh_step, has_room, initial_state, with_accesses, with_frame,
    with_references, Access, AccountState, CallContext, CircuitInputState, ExecStep, StateView,
    StepView,
};
use crate::trace::{Error, GethExecStep, GethExecTrace};
use crate::word::{address_of_value, created_address, Address, Word};

verus! {

/// A transaction as it was sent.
#[derive(Debug)]
pub struct TxInput {
    /// The sender.
    pub from: Address,
    /// The recipient; none where the transaction creates a contract.
    pub to: Option<Address>,
    pub value: Word,
    pub gas_limit: u64,
    pub call_data: Vec<u8>,
    pub nonce: u64,
}

/// What is known of the block besides its transactions.
#[derive(Clone, Copy, Debug, PartialEq, Eq, Structural)]
pub struct BlockContext {
    pub number: u64,
    pub timestamp: u64,
    pub base_fee: Word,
    pub coinbase: Address,
}

/// A transaction and the instructions that it ran.
#[derive(Debug)]
pub struct Transaction {
    pub from: Address,
    pub to: Option<Address>,
    pub value: Word,
    pub gas_limit: u64,
    pub call_data: Vec<u8>,
    pub nonce: u64,
    /// The instructions, in the order of the trace.
    pub steps: Vec<ExecStep>,
}

/// What a `Transaction` holds.
pub struct TransactionView {
    pub from: Address,
    pub to: Option<Address>,
    pub value: Word,
    pub gas_limit: u64,
    pub call_data: Seq<u8>,
    pub nonce: u64,
    pub steps: Seq<StepView>,
}

/// What each of `steps` holds.
pub open spec fn step_views(steps: Seq<ExecStep>) -> Seq<StepView> {
    Seq::new(steps.len(), |i: int| steps[i]@)
}

impl View for Transaction {
    type V = TransactionView;

    open spec fn view(&self) -> TransactionView {
        TransactionView {
            from: self.from,
            to: self.to,
            value: self.value,
            gas_limit: self.gas_limit,
            call_data: self.call_data@,
            nonce: self.nonce,
            steps: step_views(self.steps@),
        }
    }
}

/// What each of `txs` holds.
pub open spec fn transaction_views(txs: Seq<Transaction>) -> Seq<TransactionView> {
    Seq::new(txs.len(), |i: int| txs[i]@)
}

/// The transaction `tx` with the instructions `steps`.
pub open spec fn transaction_of(tx: TxInput, steps: Seq<StepView>) -> TransactionView {
    TransactionView {
        from: tx.from,
        to: tx.to,
        value: tx.value,
        gas_limit: tx.gas_limit,
        call_data: tx.call_data@,
        nonce: tx.nonce,
        steps,
    }
}

/// Why a block could not be built, and where.
#[derive(Clone, Copy, Debug, PartialEq, Eq, Structural)]
pub struct BuildError {
    pub error: Error,
    /// The place of the transaction in the block, from 0.
    pub tx_index: usize,
    /// The place in the trace of the record at fault, from 0. Where the
    /// operations that open or close the transaction cannot be numbered, it
    /// is 0 or the number of records.
    pub step_index: usize,
    /// The instruction of that record; 0 where no record is at fault.
    pub opcode: u8,
}

/// What the record `steps[0]` leads to in the state `s`: the state after it
/// and the step with the handles to its operations, or the reason for which
/// it cannot be recorded. The depth of the record must be that of the frame
/// at work. A record that carries an error makes no operation and ends the
/// frame.
pub open spec fn step_outcome(s: StateView, steps: Seq<GethExecStep>) -> Result<
    (StateView, StepView),
    Error,
> {
    let step = steps[0];
    if s.frames.len() == 0 || s.frames.last().depth != step.depth {
        Err(Error::CallDepthInconsistent)
    } else {
        match handler_for(step.op) {
            None => Err(Error::TraceMalformed),
            Some(h) => if step.error.is_some() {
                Ok((without_frame(s), fresh_step(step)))
            } else if handler_fails(h, s, steps) {
                Err(Error::TraceMalformed)
            } else {
                Ok(
                    (
                        handler_state(h, s, steps),
                        with_references(
                            fresh_step(step),
                            s.ops.len(),
                            handler_accesses(h, s, steps),
                        ),
                    ),
                )
            },
        }
    }
}

/// Records the instruction at `steps[0]` and gives its step.
pub fn handle_step(state: &mut CircuitInputState, steps: &[GethExecStep]) -> (r: Result<
    ExecStep,
    Error,
>)
    requires
        steps@.len() >= 1,
    ensures
        match r {
            Ok(done) => step_outcome(old(state)@, steps@) == Ok::<(StateView, StepView), Error>(
                (final(state)@, done@),
            ),
            Err(e) => step_outcome(old(state)@, steps@) == Err::<(StateView, StepView), Error>(e),
        },
{
    let step = &steps[0];
    let open: usize = state.frames.len();
    if open == 0 || state.frames[open - 1].depth != step.depth {
        return Err(Error::CallDepthInconsistent);
    }
    let h: Handler = match handler_of(step.op) {
        Some(h) => h,
        None => {
            return Err(Error::TraceMalformed);
        },
    };
    let mut exec_step = ExecStep::new(step);
    if step.error.is_some() {
        state.frames.pop();
        return Ok(exec_step);
    }
    match gen_associated_ops(h, state, &mut exec_step, steps) {
        Ok(()) => Ok(exec_step),
        Err(e) => Err(e),
    }
}

/// The outcome of a run of steps: the state after it and the steps, or the
/// reason for which a record cannot be recorded and the place of that record.
pub type Run = Result<(StateView, Seq<StepView>), (Error, int)>;

/// What the records of `trace` from the place `from` on lead to in the state
/// `s`. They are recorded in their order, and the first that cannot be
/// recorded ends the run. A trace that ends while a frame is open is
/// inconsistent, and its last record is at fault.
pub open spec fn run_steps(s: StateView, trace: Seq<GethExecStep>, from: int) -> Run
    decreases trace.len() - from,
{
    if from < 0 || from >= trace.len() {
        if trace.len() > 0 && s.frames.len() > 0 {
            Err((Error::CallDepthInconsistent, trace.len() - 1))
        } else {
            Ok((s, Seq::empty()))
        }
    } else {
        match step_outcome(s, trace.skip(from)) {
            Err(e) => Err((e, from)),
            Ok((next, step)) => match run_steps(next, trace, from + 1) {
                Err(at) => Err(at),
                Ok((last, rest)) => Ok((last, seq![step] + rest)),
            },
        }
    }
}

/// The run `run` after the steps `done`.
pub open spec fn after_steps(done: Seq<StepView>, run: Run) -> Run {
    match run {
        Ok((s, rest)) => Ok((s, done + rest)),
        Err(at) => Err(at),
    }
}

/// Records the instructions of `trace`, in their order, and gives their
/// steps; or the reason for which a record cannot be recorded, and its place.
pub fn handle_steps(state: &mut CircuitInputState, trace: &Vec<GethExecStep>) -> (r: Result<
    Vec<ExecStep>,
    (Error, usize),
>)
    ensures
        match r {
            Ok(steps) => run_steps(old(state)@, trace@, 0) == Ok::<
                (StateView, Seq<StepView>),
                (Error, int),
            >((final(state)@, step_views(steps@))),
            Err((e, i)) => run_steps(old(state)@, trace@, 0) == Err::<
                (StateView, Seq<StepView>),
                (Error, int),
            >((e, i as int)) && i < trace@.len(),
        },
{
    let ghost s0 = state@;
    let n: usize = trace.len();
    let mut done: Vec<ExecStep> = Vec::new();
    let mut i: usize = 0;
    proof {
        assert(step_views(done@) =~= Seq::<StepView>::empty());
        let run = run_steps(s0, trace@, 0);
        match run {
            Ok((s, rest)) => {
                assert(Seq::<StepView>::empty() + rest =~= rest);
            },
            Err(at) => {},
        }
    }
    while i < n
        invariant
            i <= n,
            n == trace@.len(),
            s0 == old(state)@,
            run_steps(s0, trace@, 0) == after_steps(
                step_views(done@),
                run_steps(state@, trace@, i as int),
            ),
        decreases n - i,
    {
        let steps = slice_subrange(trace.as_slice(), i, n);
        let ghost before = state@;
        let ghost views = step_views(done@);
        match handle_step(state, steps) {
            Ok(step) => {
                proof {
                    let run = run_steps(state@, trace@, i + 1);
                    match run {
                        Ok((s, rest)) => {
                            assert(views + (seq![step@] + rest) =~= views.push(step@) + rest);
                        },
                        Err(at) => {},
                    }
                    assert(step_views(done@.push(step)) =~= views.push(step@));
                }
                done.push(step);
            },
            Err(e) => {
                proof {
                    assert(steps@ == trace@.skip(i as int));
                    assert(run_steps(before, trace@, i as int) == Err::<
                        (StateView, Seq<StepView>),
                        (Error, int),
                    >((e, i as int)));
                }
                return Err((e, i));
            },
        }
        i = i + 1;
    }
    if n > 0 && state.frames.len() > 0 {
        return Err((Error::CallDepthInconsistent, n - 1));
    }
    proof {
        assert(step_views(done@) + Seq::<StepView>::empty() =~= step_views(done@));
    }
    Ok(done)
}

/// The builder of one block.
#[derive(Debug)]
pub struct CircuitInputBuilder {
    pub context: BlockContext,
    /// The transactions that are done.
    pub txs: Vec<Transaction>,
    /// The state, with the container of all operations so far.
    pub state: CircuitInputState,
}

/// What a `CircuitInputBuilder` holds.
pub struct BuilderView {
    pub context: BlockContext,
    pub txs: Seq<TransactionView>,
    pub state: StateView,
}

impl View for CircuitInputBuilder {
    type V = BuilderView;

    open spec fn view(&self) -> BuilderView {
        BuilderView {
            context: self.context,
            txs: transaction_views(self.txs@),
            state: self.state@,
        }
    }
}

/// A block with all its operations: what a build leaves.
#[derive(Debug)]
pub struct Block {
    pub context: BlockContext,
    pub txs: Vec<Transaction>,
    pub container: OperationContainer,
}

/// What a `Block` holds.
pub struct BlockView {
    pub context: BlockContext,
    pub txs: Seq<TransactionView>,
    pub ops: Seq<Operation>,
}

impl View for Block {
    type V = BlockView;

    open spec fn view(&self) -> BlockView {
        BlockView {
            context: self.context,
            txs: transaction_views(self.txs@),
            ops: self.container@,
        }
    }
}

/// The account on which the outermost frame of the transaction `tx` works:
/// the recipient, and for a transaction that creates a contract the address
/// of that contract, which follows from the sender and the nonce.
pub open spec fn callee_of(tx: TxInput) -> Address {
    match tx.to {
        Some(a) => a,
        None => address_of_value(created_address(tx.from.value(), tx.nonce)),
    }
}

/// The outermost frame of the transaction `tx`, opened after `count`
/// operations: the sender calls the account `callee` at depth 0.
pub open spec fn root_frame_at(count: nat, tx: TxInput, callee: Address) -> CallContext {
    CallContext {
        call_id: (count + 1) as usize,
        depth: 0,
        caller: tx.from,
        callee,
        is_static: false,
        is_create: tx.to.is_none(),
        return_pc: 0,
    }
}

/// The outermost frame of the transaction `tx`, opened after `count`
/// operations.
pub open spec fn root_frame(count: nat, tx: TxInput) -> CallContext {
    root_frame_at(count, tx, callee_of(tx))
}

/// The state in which the transaction `tx`, the one at the place `tx_index`
/// of its block, starts after the state `s`, where its outermost frame works
/// on `callee`: nothing is touched yet, and the frame is open.
pub open spec fn begun_at(s: StateView, tx_index: usize, tx: TxInput, callee: Address) -> StateView {
    let fresh = StateView {
        tx_id: tx_index,
        frames: Seq::empty(),
        accessed: Seq::empty(),
        logs: 0,
        transient: Seq::empty(),
        ..s
    };
    let root = root_frame_at(s.ops.len(), tx, callee);
    with_frame(with_accesses(fresh, frame_accesses(tx_index, root)), root)
}

/// The state in which the transaction `tx`, the one at the place `tx_index`
/// of its block, starts after the state `s`.
pub open spec fn begun(s: StateView, tx_index: usize, tx: TxInput) -> StateView {
    begun_at(s, tx_index, tx, callee_of(tx))
}

/// The writes of the receipt of the transaction `tx_id`: whether it
/// succeeded, and how many log entries it made.
pub open spec fn receipt_accesses(tx_id: usize, failed: bool, logs: u64) -> Seq<Access> {
    seq![
        Access {
            rw: RW::WRITE,
            op: Op::TxReceipt {
                tx_id,
                field: TxReceiptField::PostStateOrStatus,
                value: if failed {
                    0
                } else {
                    1
                },
            },
        },
        Access {
            rw: RW::WRITE,
            op: Op::TxReceipt { tx_id, field: TxReceiptField::LogLength, value: logs },
        },
    ]
}

/// The state `s` after the receipt of its transaction was written.
pub open spec fn sealed(s: StateView, failed: bool) -> StateView {
    with_accesses(s, receipt_accesses(s.tx_id, failed, s.logs))
}

/// Where a build fails: at the record `step_index`, whose instruction is
/// `opcode`.
pub open spec fn failure(error: Error, tx_index: usize, step_index: int, opcode: u8) -> BuildError {
    BuildError { error, tx_index, step_index: step_index as usize, opcode }
}

/// What the transaction `tx` with the trace `trace` leads to after `b`: the
/// frame of the transaction is opened, the records are recorded in their
/// order, and the receipt is written. Where a record cannot be recorded, the
/// build fails at it.
pub open spec fn tx_outcome(b: BuilderView, tx: TxInput, trace: GethExecTrace) -> Result<
    BuilderView,
    BuildError,
> {
    let tx_index = b.txs.len() as usize;
    let records = trace.struct_logs@;
    if !has_room(b.state.ops.len(), 7) {
        Err(failure(Error::TraceMalformed, tx_index, 0, 0))
    } else {
        match run_steps(begun(b.state, tx_index, tx), records, 0) {
            Err((e, i)) => Err(failure(e, tx_index, i, records[i].op)),
            Ok((s, steps)) => if !has_room(s.ops.len(), 2) {
                Err(failure(Error::TraceMalformed, tx_index, records.len() as int, 0))
            } else {
                Ok(
                    BuilderView {
                        context: b.context,
                        txs: b.txs.push(transaction_of(tx, steps)),
                        state: sealed(s, trace.failed),
                    },
                )
            },
        }
    }
}

/// A copy of `bytes`.
fn copy_bytes(bytes: &Vec<u8>) -> (copy: Vec<u8>)
    ensures
        copy@ == bytes@,
{
    let mut copy: Vec<u8> = Vec::new();
    let mut i: usize = 0;
    while i < bytes.len()
        invariant
            i <= bytes@.len(),
            copy@ == bytes@.take(i as int),
        decreases bytes@.len() - i,
    {
        copy.push(bytes[i]);
        proof {
            assert(bytes@.take(i as int).push(bytes@[i as int]) =~= bytes@.take(i + 1));
        }
        i = i + 1;
    }
    proof {
        assert(bytes@.take(bytes@.len() as int) =~= bytes@);
    }
    copy
}

impl CircuitInputBuilder {
    /// The builder of the block `context`, which begins with `accounts`,
    /// before its first transaction.
    pub fn new(context: BlockContext, accounts: Vec<AccountState>) -> (b: CircuitInputBuilder)
        ensures
            b@ == initial_builder(context, accounts@),
    {
        let b = CircuitInputBuilder {
            context,
            txs: Vec::new(),
            state: CircuitInputState::new(accounts),
        };
        proof {
            assert(transaction_views(b.txs@) =~= Seq::<TransactionView>::empty());
        }
        b
    }

    /// Starts the transaction `tx` with `callee` as the account of its
    /// outermost frame: the frame is opened, and the transaction is given,
    /// without steps yet. Where the container cannot number the operations,
    /// nothing is done.
    pub fn begin_tx(&mut self, tx: &TxInput, callee: Address) -> (r: Result<Transaction, Error>)
        ensures
            r.is_err() == !has_room(old(self)@.state.ops.len(), 7),
            r.is_err() ==> r.unwrap_err() == Error::TraceMalformed && final(self)@ == old(self)@,
            r.is_ok() ==> r.unwrap()@ == transaction_of(*tx, Seq::empty()) && final(self)@ == (
            BuilderView {
                state: begun_at(old(self)@.state, old(self)@.txs.len() as usize, *tx, callee),
                ..old(self)@
            }),
    {
        if !self.state.room_for(7) {
            return Err(Error::TraceMalformed);
        }
        let root = CallContext {
            call_id: self.state.container.len() + 1,
            depth: 0,
            caller: tx.from,
            callee,
            is_static: false,
            is_create: tx.to.is_none(),
            return_pc: 0,
        };
        self.state.tx_id = self.txs.len();
        self.state.frames = Vec::new();
        self.state.accessed = Vec::new();
        self.state.logs = 0;
        self.state.transient = Vec::new();
        let mut scratch = ExecStep {
            pc: 0,
            op: 0,
            gas: 0,
            depth: 0,
            failed: false,
            bus_mapping_instance: Vec::new(),
        };
        self.state.open_frame(&mut scratch, root);
        let started = Transaction {
            from: tx.from,
            to: tx.to,
            value: tx.value,
            gas_limit: tx.gas_limit,
            call_data: copy_bytes(&tx.call_data),
            nonce: tx.nonce,
            steps: Vec::new(),
        };
        proof {
            assert(step_views(started.steps@) =~= Seq::<StepView>::empty());
        }
        Ok(started)
    }

    /// Starts the transaction `tx`: its outermost frame is opened, and the
    /// transaction is given, without steps yet. The frame works on the
    /// recipient, and on the new contract where the transaction creates one.
    /// Where the container cannot number the operations, nothing is done.
    pub fn new_tx(&mut self, tx: &TxInput) -> (r: Result<Transaction, Error>)
        ensures
            r.is_err() == !has_room(old(self)@.state.ops.len(), 7),
            r.is_err() ==> r.unwrap_err() == Error::TraceMalformed && final(self)@ == old(self)@,
            r.is_ok() ==> r.unwrap()@ == transaction_of(*tx, Seq::empty()) && final(self)@ == (
            BuilderView {
                state: begun(old(self)@.state, old(self)@.txs.len() as usize, *tx),
                ..old(self)@
            }),
    {
        let callee: Address = match tx.to {
            Some(a) => a,
            None => tx.from.create_address(tx.nonce),
        };
        self.begin_tx(tx, callee)
    }

    /// Ends the transaction at work: its receipt is written. Where the
    /// container cannot number the operations, nothing is done.
    pub fn seal_tx(&mut self, failed: bool) -> (r: Result<(), Error>)
        ensures
            r.is_err() == !has_room(old(self)@.state.ops.len(), 2),
            r.is_err() ==> r.unwrap_err() == Error::TraceMalformed && final(self)@ == old(self)@,
            r.is_ok() ==> final(self)@ == (BuilderView {
                state: sealed(old(self)@.state, failed),
                ..old(self)@
            }),
    {
        if !self.state.room_for(2) {
            return Err(Error::TraceMalformed);
        }
        let tx_id: usize = self.state.tx_id;
        let mut accesses: Vec<Access> = Vec::new();
        accesses.push(
            Access {
                rw: RW::WRITE,
                op: Op::TxReceipt {
                    tx_id,
                    field: TxReceiptField::PostStateOrStatus,
                    value: if failed {
                        0
                    } else {
                        1
                    },
                },
            },
        );
        accesses.push(
            Access {
                rw: RW::WRITE,
                op: Op::TxReceipt { tx_id, field: TxReceiptField::LogLength, value: self.state.logs },
            },
        );
        proof {
            assert(accesses@ =~= receipt_accesses(tx_id, failed, self.state.logs));
        }
        let mut scratch = ExecStep {
            pc: 0,
            op: 0,
            gas: 0,
            depth: 0,
            failed: false,
            bus_mapping_instance: Vec::new(),
        };
        self.state.push_accesses(&mut scratch, &accesses);
        Ok(())
    }

    /// Builds the transaction `tx` from its trace and adds it to the block.
    /// An error names the record at which the build failed; what the builder
    /// holds is then of no use.
    pub fn handle_tx(&mut self, tx: &TxInput, trace: &GethExecTrace) -> (r: Result<
        (),
        BuildError,
    >)
        ensures
            match r {
                Ok(()) => tx_outcome(old(self)@, *tx, *trace) == Ok::<BuilderView, BuildError>(
                    final(self)@,
                ),
                Err(e) => tx_outcome(old(self)@, *tx, *trace) == Err::<BuilderView, BuildError>(e),
            },
    {
        let tx_index: usize = self.txs.len();
        let mut built = match self.new_tx(tx) {
            Ok(t) => t,
            Err(e) => {
                return Err(BuildError { error: e, tx_index, step_index: 0, opcode: 0 });
            },
        };
        let steps = match handle_steps(&mut self.state, &trace.struct_logs) {
            Ok(steps) => steps,
            Err((e, i)) => {
                return Err(
                    BuildError {
                        error: e,
                        tx_index,
                        step_index: i,
                        opcode: trace.struct_logs[i].op,
                    },
                );
            },
        };
        built.steps = steps;
        match self.seal_tx(trace.failed) {
            Ok(()) => {},
            Err(e) => {
                return Err(
                    BuildError {
                        error: e,
                        tx_index,
                        step_index: trace.struct_logs.len(),
                        opcode: 0,
                    },
                );
            },
        }
        proof {
            assert(transaction_views(self.txs@.push(built)) =~= transaction_views(
                self.txs@,
            ).push(built@));
        }
        self.txs.push(built);
        Ok(())
    }
}

/// The builder before the first transaction of the block `context`, which
/// begins with `accounts`.
pub open spec fn initial_builder(context: BlockContext, accounts: Seq<AccountState>) -> BuilderView {
    BuilderView { context, txs: Seq::empty(), state: initial_state(accounts) }
}

/// What the transactions of `input` from the place `from` on lead to after
/// `b`. They are built in their order, and the first failure ends the build.
pub open spec fn block_outcome(b: BuilderView, input: Seq<(TxInput, GethExecTrace)>, from: int) -> Result<
    BuilderView,
    BuildError,
>
    decreases input.len() - from,
{
    if from < 0 || from >= input.len() {
        Ok(b)
    } else {
        match tx_outcome(b, input[from].0, input[from].1) {
            Err(e) => Err(e),
            Ok(next) => block_outcome(next, input, from + 1),
        }
    }
}

/// The block that `b` has built.
pub open spec fn block_of(b: BuilderView) -> BlockView {
    BlockView { context: b.context, txs: b.txs, ops: b.state.ops }
}

/// The block of the transactions `input`, each with its trace; or the first
/// failure of the build.
pub open spec fn built_block(
    context: BlockContext,
    accounts: Seq<AccountState>,
    input: Seq<(TxInput, GethExecTrace)>,
) -> Result<BlockView, BuildError> {
    match block_outcome(initial_builder(context, accounts), input, 0) {
        Ok(b) => Ok(block_of(b)),
        Err(e) => Err(e),
    }
}

impl CircuitInputBuilder {
    /// The block that the builder has built.
    pub fn into_block(self) -> (block: Block)
        ensures
            block@ == block_of(self@),
    {
        Block { context: self.context, txs: self.txs, container: self.state.container }
    }
}

/// Builds the block `context`, which begins with `accounts`, from its
/// transactions, each with its trace. The transactions are built in their
/// order: for each, its outermost frame is opened, its records are recorded
/// one by one, and its receipt is written. The first record that cannot be
/// recorded ends the build: the error names the transaction, the record and
/// its instruction, and no block is given. The counters of the operations of
/// the block that is given are 1, 2, and so on, in the order in which the
/// operations were made, and every handle of every step stands for one of
/// these operations.
pub fn build_block(
    context: BlockContext,
    accounts: Vec<AccountState>,
    input: &Vec<(TxInput, GethExecTrace)>,
) -> (r: Result<Block, BuildError>)
    ensures
        match r {
            Ok(block) => built_block(context, accounts@, input@) == Ok::<BlockView, BuildError>(
                block@,
            ),
            Err(e) => built_block(context, accounts@, input@) == Err::<BlockView, BuildError>(e),
        },
        r.is_ok() ==> counted_from_one(r.unwrap()@.ops),
        r.is_ok() ==> transactions_resolve(r.unwrap()@.ops, r.unwrap()@.txs),
{
    proof {
        crate::laws::lemma_counters_run_from_one(context, accounts@, input@);
        crate::laws::lemma_handles_stand_for_operations(context, accounts@, input@);
    }
    let ghost start = initial_builder(context, accounts@);
    let mut builder = CircuitInputBuilder::new(context, accounts);
    let n: usize = input.len();
    let mut i: usize = 0;
    while i < n
        invariant
            i <= n,
            n == input@.len(),
            start == initial_builder(context, accounts@),
            block_outcome(start, input@, 0) == block_outcome(builder@, input@, i as int),
        decreases n - i,
    {
        let ghost before = builder@;
        match builder.handle_tx(&input[i].0, &input[i].1) {
            Ok(()) => {},
            Err(e) => {
                proof {
                    assert(block_outcome(before, input@, i as int) == Err::<
                        BuilderView,
                        BuildError,
                    >(e));
                }
                return Err(e);
            },
        }
        i = i + 1;
    }
    Ok(builder.into_block())
}

} // verus!
